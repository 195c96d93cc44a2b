use vstd::prelude::*;

use crate::feed::Entry;
use crate::feed::parse_entries;
use crate::feed::spec_parse_entries;

verus! {

/// The `title` and `href` attributes of the `<link>` elements of the
/// HTML page that `page` denotes, in document order; an absent attribute
/// is an absent value.
pub uninterp spec fn html_links_of(page: Seq<char>) -> Seq<(Option<Seq<char>>, Option<Seq<char>>)>;

/// Relies on `scraper::Html::parse_document`, `Html::select` with the
/// selector `link`, and `ElementRef::attr`: returns, for each `<link>`
/// element of the page in document order, its `title` and `href`
/// attributes. HTML parsing never fails, and the result depends on the
/// page text alone.
#[verifier::external_body]
fn html_link_elements(page: &str) -> (r: Vec<(Option<String>, Option<String>)>)
    ensures
        r.deep_view() == html_links_of(page@),
{
    let html = scraper::Html::parse_document(page);
    let selector = match scraper::Selector::parse("link") {
        Ok(s) => s,
        Err(_) => return Vec::new(),
    };
    html.select(&selector).map(|el| (
        el.attr("title").map(|t| t.to_owned()),
        el.attr("href").map(|h| h.to_owned()),
    )).collect()
}

/// The `href` of the first link element whose `title` attribute is
/// exactly `RSS`: absent when no element matches, and the empty string
/// when the matching element has no `href`.
pub open spec fn spec_rss_href(links: Seq<(Option<Seq<char>>, Option<Seq<char>>)>) -> Option<
    Seq<char>,
>
    decreases links.len(),
{
    if links.len() == 0 {
        None
    } else if links[0].0 == Some("RSS"@) {
        match links[0].1 {
            Some(h) => Some(h),
            None => Some(Seq::<char>::empty()),
        }
    } else {
        spec_rss_href(links.skip(1))
    }
}

/// A page none of whose link elements is titled `RSS` resolves to
/// nothing: absence, not an error.
pub proof fn lemma_no_rss_link_unresolved(links: Seq<(Option<Seq<char>>, Option<Seq<char>>)>)
    requires
        forall|i: int| 0 <= i < links.len() ==> links[i].0 != Some("RSS"@),
    ensures
        spec_rss_href(links) is None,
    decreases links.len(),
{
    if links.len() > 0 {
        assert(forall|i: int|
            0 <= i < links.skip(1).len() ==> links.skip(1)[i] == links[i + 1]);
        lemma_no_rss_link_unresolved(links.skip(1));
    }
}

/// The `href` of the first link element titled `RSS`, if any.
fn find_rss_href(links: &Vec<(Option<String>, Option<String>)>) -> (r: Option<String>)
    ensures
        r.deep_view() == spec_rss_href(links.deep_view()),
{
    let ghost lv = links.deep_view();
    proof {
        assert(lv.skip(0) =~= lv);
    }
    let mut i: usize = 0;
    while i < links.len()
        invariant
            lv == links.deep_view(),
            0 <= i <= links@.len(),
            spec_rss_href(lv) == spec_rss_href(lv.skip(i as int)),
        decreases links@.len() - i,
    {
        let is_rss = match &links[i].0 {
            Some(t) => crate::str_eq(t.as_str(), "RSS"),
            None => false,
        };
        proof {
            assert(lv.skip(i as int)[0] == lv[i as int]);
            assert(lv[i as int] == links@[i as int].deep_view());
        }
        if is_rss {
            proof {
                assert(lv[i as int].0 == Some("RSS"@));
            }
            return match &links[i].1 {
                Some(h) => Some(h.clone()),
                None => Some(String::new()),
            };
        }
        proof {
            assert(lv[i as int].0 != Some("RSS"@));
            assert(lv.skip(i as int).skip(1) =~= lv.skip(i as int + 1));
        }
        i = i + 1;
    }
    proof {
        assert(lv.skip(i as int).len() == 0);
    }
    None
}

/// The channel-style source: its syndication URL is discovered by
/// scanning the channel's HTML page for a link element titled `RSS`.
pub struct Youtube;

/// The address of the channel page for a channel identifier.
pub open spec fn spec_channel_url(handler: Seq<char>) -> Seq<char> {
    "https://www.youtube.com/"@ + handler
}

impl Youtube {
    /// The channel page URL for a channel identifier: the fixed host
    /// prefix with the identifier appended.
    pub fn channel_url(handler: &str) -> (r: String)
        ensures
            r@ == spec_channel_url(handler@),
    {
        let base = String::from_str("https://www.youtube.com/");
        base.concat(handler)
    }

    /// The syndication URL that a channel's HTML page declares: the
    /// `href` of its first link element titled `RSS`, or nothing when no
    /// such element exists.
    pub fn get_rss_url(page: &str) -> (r: Option<String>)
        ensures
            r.deep_view() == spec_rss_href(html_links_of(page@)),
    {
        let links = html_link_elements(page);
        find_rss_href(&links)
    }

    /// The entries of a fetched syndication document, in document order;
    /// empty when the document is not well-formed XML.
    pub fn get_rss_entries(document: &str) -> (r: Vec<Entry>)
        ensures
            r.deep_view() == spec_parse_entries(document@),
    {
        parse_entries(document)
    }
}

} // verus!
