use vstd::prelude::*;

use crate::xml::NodeManipulation;
use crate::xml::NodeV;
use crate::xml::XmlNode;
use crate::xml::parse_document;
use crate::xml::spec_attr_of;
use crate::xml::spec_text_of;
use crate::xml::xml_doc_of;

verus! {

/// The kind of content source a feed points at. It selects the
/// resolution strategy and round-trips to and from a lowercase token.
#[derive(Clone, Copy, PartialEq, Eq, Structural, Debug)]
pub enum Source {
    RSS,
    Youtube,
}

/// The lowercase token that stands for a source in config and CLI input.
pub open spec fn spec_source_token(s: Source) -> Seq<char> {
    match s {
        Source::RSS => "rss"@,
        Source::Youtube => "youtube"@,
    }
}

/// The source a lowercase token stands for, if any.
pub open spec fn spec_source_from_token(t: Seq<char>) -> Option<Source> {
    if t == "rss"@ {
        Some(Source::RSS)
    } else if t == "youtube"@ {
        Some(Source::Youtube)
    } else {
        None
    }
}

impl Source {
    /// The lowercase token of this source.
    pub fn token(&self) -> (r: String)
        ensures
            r@ == spec_source_token(*self),
    {
        match self {
            Source::RSS => String::from_str("rss"),
            Source::Youtube => String::from_str("youtube"),
        }
    }

    /// The source named by a lowercase token, or nothing for an unknown
    /// token.
    pub fn from_token(t: &str) -> (r: Option<Source>)
        ensures
            r == spec_source_from_token(t@),
    {
        if crate::str_eq(t, "rss") {
            Some(Source::RSS)
        } else if crate::str_eq(t, "youtube") {
            Some(Source::Youtube)
        } else {
            None
        }
    }

    /// The display name of this source.
    pub fn name(&self) -> (r: String)
        ensures
            (*self == Source::RSS ==> r@ == "RSS"@) && (*self == Source::Youtube ==> r@
                == "Youtube"@),
    {
        match self {
            Source::RSS => String::from_str("RSS"),
            Source::Youtube => String::from_str("Youtube"),
        }
    }
}

impl Default for Source {
    /// The source a fresh feed carries before one is chosen.
    fn default() -> (r: Source)
        ensures
            r == Source::RSS,
    {
        Source::RSS
    }
}

/// Tokens of distinct sources differ, so the token round-trips.
pub proof fn lemma_source_token_round_trip(s: Source)
    ensures
        spec_source_from_token(spec_source_token(s)) == Some(s),
{
    reveal_strlit("rss");
    reveal_strlit("youtube");
    assert(spec_source_token(s).len() == 3 || spec_source_token(s).len() == 7);
}

/// A user-facing classification of a feed, with no effect on resolution
/// or parsing. Round-trips to and from a lowercase token.
#[derive(Clone, Copy, PartialEq, Eq, Structural, Debug)]
pub enum Category {
    Entertainment,
    Music,
    Technology,
}

/// The lowercase token that stands for a category in config and CLI input.
pub open spec fn spec_category_token(c: Category) -> Seq<char> {
    match c {
        Category::Entertainment => "entertainment"@,
        Category::Music => "music"@,
        Category::Technology => "technology"@,
    }
}

/// The category a lowercase token stands for, if any.
pub open spec fn spec_category_from_token(t: Seq<char>) -> Option<Category> {
    if t == "entertainment"@ {
        Some(Category::Entertainment)
    } else if t == "music"@ {
        Some(Category::Music)
    } else if t == "technology"@ {
        Some(Category::Technology)
    } else {
        None
    }
}

impl Category {
    /// The lowercase token of this category.
    pub fn token(&self) -> (r: String)
        ensures
            r@ == spec_category_token(*self),
    {
        match self {
            Category::Entertainment => String::from_str("entertainment"),
            Category::Music => String::from_str("music"),
            Category::Technology => String::from_str("technology"),
        }
    }

    /// The category named by a lowercase token, or nothing for an unknown
    /// token.
    pub fn from_token(t: &str) -> (r: Option<Category>)
        ensures
            r == spec_category_from_token(t@),
    {
        if crate::str_eq(t, "entertainment") {
            Some(Category::Entertainment)
        } else if crate::str_eq(t, "music") {
            Some(Category::Music)
        } else if crate::str_eq(t, "technology") {
            Some(Category::Technology)
        } else {
            None
        }
    }

    /// The display name of this category.
    pub fn name(&self) -> (r: String)
        ensures
            (*self == Category::Entertainment ==> r@ == "Entertainment"@) && (*self
                == Category::Music ==> r@ == "Music"@) && (*self == Category::Technology ==> r@
                == "Technology"@),
    {
        match self {
            Category::Entertainment => String::from_str("Entertainment"),
            Category::Music => String::from_str("Music"),
            Category::Technology => String::from_str("Technology"),
        }
    }
}

impl Default for Category {
    /// The category a fresh feed carries before one is chosen.
    fn default() -> (r: Category)
        ensures
            r == Category::Entertainment,
    {
        Category::Entertainment
    }
}

/// Tokens of distinct categories differ, so the token round-trips.
pub proof fn lemma_category_token_round_trip(c: Category)
    ensures
        spec_category_from_token(spec_category_token(c)) == Some(c),
{
    reveal_strlit("entertainment");
    reveal_strlit("music");
    reveal_strlit("technology");
    assert(spec_category_token(c).len() == 13 || spec_category_token(c).len() == 5
        || spec_category_token(c).len() == 10);
}

/// An instant with a fixed UTC offset: the instant as seconds and
/// nanoseconds since the Unix epoch, and the offset it is displayed in,
/// in seconds east of UTC.
#[derive(Clone, Copy, PartialEq, Eq, Structural, Debug)]
pub struct Timestamp {
    pub epoch_secs: i64,
    pub subsec_nanos: u32,
    pub offset_secs: i32,
}

/// The instant that `s` denotes as an RFC 3339 timestamp with a fixed
/// offset, or nothing when `s` is not one.
pub uninterp spec fn rfc3339_of(s: Seq<char>) -> Option<Timestamp>;

/// Relies on `chrono::DateTime::parse_from_rfc3339` and the accessors
/// `timestamp`, `timestamp_subsec_nanos` and `FixedOffset::local_minus_utc`:
/// parses an RFC 3339 timestamp into its instant and offset, and fails
/// on text that chrono rejects. The result depends on the text alone.
#[verifier::external_body]
fn parse_rfc3339(s: &str) -> (r: Option<Timestamp>)
    ensures
        r == rfc3339_of(s@),
{
    match chrono::DateTime::parse_from_rfc3339(s) {
        Ok(dt) => Some(Timestamp {
            epoch_secs: dt.timestamp(),
            subsec_nanos: dt.timestamp_subsec_nanos(),
            offset_secs: dt.offset().local_minus_utc(),
        }),
        Err(_) => None,
    }
}

/// One syndicated item extracted from a feed's document. Missing leaf
/// fields degrade to the empty string or to absence, never to an error.
#[derive(Clone, PartialEq, Debug)]
pub struct Entry {
    pub id: String,
    pub title: String,
    pub link: String,
    pub published: Option<Timestamp>,
    pub thumbnail: Option<String>,
}

/// The mathematical value of an `Entry`.
pub ghost struct EntryV {
    pub id: Seq<char>,
    pub title: Seq<char>,
    pub link: Seq<char>,
    pub published: Option<Timestamp>,
    pub thumbnail: Option<Seq<char>>,
}

impl View for Entry {
    type V = EntryV;

    open spec fn view(&self) -> EntryV {
        EntryV {
            id: self.id@,
            title: self.title@,
            link: self.link@,
            published: self.published,
            thumbnail: self.thumbnail.deep_view(),
        }
    }
}

impl DeepView for Entry {
    type V = EntryV;

    open spec fn deep_view(&self) -> EntryV {
        self.view()
    }
}

/// The entry all fields of which are still missing.
pub open spec fn spec_entry_empty() -> EntryV {
    EntryV {
        id: Seq::<char>::empty(),
        title: Seq::<char>::empty(),
        link: Seq::<char>::empty(),
        published: None,
        thumbnail: None,
    }
}

impl Default for Entry {
    /// An entry with every field still missing.
    fn default() -> (r: Entry)
        ensures
            r@ == spec_entry_empty(),
    {
        Entry {
            id: String::new(),
            title: String::new(),
            link: String::new(),
            published: None,
            thumbnail: None,
        }
    }
}

/// One configured subscription: a source-specific identifier, the source
/// kind, a user-facing category, and an optional explicit URL override.
#[derive(Clone, PartialEq, Debug)]
pub struct Feed {
    pub id: String,
    pub source: Source,
    pub category: Category,
    pub url: Option<String>,
}

/// The mathematical value of a `Feed`.
pub ghost struct FeedV {
    pub id: Seq<char>,
    pub source: Source,
    pub category: Category,
    pub url: Option<Seq<char>>,
}

impl View for Feed {
    type V = FeedV;

    open spec fn view(&self) -> FeedV {
        FeedV { id: self.id@, source: self.source, category: self.category, url: self.url.deep_view() }
    }
}

impl DeepView for Feed {
    type V = FeedV;

    open spec fn deep_view(&self) -> FeedV {
        self.view()
    }
}

impl Default for Feed {
    /// A feed with an empty identifier, the default source and category,
    /// and no explicit URL.
    fn default() -> (r: Feed)
        ensures
            r@ == (FeedV {
                id: Seq::<char>::empty(),
                source: Source::RSS,
                category: Category::Entertainment,
                url: None,
            }),
    {
        Feed { id: String::new(), source: Source::RSS, category: Category::Entertainment, url: None }
    }
}

/// The channel page that must be fetched before the feed's URL can be
/// resolved: nothing when the explicit URL override is set or when the
/// source kind needs no page, and the channel page address otherwise.
pub open spec fn spec_page_request(f: FeedV) -> Option<Seq<char>> {
    if f.url is Some {
        None
    } else {
        match f.source {
            Source::Youtube => Some(crate::youtube::spec_channel_url(f.id)),
            Source::RSS => None,
        }
    }
}

/// The feed's syndication URL: the explicit override verbatim whenever
/// set; otherwise, for a channel-style source, the address that the
/// fetched channel page declares, absent when no page could be fetched
/// or the page declares none; and absent for a source kind whose
/// resolution is not implemented.
pub open spec fn spec_resolve_url(f: FeedV, page: Option<Seq<char>>) -> Option<Seq<char>> {
    match f.url {
        Some(u) => Some(u),
        None => match f.source {
            Source::Youtube => match page {
                Some(p) => crate::youtube::spec_rss_href(crate::youtube::html_links_of(p)),
                None => None,
            },
            Source::RSS => None,
        },
    }
}

impl Feed {
    /// The channel page to fetch before resolving, if any. When the
    /// explicit URL override is set, no page is requested and so no
    /// network access happens for resolution.
    pub fn page_request(&self) -> (r: Option<String>)
        ensures
            r.deep_view() == spec_page_request(self@),
    {
        if self.url.is_some() {
            return None;
        }
        match self.source {
            Source::Youtube => Some(crate::youtube::Youtube::channel_url(self.id.as_str())),
            Source::RSS => None,
        }
    }

    /// The feed's syndication URL. The explicit override always wins,
    /// verbatim and whatever the source or identifier; otherwise a
    /// channel-style feed is resolved by scanning the fetched channel
    /// page, and absence of a page or of a matching link element
    /// degrades to absence, never to an error.
    pub fn resolve_url(&self, page: Option<&str>) -> (r: Option<String>)
        ensures
            r.deep_view() == spec_resolve_url(self@, page.deep_view()),
    {
        if let Some(u) = &self.url {
            return Some(u.clone());
        }
        match self.source {
            Source::Youtube => match page {
                Some(p) => crate::youtube::Youtube::get_rss_url(p),
                None => None,
            },
            Source::RSS => None,
        }
    }

    /// The entries of the feed's fetched syndication document, in
    /// document order. An absent document — the resolver yielded no URL,
    /// or the fetch failed — degrades to no entries, never to an error.
    pub fn get_entries(&self, document: Option<&str>) -> (r: Vec<Entry>)
        ensures
            document matches Some(d) ==> r.deep_view() == spec_parse_entries(d@),
            document is None ==> r.deep_view() == Seq::<EntryV>::empty(),
    {
        match document {
            Some(d) => parse_entries(d),
            None => {
                let r: Vec<Entry> = Vec::new();
                proof {
                    assert(r.deep_view() =~= Seq::<EntryV>::empty());
                }
                r
            },
        }
    }
}

/// An explicit URL override always wins: with `url` set the resolver
/// returns it verbatim, whatever the source, identifier or page, and no
/// channel page is requested, so resolution touches the network on no
/// path.
pub proof fn lemma_explicit_url_wins(f: FeedV, page: Option<Seq<char>>)
    requires
        f.url is Some,
    ensures
        spec_resolve_url(f, page) == f.url,
        spec_page_request(f) is None,
{
}

/// A document that is not well-formed XML yields no entries.
pub proof fn lemma_malformed_document_no_entries(doc: Seq<char>)
    requires
        xml_doc_of(doc) is None,
    ensures
        spec_parse_entries(doc) == Seq::<EntryV>::empty(),
{
}

/// The index one past the last node of the subtree whose root has depth
/// `d`, scanning from `j`: the first index at or after `j` whose node is
/// no deeper than `d`, or the number of nodes when every following node
/// is deeper.
pub open spec fn subtree_end_from(nodes: Seq<NodeV>, d: nat, j: int) -> int
    decreases nodes.len() - j,
{
    if j < 0 || j >= nodes.len() {
        nodes.len() as int
    } else if nodes[j].depth <= d {
        j
    } else {
        subtree_end_from(nodes, d, j + 1)
    }
}

/// The index one past the last descendant of the node at `i`.
pub open spec fn subtree_end(nodes: Seq<NodeV>, i: int) -> int {
    subtree_end_from(nodes, nodes[i].depth, i + 1)
}

/// The first node named `name` among the nodes at indices `lo` up to
/// `hi`, or nothing when none carries that name.
pub open spec fn spec_first_named(nodes: Seq<NodeV>, lo: int, hi: int, name: Seq<char>) -> Option<
    NodeV,
>
    decreases hi - lo,
{
    if lo < 0 || lo >= hi || lo >= nodes.len() {
        None
    } else if nodes[lo].name == name {
        Some(nodes[lo])
    } else {
        spec_first_named(nodes, lo + 1, hi, name)
    }
}

/// How the node at `j` changes the entry being built: each recognized
/// tag name populates exactly one field, every other tag name is
/// ignored.
pub open spec fn spec_entry_step(nodes: Seq<NodeV>, e: EntryV, j: int) -> EntryV {
    let n = nodes[j];
    if n.name == "id"@ {
        EntryV { id: spec_text_of(Some(n)), ..e }
    } else if n.name == "title"@ {
        EntryV { title: spec_text_of(Some(n)), ..e }
    } else if n.name == "link"@ {
        EntryV { link: spec_attr_of(Some(n), "href"@), ..e }
    } else if n.name == "published"@ {
        let t = spec_text_of(Some(n));
        EntryV { published: if t.len() == 0 { None } else { rfc3339_of(t) }, ..e }
    } else if n.name == "group"@ {
        EntryV {
            thumbnail: Some(
                spec_attr_of(
                    spec_first_named(nodes, j + 1, subtree_end(nodes, j), "thumbnail"@),
                    "url"@,
                ),
            ),
            ..e
        }
    } else {
        e
    }
}

/// The entry built from the nodes at indices `lo` up to `hi`, starting
/// from `e`.
pub open spec fn spec_entry_fold(nodes: Seq<NodeV>, e: EntryV, lo: int, hi: int) -> EntryV
    decreases hi - lo,
{
    if lo >= hi {
        e
    } else {
        spec_entry_fold(nodes, spec_entry_step(nodes, e, lo), lo + 1, hi)
    }
}

/// The entry that the `entry` element at index `i` denotes: the fold of
/// its descendants over the empty entry.
pub open spec fn spec_entry_at(nodes: Seq<NodeV>, i: int) -> EntryV {
    spec_entry_fold(nodes, spec_entry_empty(), i + 1, subtree_end(nodes, i))
}

/// The entries denoted by the nodes at indices `i` and beyond, in
/// document order: one per node named `entry`.
pub open spec fn spec_entries_from(nodes: Seq<NodeV>, i: int) -> Seq<EntryV>
    decreases nodes.len() - i,
{
    if i < 0 || i >= nodes.len() {
        Seq::<EntryV>::empty()
    } else if nodes[i].name == "entry"@ {
        seq![spec_entry_at(nodes, i)] + spec_entries_from(nodes, i + 1)
    } else {
        spec_entries_from(nodes, i + 1)
    }
}

/// The entries denoted by a document's nodes, in document order.
pub open spec fn spec_entries(nodes: Seq<NodeV>) -> Seq<EntryV> {
    spec_entries_from(nodes, 0)
}

/// The entries that a syndication document denotes: none when the
/// document is not well-formed XML, and otherwise one per element named
/// `entry`, in document order.
pub open spec fn spec_parse_entries(doc: Seq<char>) -> Seq<EntryV> {
    match xml_doc_of(doc) {
        None => Seq::<EntryV>::empty(),
        Some(nodes) => spec_entries(nodes),
    }
}

/// Folding one more node applies its step after the earlier ones.
proof fn lemma_entry_fold_snoc(nodes: Seq<NodeV>, e: EntryV, lo: int, hi: int)
    requires
        lo <= hi,
    ensures
        spec_entry_fold(nodes, e, lo, hi + 1) == spec_entry_step(
            nodes,
            spec_entry_fold(nodes, e, lo, hi),
            hi,
        ),
    decreases hi - lo,
{
    if lo < hi {
        lemma_entry_fold_snoc(nodes, spec_entry_step(nodes, e, lo), lo + 1, hi);
    } else {
        assert(spec_entry_fold(nodes, e, lo, hi) == e);
        assert(spec_entry_fold(nodes, e, hi, hi + 1) == spec_entry_fold(
            nodes,
            spec_entry_step(nodes, e, hi),
            hi + 1,
            hi + 1,
        ));
    }
}

/// Folding splits: the entry built from a whole range is the entry built
/// from its first part, folded over the rest.
proof fn lemma_entry_fold_split(nodes: Seq<NodeV>, e: EntryV, lo: int, mid: int, hi: int)
    requires
        lo <= mid <= hi,
    ensures
        spec_entry_fold(nodes, e, lo, hi) == spec_entry_fold(
            nodes,
            spec_entry_fold(nodes, e, lo, mid),
            mid,
            hi,
        ),
    decreases mid - lo,
{
    if lo < mid {
        lemma_entry_fold_split(nodes, spec_entry_step(nodes, e, lo), lo + 1, mid, hi);
    }
}

/// Folding nodes none of which is named `published` leaves the
/// `published` field unchanged.
proof fn lemma_fold_preserves_published(nodes: Seq<NodeV>, e: EntryV, lo: int, hi: int)
    requires
        forall|j: int| lo <= j < hi ==> nodes[j].name != "published"@,
    ensures
        spec_entry_fold(nodes, e, lo, hi).published == e.published,
    decreases hi - lo,
{
    if lo < hi {
        assert(spec_entry_step(nodes, e, lo).published == e.published);
        lemma_fold_preserves_published(nodes, spec_entry_step(nodes, e, lo), lo + 1, hi);
    }
}

/// An `entry` element lacking a `published` descendant yields an entry
/// whose `published` is absent, not a default instant.
pub proof fn lemma_missing_published_is_absent(nodes: Seq<NodeV>, i: int)
    requires
        0 <= i < nodes.len(),
        forall|j: int| i < j < subtree_end(nodes, i) ==> nodes[j].name != "published"@,
    ensures
        spec_entry_at(nodes, i).published is None,
{
    lemma_fold_preserves_published(nodes, spec_entry_empty(), i + 1, subtree_end(nodes, i));
}

/// Folding nodes none of which is named `link` leaves the `link` field
/// unchanged.
proof fn lemma_fold_preserves_link(nodes: Seq<NodeV>, e: EntryV, lo: int, hi: int)
    requires
        forall|j: int| lo <= j < hi ==> nodes[j].name != "link"@,
    ensures
        spec_entry_fold(nodes, e, lo, hi).link == e.link,
    decreases hi - lo,
{
    if lo < hi {
        assert(spec_entry_step(nodes, e, lo).link == e.link);
        lemma_fold_preserves_link(nodes, spec_entry_step(nodes, e, lo), lo + 1, hi);
    }
}

/// The `link` field of a parsed entry is the `href` attribute of its
/// last `link` descendant, read from the attributes alone: the element's
/// text content plays no part.
pub proof fn lemma_link_from_href(nodes: Seq<NodeV>, i: int, j: int)
    requires
        0 <= i < nodes.len(),
        i < j < subtree_end(nodes, i),
        nodes[j].name == "link"@,
        forall|k: int| j < k < subtree_end(nodes, i) ==> nodes[k].name != "link"@,
    ensures
        spec_entry_at(nodes, i).link == crate::xml::spec_attr_lookup(nodes[j].attrs, "href"@),
{
    let end = subtree_end(nodes, i);
    let early = spec_entry_fold(nodes, spec_entry_empty(), i + 1, j);
    lemma_entry_fold_split(nodes, spec_entry_empty(), i + 1, j + 1, end);
    lemma_entry_fold_snoc(nodes, spec_entry_empty(), i + 1, j);
    reveal_strlit("id");
    reveal_strlit("title");
    reveal_strlit("link");
    assert("id"@.len() == 2 && "title"@.len() == 5 && "link"@.len() == 4);
    assert(spec_entry_step(nodes, early, j).link == spec_attr_of(Some(nodes[j]), "href"@));
    lemma_fold_preserves_link(nodes, spec_entry_step(nodes, early, j), j + 1, end);
}

/// The number of nodes named `entry` at indices `a` up to `b`.
pub open spec fn count_entries(nodes: Seq<NodeV>, a: int, b: int) -> int
    decreases b - a,
{
    if a < 0 || a >= b || a >= nodes.len() {
        0
    } else {
        (if nodes[a].name == "entry"@ {
            1int
        } else {
            0int
        }) + count_entries(nodes, a + 1, b)
    }
}

/// Counting over a range is never negative.
proof fn lemma_count_entries_nonneg(nodes: Seq<NodeV>, a: int, b: int)
    ensures
        count_entries(nodes, a, b) >= 0,
    decreases b - a,
{
    if !(a < 0 || a >= b || a >= nodes.len()) {
        lemma_count_entries_nonneg(nodes, a + 1, b);
    }
}

/// Counting splits over adjacent ranges.
proof fn lemma_count_entries_split(nodes: Seq<NodeV>, a: int, m: int, b: int)
    requires
        0 <= a <= m <= b <= nodes.len(),
    ensures
        count_entries(nodes, a, b) == count_entries(nodes, a, m) + count_entries(nodes, m, b),
    decreases m - a,
{
    if a < m {
        lemma_count_entries_split(nodes, a + 1, m, b);
    }
}

/// The entry element at index `i` stands in the parsed sequence at the
/// position given by the number of entry elements before it.
proof fn lemma_entry_position(nodes: Seq<NodeV>, a: int, i: int)
    requires
        0 <= a <= i < nodes.len(),
        nodes[i].name == "entry"@,
    ensures
        0 <= count_entries(nodes, a, i) < spec_entries_from(nodes, a).len(),
        spec_entries_from(nodes, a)[count_entries(nodes, a, i)] == spec_entry_at(nodes, i),
    decreases i - a,
{
    lemma_count_entries_nonneg(nodes, a, i);
    if a == i {
        assert(count_entries(nodes, i, i) == 0);
        assert(spec_entries_from(nodes, i) == seq![spec_entry_at(nodes, i)] + spec_entries_from(
            nodes,
            i + 1,
        ));
    } else {
        lemma_entry_position(nodes, a + 1, i);
        if nodes[a].name == "entry"@ {
            assert(spec_entries_from(nodes, a) == seq![spec_entry_at(nodes, a)]
                + spec_entries_from(nodes, a + 1));
            assert(count_entries(nodes, a, i) == 1 + count_entries(nodes, a + 1, i));
        } else {
            assert(spec_entries_from(nodes, a) == spec_entries_from(nodes, a + 1));
            assert(count_entries(nodes, a, i) == count_entries(nodes, a + 1, i));
        }
    }
}

/// Entries keep document order: of two `entry` elements, the one that
/// appears first in the document yields the entry that appears first in
/// the parsed sequence, never reordered by publish time or anything
/// else.
pub proof fn lemma_entries_in_document_order(nodes: Seq<NodeV>, i1: int, i2: int)
    requires
        0 <= i1 < i2 < nodes.len(),
        nodes[i1].name == "entry"@,
        nodes[i2].name == "entry"@,
    ensures
        ({
            let k1 = count_entries(nodes, 0, i1);
            let k2 = count_entries(nodes, 0, i2);
            0 <= k1 < k2 < spec_entries(nodes).len() && spec_entries(nodes)[k1] == spec_entry_at(
                nodes,
                i1,
            ) && spec_entries(nodes)[k2] == spec_entry_at(nodes, i2)
        }),
{
    lemma_entry_position(nodes, 0, i1);
    lemma_entry_position(nodes, 0, i2);
    lemma_count_entries_split(nodes, 0, i1, i2);
    assert(count_entries(nodes, i1, i2) == 1 + count_entries(nodes, i1 + 1, i2));
    lemma_count_entries_nonneg(nodes, i1 + 1, i2);
}

/// The index one past the last descendant of the node at `i`, which
/// always lies past `i` and within the node list.
fn subtree_end_exec(nodes: &Vec<XmlNode>, i: usize) -> (end: usize)
    requires
        i < nodes@.len(),
    ensures
        end == subtree_end(nodes.deep_view(), i as int),
        i < end <= nodes@.len(),
{
    let ghost nv = nodes.deep_view();
    let n = nodes.len();
    let d = nodes[i].depth;
    let mut j: usize = i + 1;
    while j < n && nodes[j].depth > d
        invariant
            nv == nodes.deep_view(),
            n == nodes@.len(),
            i < nodes@.len(),
            d == nodes@[i as int].depth,
            i + 1 <= j <= nodes@.len(),
            subtree_end_from(nv, d as nat, i + 1) == subtree_end_from(nv, d as nat, j as int),
        decreases nodes@.len() - j,
    {
        j = j + 1;
    }
    proof {
        assert(nv.len() == nodes@.len());
        if j < n {
            assert(nv[j as int].depth <= d as nat);
            assert(subtree_end_from(nv, d as nat, j as int) == j);
        } else {
            assert(subtree_end_from(nv, d as nat, j as int) == nv.len());
        }
    }
    j
}

/// The index of the first node named `name` at indices `lo` up to `hi`,
/// or nothing when none carries that name.
fn first_named_in(nodes: &Vec<XmlNode>, lo: usize, hi: usize, name: &str) -> (r: Option<usize>)
    requires
        lo <= hi <= nodes@.len(),
    ensures
        r matches Some(k) ==> lo <= k < hi && spec_first_named(
            nodes.deep_view(),
            lo as int,
            hi as int,
            name@,
        ) == Some(nodes.deep_view()[k as int]),
        r is None ==> spec_first_named(nodes.deep_view(), lo as int, hi as int, name@) is None,
{
    let ghost nv = nodes.deep_view();
    let mut k: usize = lo;
    while k < hi
        invariant
            nv == nodes.deep_view(),
            lo <= k <= hi <= nodes@.len(),
            spec_first_named(nv, lo as int, hi as int, name@) == spec_first_named(
                nv,
                k as int,
                hi as int,
                name@,
            ),
        decreases hi - k,
    {
        if crate::str_eq(nodes[k].name.as_str(), name) {
            proof {
                assert(nv[k as int].name == name@);
            }
            return Some(k);
        }
        k = k + 1;
    }
    None
}

/// The entry that the `entry` element at index `i` denotes.
fn extract_entry(nodes: &Vec<XmlNode>, i: usize) -> (e: Entry)
    requires
        i < nodes@.len(),
    ensures
        e@ == spec_entry_at(nodes.deep_view(), i as int),
{
    let ghost nv = nodes.deep_view();
    let end = subtree_end_exec(nodes, i);
    let mut e = Entry::default();
    let mut j: usize = i + 1;
    proof {
        assert(spec_entry_fold(nv, spec_entry_empty(), i + 1, i + 1) == spec_entry_empty());
    }
    while j < end
        invariant
            nv == nodes.deep_view(),
            i < nodes@.len(),
            i + 1 <= j <= end <= nodes@.len(),
            end == subtree_end(nv, i as int),
            e@ == spec_entry_fold(nv, spec_entry_empty(), i + 1, j as int),
        decreases end - j,
    {
        let ghost e_before = e@;
        let name = &nodes[j].name;
        if crate::str_eq(name.as_str(), "id") {
            e.id = NodeManipulation::get_text_from_node(Some(&nodes[j]));
        } else if crate::str_eq(name.as_str(), "title") {
            e.title = NodeManipulation::get_text_from_node(Some(&nodes[j]));
        } else if crate::str_eq(name.as_str(), "link") {
            e.link = NodeManipulation::get_attr_from_node(Some(&nodes[j]), String::from_str("href"));
        } else if crate::str_eq(name.as_str(), "published") {
            let t = NodeManipulation::get_text_from_node(Some(&nodes[j]));
            if t.as_str().unicode_len() == 0 {
                e.published = None;
            } else {
                e.published = parse_rfc3339(t.as_str());
            }
        } else if crate::str_eq(name.as_str(), "group") {
            let group_end = subtree_end_exec(nodes, j);
            let found = first_named_in(nodes, j + 1, group_end, "thumbnail");
            let thumb = match found {
                Some(k) => NodeManipulation::get_attr_from_node(
                    Some(&nodes[k]),
                    String::from_str("url"),
                ),
                None => NodeManipulation::get_attr_from_node(None, String::from_str("url")),
            };
            e.thumbnail = Some(thumb);
        }
        proof {
            assert(e@ == spec_entry_step(nv, e_before, j as int));
            lemma_entry_fold_snoc(nv, spec_entry_empty(), i + 1, j as int);
        }
        j = j + 1;
    }
    e
}

/// The entries of a syndication document, in document order: an empty
/// vector when the document is not well-formed XML, and otherwise one
/// entry per element named `entry`, each field populated from the
/// element's descendants and degrading to an empty or absent value when
/// its source is missing.
pub fn parse_entries(document: &str) -> (r: Vec<Entry>)
    ensures
        r.deep_view() == spec_parse_entries(document@),
{
    match parse_document(document) {
        None => {
            let r: Vec<Entry> = Vec::new();
            proof {
                assert(r.deep_view() =~= spec_parse_entries(document@));
            }
            r
        },
        Some(nodes) => {
            let ghost nv = nodes.deep_view();
            let mut r: Vec<Entry> = Vec::new();
            let mut i: usize = 0;
            proof {
                assert(r.deep_view() + spec_entries_from(nv, 0) =~= spec_entries_from(nv, 0));
            }
            while i < nodes.len()
                invariant
                    nv == nodes.deep_view(),
                    i <= nodes@.len(),
                    spec_entries_from(nv, 0) =~= r.deep_view() + spec_entries_from(nv, i as int),
                decreases nodes@.len() - i,
            {
                let ghost r_before = r.deep_view();
                if crate::str_eq(nodes[i].name.as_str(), "entry") {
                    let e = extract_entry(&nodes, i);
                    r.push(e);
                    proof {
                        assert(nv[i as int].name == "entry"@);
                        assert(spec_entries_from(nv, i as int) =~= seq![
                            spec_entry_at(nv, i as int),
                        ] + spec_entries_from(nv, i + 1));
                        assert(r.deep_view() =~= r_before.push(e@));
                        assert(r.deep_view() + spec_entries_from(nv, i + 1) =~= r_before
                            + spec_entries_from(nv, i as int));
                    }
                } else {
                    proof {
                        assert(nv[i as int].name != "entry"@);
                        assert(spec_entries_from(nv, i as int) == spec_entries_from(nv, i + 1));
                    }
                }
                i = i + 1;
            }
            proof {
                assert(spec_entries_from(nv, i as int) =~= Seq::<EntryV>::empty());
                assert(r.deep_view() =~= spec_entries(nv));
            }
            r
        },
    }
}

} // verus!
