use mim::{Category, Feed, Source, Youtube};

fn youtube_feed(id: &str, url: Option<&str>) -> Feed {
    Feed {
        id: id.to_string(),
        source: Source::Youtube,
        category: Category::Entertainment,
        url: url.map(|u| u.to_string()),
    }
}

#[test]
fn explicit_url_wins_verbatim() {
    let feed = youtube_feed("@whoever", Some("https://explicit.example/feed.xml"));
    // No page is requested, so resolution never touches the network.
    assert_eq!(feed.page_request(), None);
    assert_eq!(feed.resolve_url(None).as_deref(), Some("https://explicit.example/feed.xml"));
    // Even a page that declares another URL changes nothing.
    let page = "<html><head><link title=\"RSS\" href=\"https://other.example/f.xml\"></head></html>";
    assert_eq!(feed.resolve_url(Some(page)).as_deref(), Some("https://explicit.example/feed.xml"));
}

#[test]
fn explicit_url_wins_for_rss_source_too() {
    let feed = Feed {
        id: "whatever".to_string(),
        source: Source::RSS,
        category: Category::Music,
        url: Some("https://direct.example/rss".to_string()),
    };
    assert_eq!(feed.page_request(), None);
    assert_eq!(feed.resolve_url(None).as_deref(), Some("https://direct.example/rss"));
}

#[test]
fn youtube_page_request_appends_id_to_host() {
    let feed = youtube_feed("@abc", None);
    assert_eq!(feed.page_request().as_deref(), Some("https://www.youtube.com/@abc"));
    assert_eq!(Youtube::channel_url("@abc"), "https://www.youtube.com/@abc");
}

#[test]
fn rss_source_is_unresolved() {
    let feed = Feed {
        id: "x".to_string(),
        source: Source::RSS,
        category: Category::Technology,
        url: None,
    };
    assert_eq!(feed.page_request(), None);
    assert_eq!(feed.resolve_url(None), None);
}

#[test]
fn channel_page_with_rss_link_resolves() {
    let page = "<html><head>\
                <link rel=\"alternate\" title=\"RSS\" href=\"https://x/feed.xml\">\
                </head><body></body></html>";
    let feed = youtube_feed("@abc", None);
    assert_eq!(feed.resolve_url(Some(page)).as_deref(), Some("https://x/feed.xml"));
    assert_eq!(Youtube::get_rss_url(page).as_deref(), Some("https://x/feed.xml"));
}

#[test]
fn first_matching_link_wins() {
    let page = "<html><head>\
                <link title=\"Atom\" href=\"https://x/atom.xml\">\
                <link title=\"RSS\" href=\"https://x/first.xml\">\
                <link title=\"RSS\" href=\"https://x/second.xml\">\
                </head></html>";
    assert_eq!(Youtube::get_rss_url(page).as_deref(), Some("https://x/first.xml"));
}

#[test]
fn channel_page_without_matching_link_is_unresolved() {
    let page = "<html><head>\
                <link rel=\"stylesheet\" href=\"style.css\">\
                <link title=\"Atom\" href=\"https://x/atom.xml\">\
                </head><body><p>RSS</p></body></html>";
    let feed = youtube_feed("@abc", None);
    assert_eq!(feed.resolve_url(Some(page)), None);
    assert_eq!(Youtube::get_rss_url(page), None);
    // And an unresolved feed yields no entries, without raising.
    assert!(feed.get_entries(None).is_empty());
}

#[test]
fn matching_link_without_href_gives_empty_url() {
    let page = "<html><head><link title=\"RSS\"></head></html>";
    assert_eq!(Youtube::get_rss_url(page).as_deref(), Some(""));
}

#[test]
fn missing_page_leaves_youtube_unresolved() {
    let feed = youtube_feed("@abc", None);
    assert_eq!(feed.resolve_url(None), None);
}

#[test]
fn get_entries_parses_fetched_document() {
    let feed = youtube_feed("@abc", None);
    let doc = "<feed><entry><id>a</id><title>t</title></entry></feed>";
    let entries = feed.get_entries(Some(doc));
    assert_eq!(entries.len(), 1);
    assert_eq!(entries[0].id, "a");
    let same = Youtube::get_rss_entries(doc);
    assert_eq!(entries, same);
}

#[test]
fn get_entries_of_malformed_document_is_empty() {
    let feed = youtube_feed("@abc", None);
    assert!(feed.get_entries(Some("<feed><entry>")).is_empty());
}
