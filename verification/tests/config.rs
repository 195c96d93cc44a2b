use mim::{Category, Feed, Mim, Source};

fn feed(id: &str, source: Source, category: Category, url: Option<&str>) -> Feed {
    Feed { id: id.to_string(), source, category, url: url.map(|u| u.to_string()) }
}

fn assert_feeds_eq(a: &Mim, b: &Mim) {
    assert_eq!(a.feeds.len(), b.feeds.len());
    for (x, y) in a.feeds.iter().zip(b.feeds.iter()) {
        assert_eq!(x.id, y.id);
        assert_eq!(x.source, y.source);
        assert_eq!(x.category, y.category);
        assert_eq!(x.url, y.url);
    }
}

#[test]
fn config_round_trip_single_feed() {
    let mim = Mim { feeds: vec![feed("abc", Source::Youtube, Category::Music, None)] };
    let text = mim.to_config_string();
    let loaded = Mim::from_config_string(&text).expect("printed config must load");
    assert_feeds_eq(&mim, &loaded);
}

#[test]
fn config_round_trip_many_feeds() {
    let mim = Mim {
        feeds: vec![
            feed("@some channel", Source::Youtube, Category::Entertainment, None),
            feed("tech(nical) -- news", Source::RSS, Category::Technology, Some("https://t.example/rss?a=1 b")),
            feed("", Source::RSS, Category::Music, Some("")),
        ],
    };
    let text = mim.to_config_string();
    let loaded = Mim::from_config_string(&text).expect("printed config must load");
    assert_feeds_eq(&mim, &loaded);
}

#[test]
fn config_round_trip_empty() {
    let mim = Mim { feeds: vec![] };
    let text = mim.to_config_string();
    assert_eq!(text, "[]");
    let loaded = Mim::from_config_string(&text).expect("printed config must load");
    assert!(loaded.feeds.is_empty());
}

#[test]
fn config_text_has_expected_shape() {
    let mim = Mim {
        feeds: vec![
            feed("abc", Source::Youtube, Category::Music, None),
            feed("d", Source::RSS, Category::Entertainment, Some("https://x/f")),
        ],
    };
    assert_eq!(
        mim.to_config_string(),
        "[(\"abc\" youtube music -)(\"d\" rss entertainment \"https://x/f\")]"
    );
}

#[test]
fn malformed_config_is_rejected() {
    assert!(Mim::from_config_string("").is_none());
    assert!(Mim::from_config_string("nonsense").is_none());
    assert!(Mim::from_config_string("[").is_none());
    assert!(Mim::from_config_string("[(").is_none());
    assert!(Mim::from_config_string("[]trailing").is_none());
    assert!(Mim::from_config_string("[(\"a\" sorcery music -)]").is_none());
    assert!(Mim::from_config_string("[(\"a\" youtube loudness -)]").is_none());
    assert!(Mim::from_config_string("[(\"a\" youtube music )]").is_none());
}

#[test]
fn source_token_round_trip() {
    for s in [Source::RSS, Source::Youtube] {
        assert_eq!(Source::from_token(&s.token()), Some(s));
    }
    assert_eq!(Source::from_token("rss"), Some(Source::RSS));
    assert_eq!(Source::from_token("youtube"), Some(Source::Youtube));
    assert_eq!(Source::from_token("Youtube"), None);
    assert_eq!(Source::from_token("pigeon"), None);
}

#[test]
fn category_token_round_trip() {
    for c in [Category::Entertainment, Category::Music, Category::Technology] {
        assert_eq!(Category::from_token(&c.token()), Some(c));
    }
    assert_eq!(Category::from_token("entertainment"), Some(Category::Entertainment));
    assert_eq!(Category::from_token("music"), Some(Category::Music));
    assert_eq!(Category::from_token("technology"), Some(Category::Technology));
    assert_eq!(Category::from_token("cooking"), None);
}

#[test]
fn display_names() {
    assert_eq!(Source::RSS.name(), "RSS");
    assert_eq!(Source::Youtube.name(), "Youtube");
    assert_eq!(Category::Entertainment.name(), "Entertainment");
    assert_eq!(Category::Music.name(), "Music");
    assert_eq!(Category::Technology.name(), "Technology");
}

#[test]
fn defaults_match_fresh_values() {
    let f = Feed::default();
    assert_eq!(f.id, "");
    assert_eq!(f.source, Source::RSS);
    assert_eq!(f.category, Category::Entertainment);
    assert_eq!(f.url, None);
    let m = Mim::default();
    assert!(m.feeds.is_empty());
}
