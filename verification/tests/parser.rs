use mim::{Timestamp, parse_entries};

#[test]
fn malformed_xml_yields_no_entries() {
    assert!(parse_entries("<feed><entry></feed>").is_empty());
    assert!(parse_entries("not xml at all").is_empty());
    assert!(parse_entries("").is_empty());
    assert!(parse_entries("<a><b></a></b>").is_empty());
}

#[test]
fn well_formed_without_entries_is_empty() {
    assert!(parse_entries("<feed><title>nothing here</title></feed>").is_empty());
}

#[test]
fn single_entry_all_fields() {
    let doc = "<feed xmlns:media=\"http://search.yahoo.com/mrss/\">\
               <entry>\
               <id>yt:video:abc</id>\
               <title>First video</title>\
               <link href=\"https://example.com/v/abc\"/>\
               <published>2023-05-01T10:00:00+00:00</published>\
               <media:group>\
               <media:thumbnail url=\"https://img.example.com/abc.jpg\"/>\
               </media:group>\
               </entry>\
               </feed>";
    let entries = parse_entries(doc);
    assert_eq!(entries.len(), 1);
    let e = &entries[0];
    assert_eq!(e.id, "yt:video:abc");
    assert_eq!(e.title, "First video");
    assert_eq!(e.link, "https://example.com/v/abc");
    assert_eq!(
        e.published,
        Some(Timestamp { epoch_secs: 1682935200, subsec_nanos: 0, offset_secs: 0 })
    );
    assert_eq!(e.thumbnail.as_deref(), Some("https://img.example.com/abc.jpg"));
}

#[test]
fn published_matches_chrono() {
    let doc = "<feed><entry><published>2023-05-01T10:00:00+02:00</published></entry></feed>";
    let entries = parse_entries(doc);
    assert_eq!(entries.len(), 1);
    let dt = chrono::DateTime::parse_from_rfc3339("2023-05-01T10:00:00+02:00").unwrap();
    assert_eq!(
        entries[0].published,
        Some(Timestamp {
            epoch_secs: dt.timestamp(),
            subsec_nanos: dt.timestamp_subsec_nanos(),
            offset_secs: dt.offset().local_minus_utc(),
        })
    );
    assert_eq!(entries[0].published.unwrap().offset_secs, 7200);
}

#[test]
fn missing_published_is_absent() {
    let doc = "<feed><entry><id>a</id><title>t</title></entry></feed>";
    let entries = parse_entries(doc);
    assert_eq!(entries.len(), 1);
    assert_eq!(entries[0].published, None);
}

#[test]
fn empty_published_is_absent() {
    let doc = "<feed><entry><published></published></entry></feed>";
    let entries = parse_entries(doc);
    assert_eq!(entries.len(), 1);
    assert_eq!(entries[0].published, None);
}

#[test]
fn invalid_published_is_absent() {
    let doc = "<feed><entry><published>yesterday at noon</published></entry></feed>";
    let entries = parse_entries(doc);
    assert_eq!(entries.len(), 1);
    assert_eq!(entries[0].published, None);
}

#[test]
fn link_comes_from_href_not_text() {
    let doc = "<feed><entry>\
               <link href=\"https://example.com/v/abc\">some text content</link>\
               </entry></feed>";
    let entries = parse_entries(doc);
    assert_eq!(entries.len(), 1);
    assert_eq!(entries[0].link, "https://example.com/v/abc");
}

#[test]
fn link_without_href_is_empty() {
    let doc = "<feed><entry><link>only text</link></entry></feed>";
    let entries = parse_entries(doc);
    assert_eq!(entries.len(), 1);
    assert_eq!(entries[0].link, "");
}

#[test]
fn entries_keep_document_order() {
    // B is published earlier than A; order must stay A then B.
    let doc = "<feed>\
               <entry><id>A</id><published>2024-06-01T00:00:00+00:00</published></entry>\
               <entry><id>B</id><published>2020-01-01T00:00:00+00:00</published></entry>\
               </feed>";
    let entries = parse_entries(doc);
    assert_eq!(entries.len(), 2);
    assert_eq!(entries[0].id, "A");
    assert_eq!(entries[1].id, "B");
}

#[test]
fn fields_do_not_leak_between_entries() {
    let doc = "<feed>\
               <entry><id>A</id><title>first</title>\
               <published>2023-05-01T10:00:00+00:00</published></entry>\
               <entry><id>B</id></entry>\
               </feed>";
    let entries = parse_entries(doc);
    assert_eq!(entries.len(), 2);
    assert_eq!(entries[0].id, "A");
    assert_eq!(entries[0].title, "first");
    assert!(entries[0].published.is_some());
    assert_eq!(entries[1].id, "B");
    assert_eq!(entries[1].title, "");
    assert_eq!(entries[1].published, None);
    assert_eq!(entries[1].thumbnail, None);
}

#[test]
fn entry_with_no_children_degrades_to_empty() {
    let doc = "<feed><entry/></feed>";
    let entries = parse_entries(doc);
    assert_eq!(entries.len(), 1);
    assert_eq!(entries[0].id, "");
    assert_eq!(entries[0].title, "");
    assert_eq!(entries[0].link, "");
    assert_eq!(entries[0].published, None);
    assert_eq!(entries[0].thumbnail, None);
}

#[test]
fn group_without_thumbnail_gives_empty_thumbnail() {
    let doc = "<feed><entry><group><other/></group></entry></feed>";
    let entries = parse_entries(doc);
    assert_eq!(entries.len(), 1);
    assert_eq!(entries[0].thumbnail.as_deref(), Some(""));
}

#[test]
fn unrecognized_tags_are_ignored() {
    let doc = "<feed><entry>\
               <id>a</id><author><name>someone</name></author><updated>x</updated>\
               </entry></feed>";
    let entries = parse_entries(doc);
    assert_eq!(entries.len(), 1);
    assert_eq!(entries[0].id, "a");
    assert_eq!(entries[0].title, "");
}

#[test]
fn later_duplicate_field_wins() {
    let doc = "<feed><entry><title>one</title><title>two</title></entry></feed>";
    let entries = parse_entries(doc);
    assert_eq!(entries.len(), 1);
    assert_eq!(entries[0].title, "two");
}

#[test]
fn parsing_is_idempotent() {
    let doc = "<feed><entry><id>a</id><title>t</title>\
               <published>2023-05-01T10:00:00+00:00</published></entry></feed>";
    let first = parse_entries(doc);
    let second = parse_entries(doc);
    assert_eq!(first, second);
}
