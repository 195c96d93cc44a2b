use mim::NodeManipulation;
use mim::xml::parse_document;

#[test]
fn malformed_document_does_not_parse() {
    assert!(parse_document("<a><b></a>").is_none());
    assert!(parse_document("").is_none());
}

#[test]
fn nodes_come_in_document_order() {
    let nodes = parse_document("<a><b/><c><d/></c></a>").expect("well-formed");
    let names: Vec<&str> = nodes.iter().map(|n| n.name.as_str()).collect();
    // The document root comes first and is no element, so its name is empty.
    assert_eq!(names, vec!["", "a", "b", "c", "d"]);
    // Depth grows by one from a node to its children.
    assert!(nodes[1].depth == nodes[2].depth - 1);
    assert!(nodes[3].depth == nodes[4].depth - 1);
    assert_eq!(nodes[2].depth, nodes[3].depth);
}

#[test]
fn text_of_node_degrades_to_empty() {
    let nodes = parse_document("<a><b>hello</b><c><d/></c></a>").expect("well-formed");
    let b = nodes.iter().find(|n| n.name == "b").unwrap();
    assert_eq!(NodeManipulation::get_text_from_node(Some(b)), "hello");
    // An element whose first child is no text node has no text.
    let c = nodes.iter().find(|n| n.name == "c").unwrap();
    assert_eq!(NodeManipulation::get_text_from_node(Some(c)), "");
    // An absent node has no text either.
    assert_eq!(NodeManipulation::get_text_from_node(None), "");
}

#[test]
fn attr_of_node_degrades_to_empty() {
    let nodes = parse_document("<a href=\"x\" title=\"t\"/>").expect("well-formed");
    let a = nodes.iter().find(|n| n.name == "a").unwrap();
    assert_eq!(NodeManipulation::get_attr_from_node(Some(a), "href".to_string()), "x");
    assert_eq!(NodeManipulation::get_attr_from_node(Some(a), "title".to_string()), "t");
    assert_eq!(NodeManipulation::get_attr_from_node(Some(a), "rel".to_string()), "");
    assert_eq!(NodeManipulation::get_attr_from_node(None, "href".to_string()), "");
}
