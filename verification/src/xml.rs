use vstd::prelude::*;

verus! {

/// One node of a parsed XML document, in document order.
///
/// `name` is the element's tag name (empty for non-element nodes such as
/// text or comments), `text` is the node's text content (for an element,
/// the text of its first child when that child is a text node), `attrs`
/// are the attributes in document order, and `depth` is the number of
/// nodes on the path from the document root to this node, the node itself
/// included. The descendants of the node at index `i` are exactly the
/// nodes that follow it up to, but not including, the first node whose
/// depth is at most `depth[i]`.
pub struct XmlNode {
    pub name: String,
    pub text: Option<String>,
    pub attrs: Vec<(String, String)>,
    pub depth: usize,
}

/// The mathematical value of an `XmlNode`.
pub ghost struct NodeV {
    pub name: Seq<char>,
    pub text: Option<Seq<char>>,
    pub attrs: Seq<(Seq<char>, Seq<char>)>,
    pub depth: nat,
}

impl View for XmlNode {
    type V = NodeV;

    open spec fn view(&self) -> NodeV {
        NodeV {
            name: self.name@,
            text: self.text.deep_view(),
            attrs: self.attrs.deep_view(),
            depth: self.depth as nat,
        }
    }
}

impl DeepView for XmlNode {
    type V = NodeV;

    open spec fn deep_view(&self) -> NodeV {
        self.view()
    }
}

/// The nodes of the document that `text` denotes, in document order,
/// or `None` when `text` is not well-formed XML.
pub uninterp spec fn xml_doc_of(text: Seq<char>) -> Option<Seq<NodeV>>;

/// Relies on `roxmltree::Document::parse` and the node accessors
/// `tag_name`, `text`, `attributes` and `ancestors`: the returned vector
/// holds one entry per node of the document, in document order, with the
/// node's tag name, text, attributes, and depth (its number of ancestors,
/// itself included). Parsing fails exactly on input that is not
/// well-formed XML.
#[verifier::external_body]
fn parse_xml(text: &str) -> (r: Option<Vec<XmlNode>>)
    ensures
        r is Some <==> xml_doc_of(text@) is Some,
        r matches Some(v) ==> xml_doc_of(text@) == Some(v.deep_view()),
{
    let doc = match roxmltree::Document::parse(text) {
        Ok(d) => d,
        Err(_) => return None,
    };
    Some(doc.descendants().map(|n| XmlNode {
        name: n.tag_name().name().to_owned(),
        text: n.text().map(|t| t.to_owned()),
        attrs: n.attributes().map(|a| (a.name().to_owned(), a.value().to_owned())).collect(),
        depth: n.ancestors().count(),
    }).collect())
}

/// The nodes of `text` when it parses, and nothing when it does not.
pub fn parse_document(text: &str) -> (r: Option<Vec<XmlNode>>)
    ensures
        r is Some <==> xml_doc_of(text@) is Some,
        r matches Some(v) ==> xml_doc_of(text@) == Some(v.deep_view()),
{
    parse_xml(text)
}

/// The value of the first attribute named `name`, or the empty string
/// when no attribute carries that name.
pub open spec fn spec_attr_lookup(attrs: Seq<(Seq<char>, Seq<char>)>, name: Seq<char>) -> Seq<
    char,
>
    decreases attrs.len(),
{
    if attrs.len() == 0 {
        Seq::<char>::empty()
    } else if attrs[0].0 == name {
        attrs[0].1
    } else {
        spec_attr_lookup(attrs.skip(1), name)
    }
}

/// The text of a node that may be absent: empty when the node is absent
/// or has no text.
pub open spec fn spec_text_of(node: Option<NodeV>) -> Seq<char> {
    match node {
        Some(n) => match n.text {
            Some(t) => t,
            None => Seq::<char>::empty(),
        },
        None => Seq::<char>::empty(),
    }
}

/// The named attribute of a node that may be absent: empty when the node
/// is absent or the attribute is missing.
pub open spec fn spec_attr_of(node: Option<NodeV>, name: Seq<char>) -> Seq<char> {
    match node {
        Some(n) => spec_attr_lookup(n.attrs, name),
        None => Seq::<char>::empty(),
    }
}

/// Safe extraction of leaf values from XML nodes that may be absent:
/// absence degrades to the empty string, never to an error.
pub struct NodeManipulation;

impl NodeManipulation {
    /// The node's text content, or the empty string when the node is
    /// absent or has no text.
    pub fn get_text_from_node(node: Option<&XmlNode>) -> (r: String)
        ensures
            r@ == spec_text_of(node.deep_view()),
    {
        if let Some(n) = node {
            if let Some(t) = &n.text {
                return t.clone();
            }
        }
        String::new()
    }

    /// The value of the node's attribute named `attr`, or the empty
    /// string when the node is absent or carries no such attribute.
    pub fn get_attr_from_node(node: Option<&XmlNode>, attr: String) -> (r: String)
        ensures
            r@ == spec_attr_of(node.deep_view(), attr@),
    {
        if let Some(n) = node {
            proof {
                assert(n.attrs.deep_view().skip(0) =~= n.attrs.deep_view());
            }
            let mut i: usize = 0;
            while i < n.attrs.len()
                invariant
                    node == Some(n),
                    0 <= i <= n.attrs@.len(),
                    spec_attr_lookup(n.attrs.deep_view(), attr@) == spec_attr_lookup(
                        n.attrs.deep_view().skip(i as int),
                        attr@,
                    ),
                decreases n.attrs@.len() - i,
            {
                if crate::str_eq(n.attrs[i].0.as_str(), attr.as_str()) {
                    proof {
                        let rest = n.attrs.deep_view().skip(i as int);
                        assert(rest[0] == n.attrs@[i as int].deep_view());
                        assert(rest[0].0 == attr@);
                        assert(spec_attr_lookup(rest, attr@) == rest[0].1);
                    }
                    return n.attrs[i].1.clone();
                }
                assert(n.attrs.deep_view().skip(i as int).skip(1) =~= n.attrs.deep_view().skip(
                    i as int + 1,
                ));
                i = i + 1;
            }
            assert(n.attrs.deep_view().skip(i as int).len() == 0);
        }
        String::new()
    }
}

} // verus!
