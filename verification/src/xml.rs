//! XML documents as a flat list of nodes in document order, read by `roxmltree`.
use vstd::prelude::*;
use crate::text::{chars_of, same_text, string_of, trim, trim_chars};

verus! {

/// An attribute of an element.
pub struct XmlAttribute {
    /// The local name.
    pub name: String,
    /// Whether the attribute's name has a namespace.
    pub namespaced: bool,
    pub value: String,
}

/// A node of a parsed document. The nodes of a document stand in document
/// order, the root first, and `children` holds positions in that list.
pub struct XmlNode {
    pub element: bool,
    /// The local tag name of an element; empty for other nodes.
    pub name: String,
    pub attributes: Vec<XmlAttribute>,
    /// The text that `roxmltree::Node::text` gives: an element's first child
    /// when that is text, the text of a text or comment node.
    pub text: Option<String>,
    pub children: Vec<usize>,
}

/// The nodes `roxmltree` reads out of `text`, or the text of its error.
pub uninterp spec fn xml_document(text: Seq<char>) -> Result<Seq<XmlNode>, Seq<char>>;

/// Parses `text` with `roxmltree::Document::parse` and lists the document's
/// descendants in document order (the root first), each with its tag name,
/// attributes, text and the positions of its children. The contract names
/// the outcome and claims no more of it.
#[verifier::external_body]
pub(crate) fn parse_xml(text: &str) -> (r: Result<Vec<XmlNode>, String>)
    ensures
        match r {
            Ok(nodes) => xml_document(text@) == Ok::<Seq<XmlNode>, Seq<char>>(nodes@),
            Err(e) => xml_document(text@) == Err::<Seq<XmlNode>, Seq<char>>(e@),
        },
{
    let doc = roxmltree::Document::parse(text).map_err(|err| err.to_string())?;
    Ok(doc.descendants().map(|n| XmlNode {
        element: n.is_element(),
        name: n.tag_name().name().to_string(),
        attributes: n.attributes().map(|a| XmlAttribute {
            name: a.name().to_string(),
            namespaced: a.namespace().is_some(),
            value: a.value().to_string(),
        }).collect(),
        text: n.text().map(|t| t.to_string()),
        children: n.children().map(|c| c.id().get_usize()).collect(),
    }).collect())
}

/// Whether the node is an element with local name `tag`.
pub open spec fn has_tag(node: XmlNode, tag: Seq<char>) -> bool {
    node.element && node.name@ == tag
}

pub fn node_has_tag(node: &XmlNode, tag: &str) -> (r: bool)
    ensures
        r == has_tag(*node, tag@),
{
    node.element && same_text(node.name.as_str(), tag)
}

/// The value of the first attribute without namespace named `name`.
pub open spec fn attr_in(attrs: Seq<XmlAttribute>, name: Seq<char>) -> Option<Seq<char>>
    decreases attrs.len(),
{
    if attrs.len() == 0 {
        None
    } else if !attrs[0].namespaced && attrs[0].name@ == name {
        Some(attrs[0].value@)
    } else {
        attr_in(attrs.drop_first(), name)
    }
}

/// `roxmltree::Node::attribute` with a plain name.
pub open spec fn attribute_of(node: XmlNode, name: Seq<char>) -> Option<Seq<char>> {
    attr_in(node.attributes@, name)
}

pub fn node_attribute(node: &XmlNode, name: &str) -> (r: Option<String>)
    ensures
        match r {
            Some(v) => attribute_of(*node, name@) == Some(v@),
            None => attribute_of(*node, name@) is None,
        },
{
    let attrs = &node.attributes;
    let mut k: usize = 0;
    assert(attrs@.skip(0) == attrs@);
    while k < attrs.len()
        invariant
            k <= attrs@.len(),
            attrs@ == node.attributes@,
            attr_in(attrs@, name@) == attr_in(attrs@.skip(k as int), name@),
        decreases attrs@.len() - k,
    {
        assert(attrs@.skip(k as int)[0] == attrs@[k as int]);
        assert(attrs@.skip(k as int).drop_first() == attrs@.skip(k + 1));
        let a = &attrs[k];
        if !a.namespaced && same_text(a.name.as_str(), name) {
            return Some(a.value.clone());
        }
        k = k + 1;
    }
    None
}

/// The position of the first child, among `children`, that is an element
/// named `tag`; positions outside the document count as no match.
pub open spec fn first_child_in(nodes: Seq<XmlNode>, children: Seq<usize>, tag: Seq<char>) -> Option<
    int,
>
    decreases children.len(),
{
    if children.len() == 0 {
        None
    } else if children[0] < nodes.len() && has_tag(nodes[children[0] as int], tag) {
        Some(children[0] as int)
    } else {
        first_child_in(nodes, children.drop_first(), tag)
    }
}

/// The first child of node `at` that is an element named `tag`.
pub open spec fn child_of(nodes: Seq<XmlNode>, at: int, tag: Seq<char>) -> Option<int> {
    first_child_in(nodes, nodes[at].children@, tag)
}

pub proof fn lemma_first_child_in_range(nodes: Seq<XmlNode>, children: Seq<usize>, tag: Seq<char>)
    ensures
        first_child_in(nodes, children, tag) matches Some(c) ==> 0 <= c < nodes.len(),
    decreases children.len(),
{
    if children.len() > 0 {
        lemma_first_child_in_range(nodes, children.drop_first(), tag);
    }
}

pub fn child(nodes: &Vec<XmlNode>, at: usize, tag: &str) -> (r: Option<usize>)
    requires
        at < nodes@.len(),
    ensures
        match r {
            Some(c) => child_of(nodes@, at as int, tag@) == Some(c as int) && c < nodes@.len(),
            None => child_of(nodes@, at as int, tag@) is None,
        },
{
    let children = &nodes[at].children;
    let mut k: usize = 0;
    assert(children@.skip(0) == children@);
    while k < children.len()
        invariant
            k <= children@.len(),
            children@ == nodes@[at as int].children@,
            first_child_in(nodes@, children@, tag@) == first_child_in(
                nodes@,
                children@.skip(k as int),
                tag@,
            ),
        decreases children@.len() - k,
    {
        assert(children@.skip(k as int)[0] == children@[k as int]);
        assert(children@.skip(k as int).drop_first() == children@.skip(k + 1));
        let c = children[k];
        if c < nodes.len() && node_has_tag(&nodes[c], tag) {
            return Some(c);
        }
        k = k + 1;
    }
    None
}

/// The trimmed, non-empty text of node `at`'s first child named `tag`.
pub open spec fn child_text_of(nodes: Seq<XmlNode>, at: int, tag: Seq<char>) -> Option<Seq<char>> {
    match child_of(nodes, at, tag) {
        None => None,
        Some(c) => match nodes[c].text {
            None => None,
            Some(t) => if trim(t@).len() == 0 {
                None
            } else {
                Some(trim(t@))
            },
        },
    }
}

pub fn child_text(nodes: &Vec<XmlNode>, at: usize, tag: &str) -> (r: Option<String>)
    requires
        at < nodes@.len(),
    ensures
        match r {
            Some(v) => child_text_of(nodes@, at as int, tag@) == Some(v@),
            None => child_text_of(nodes@, at as int, tag@) is None,
        },
{
    match child(nodes, at, tag) {
        None => None,
        Some(c) => match &nodes[c].text {
            None => None,
            Some(t) => {
                let v = chars_of(t.as_str());
                let w = trim_chars(&v);
                if w.len() == 0 {
                    None
                } else {
                    Some(string_of(w.as_slice()))
                }
            },
        },
    }
}

} // verus!
