//! An XML document as a flat list of nodes in document order, as far as the
//! decoding of WebDAV answers reads it. The parsing itself is roxmltree's.
use vstd::prelude::*;

use crate::errors::{ErrorKind, Errors};

verus! {

/// One node of a parsed document. The nodes of a document stand in document
/// order, so that a node and all that is nested in it are neighbours.
#[derive(Debug)]
pub struct XmlNode {
    /// Whether the node is an element (and not text, a comment or the like)
    pub is_element: bool,
    /// The tag's name without its namespace; empty unless the node is an element
    pub name: String,
    /// For an element the text that it begins with, for text the text itself
    pub text: Option<String>,
    /// Position of the node that this one is nested in directly
    pub parent: Option<usize>,
    /// How many nodes the node and all that is nested in it make up
    pub span: usize,
}

/// What an [`XmlNode`] holds.
pub struct XmlNodeView {
    pub is_element: bool,
    pub name: Seq<char>,
    pub text: Option<Seq<char>>,
    pub parent: Option<usize>,
    pub span: usize,
}

impl View for XmlNode {
    type V = XmlNodeView;

    open spec fn view(&self) -> XmlNodeView {
        XmlNodeView {
            is_element: self.is_element,
            name: self.name@,
            text: match self.text {
                Some(t) => Some(t@),
                None => None,
            },
            parent: self.parent,
            span: self.span,
        }
    }
}

/// What a list of nodes holds.
pub open spec fn node_views(nodes: Seq<XmlNode>) -> Seq<XmlNodeView> {
    nodes.map_values(|n: XmlNode| n@)
}

/// The nodes that roxmltree reads out of `text`, taken in document order
/// from the document's root on, or `None` where it refuses the text.
pub uninterp spec fn xml_document(text: Seq<char>) -> Option<Seq<XmlNodeView>>;

/// `roxmltree::Document::parse`, and then `Document::descendants`, which
/// walks all nodes in document order. Each node is handed out as what
/// `Node::is_element`, `Node::tag_name` (its local name), `Node::text`,
/// `Node::parent` (its position) and the length of `Node::descendants` say of
/// it. The contract claims only that the outcome depends on the text alone.
#[verifier::external_body]
fn parse_document(text: &str) -> (r: Result<Vec<XmlNode>, roxmltree::Error>)
    ensures
        match r {
            Ok(nodes) => xml_document(text@) == Some(node_views(nodes@)),
            Err(_) => xml_document(text@) is None,
        },
{
    let doc = roxmltree::Document::parse(text)?;
    Ok(doc.descendants().map(|n| XmlNode {
        is_element: n.is_element(),
        name: n.tag_name().name().to_string(),
        text: n.text().map(|t| t.to_string()),
        parent: n.parent().map(|p| p.id().get_usize()),
        span: n.descendants().len(),
    }).collect())
}

/// What a list of nodes, or the refusal to read one, holds.
pub open spec fn document(text: Seq<char>) -> Result<Seq<XmlNodeView>, ErrorKind> {
    match xml_document(text) {
        Some(nodes) => Ok(nodes),
        None => Err(ErrorKind::XMLDocumentParseError),
    }
}

/// Reads an XML document into its nodes in document order, the root of the
/// document first.
pub fn read_document(text: &str) -> (r: Result<Vec<XmlNode>, Errors>)
    ensures
        match r {
            Ok(nodes) => document(text@) == Ok::<_, ErrorKind>(node_views(nodes@)),
            Err(e) => document(text@) == Err::<Seq<XmlNodeView>, _>(e@),
        },
{
    match parse_document(text) {
        Ok(nodes) => Ok(nodes),
        Err(e) => Err(Errors::XMLDocumentParseError(e)),
    }
}

} // verus!
