//! The schema front end: the nodes of a schema document, and the tokenizer
//! that turns the bytes of a document into nodes.

use vstd::prelude::*;
use xml::reader::EventReader;
use xml::reader::XmlEvent::{
    CData, Characters, Comment, EndDocument, EndElement, ProcessingInstruction, StartDocument,
    StartElement, Whitespace,
};
use crate::text::str_eq;

verus! {

/// One attribute of an element.
#[derive(Clone, Debug, PartialEq, Eq)]
pub struct Attribute {
    pub name: String,
    pub value: String,
}

/// One node of a schema document, in document order.
#[derive(Clone, Debug, PartialEq, Eq)]
pub enum Node {
    StartDocument,
    EndDocument,
    ProcessingInstruction,
    StartElement { name: String, attributes: Vec<Attribute> },
    EndElement { name: String },
    CData,
    Comment,
    Characters(String),
    Whitespace,
    /// The tokenizer found the document ill-formed at this point.
    Malformed,
}

/// Whether `node` opens an element called `tag`.
pub open spec fn is_start(node: Node, tag: Seq<char>) -> bool {
    node matches Node::StartElement { name, .. } && name@ == tag
}

/// Whether `node` closes an element called `tag`.
pub open spec fn is_end(node: Node, tag: Seq<char>) -> bool {
    node matches Node::EndElement { name } && name@ == tag
}

/// The value of the first attribute called `name`, if there is one.
pub open spec fn attribute_value(attributes: Seq<Attribute>, name: Seq<char>) -> Option<Seq<char>>
    decreases attributes.len(),
{
    if attributes.len() == 0 {
        None
    } else if attributes[0].name@ == name {
        Some(attributes[0].value@)
    } else {
        attribute_value(attributes.drop_first(), name)
    }
}

/// Looks up the value of the first attribute called `name`.
pub fn get_attribute(a: &[Attribute], name: &str) -> (value: Option<String>)
    ensures
        value is Some <==> attribute_value(a@, name@) is Some,
        value is Some ==> value->0@ == attribute_value(a@, name@)->0,
{
    let mut i: usize = 0;
    assert(a@.skip(0) =~= a@);
    while i < a.len()
        invariant
            i <= a@.len(),
            attribute_value(a@, name@) == attribute_value(a@.skip(i as int), name@),
        decreases a@.len() - i,
    {
        assert(a@.skip(i as int).drop_first() =~= a@.skip(i + 1));
        if str_eq(a[i].name.as_str(), name) {
            return Some(a[i].value.clone());
        }
        i += 1;
    }
    None
}

/// Whether `node` opens an element called `tag`.
pub fn opens(node: &Node, tag: &str) -> (yes: bool)
    ensures
        yes == is_start(*node, tag@),
{
    match node {
        Node::StartElement { name, .. } => str_eq(name.as_str(), tag),
        _ => false,
    }
}

/// Whether `node` closes an element called `tag`.
pub fn closes(node: &Node, tag: &str) -> (yes: bool)
    ensures
        yes == is_end(*node, tag@),
{
    match node {
        Node::EndElement { name } => str_eq(name.as_str(), tag),
        _ => false,
    }
}

/// The nodes of the document that `input` holds, as the tokenizer of the
/// `xml` crate reads them: one node for each of its events, in document
/// order, up to and including the end of the document, or up to the first
/// error, which gives `Node::Malformed`.
pub uninterp spec fn document_nodes(input: Seq<u8>) -> Seq<Node>;

/// Runs `xml::reader::EventReader::new` over `input` and appends one node to
/// `nodes` for each item that the reader's iterator yields: the iterator
/// stops after the end of the document or the first error. Each variant of
/// `xml::reader::XmlEvent` gives the node of its name, with the local name
/// of an element, the local name and value of each attribute, and character
/// data moved over; an error gives `Node::Malformed`. What the reader yields
/// depends on the bytes alone, so the contract gives the appended nodes the
/// name `document_nodes(input@)` and claims nothing more of them. The
/// tokenizer warns that it may panic and names no input on which it does;
/// its reader keeps only assertions on its own state.
#[verifier::external_body]
fn read_nodes(input: &[u8], nodes: &mut Vec<Node>)
    ensures
        final(nodes)@ == old(nodes)@ + document_nodes(input@),
{
    for event in EventReader::new(input) {
        nodes.push(match event {
            Ok(StartElement { name, attributes, .. }) => Node::StartElement { name: name.local_name, attributes: attributes.into_iter().map(|a| Attribute { name: a.name.local_name, value: a.value }).collect() },
            Ok(EndElement { name }) => Node::EndElement { name: name.local_name },
            Ok(Characters(text)) => Node::Characters(text),
            Ok(StartDocument { .. }) => Node::StartDocument,
            Ok(EndDocument) => Node::EndDocument,
            Ok(ProcessingInstruction { .. }) => Node::ProcessingInstruction,
            Ok(CData(_)) => Node::CData,
            Ok(Comment(_)) => Node::Comment,
            Ok(Whitespace(_)) => Node::Whitespace,
            Err(_) => Node::Malformed,
        });
    }
}

/// Tokenizes a schema document: the nodes of the document, in document
/// order. Ill-formed input ends them with `Node::Malformed`.
pub fn tokenize(input: &[u8]) -> (nodes: Vec<Node>)
    ensures
        nodes@ == document_nodes(input@),
{
    let mut nodes: Vec<Node> = Vec::new();
    read_nodes(input, &mut nodes);
    assert(nodes@ =~= document_nodes(input@));
    nodes
}

} // verus!
