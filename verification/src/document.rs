//! The document tree that the ODT parser builds.

use vstd::prelude::*;
use crate::table::Table;

verus! {

/// The unit in which a paper size is given.
#[derive(Clone, Copy, PartialEq, Eq, Structural, Debug)]
pub enum DistanceUnit {
    Millimetres,
}

/// The size of the paper a document is laid out on.
#[derive(Clone, Copy, PartialEq, Eq, Structural, Debug)]
pub struct PaperSize {
    pub height: u32,
    pub width: u32,
    pub units: DistanceUnit,
}

impl PaperSize {
    pub fn new(height: u32, width: u32, units: DistanceUnit) -> (r: PaperSize)
        ensures
            r == (PaperSize { height, width, units }),
    {
        PaperSize { height, width, units }
    }
}

/// A run of text.
pub struct Text {
    pub content: Vec<u8>,
}

impl Text {
    pub fn new(content: Vec<u8>) -> (r: Text)
        ensures
            r.content@ == content@,
    {
        Text { content }
    }
}

/// An element of the document: its name, its style properties and its children.
pub struct Element {
    pub name: Vec<u8>,
    pub styles: Table<Vec<u8>>,
    pub children: Vec<Node>,
}

/// A node of the document tree.
pub enum Node {
    Element(Element),
    Text(Text),
}

/// A document: its title, its paper size and its top-level nodes.
pub struct Document {
    pub title: String,
    pub paper: PaperSize,
    pub children: Vec<Node>,
}

impl Document {
    pub fn new(title: String, paper: PaperSize) -> (r: Document)
        ensures
            r.title@ == title@,
            r.paper == paper,
            r.children@.len() == 0,
    {
        Document { title, paper, children: Vec::new() }
    }
}

pub struct ElementModel {
    pub name: Seq<u8>,
    pub styles: Map<Seq<u8>, Seq<u8>>,
    pub children: Seq<NodeModel>,
}

pub enum NodeModel {
    Element(ElementModel),
    Text(Seq<u8>),
}

/// The mathematical tree that a node stands for.
pub open spec fn node_model(n: Node) -> NodeModel
    decreases n,
{
    match n {
        Node::Element(e) => NodeModel::Element(
            ElementModel {
                name: e.name@,
                styles: e.styles@,
                children: e.children@.map(
                    |i: int, c: Node|
                        {
                            if 0 <= i < e.children@.len() && c == e.children@[i] {
                                proof {
                                    assert(decreases_to!(e.children => e.children@));
                                }
                                node_model(c)
                            } else {
                                NodeModel::Text(seq![])
                            }
                        },
                ),
            },
        ),
        Node::Text(t) => NodeModel::Text(t.content@),
    }
}

/// The mathematical tree that an element stands for.
pub open spec fn element_model(e: Element) -> ElementModel {
    match node_model(Node::Element(e)) {
        NodeModel::Element(m) => m,
        NodeModel::Text(_) => ElementModel { name: e.name@, styles: e.styles@, children: seq![] },
    }
}

pub open spec fn nodes_model(s: Seq<Node>) -> Seq<NodeModel> {
    s.map_values(|n: Node| node_model(n))
}

pub open spec fn elements_model(s: Seq<Element>) -> Seq<ElementModel> {
    s.map_values(|e: Element| element_model(e))
}

/// What an element stands for: its name, its styles, and its children's trees.
pub proof fn lemma_element_model(e: Element)
    ensures
        element_model(e).name == e.name@,
        element_model(e).styles == e.styles@,
        element_model(e).children == nodes_model(e.children@),
{
    assert(element_model(e).children =~= nodes_model(e.children@));
}

/// An element with one more child stands for the same tree with that child's
/// tree added at the end.
pub proof fn lemma_push_child(e: Element, e2: Element, n: Node)
    requires
        e2.name@ == e.name@,
        e2.styles@ == e.styles@,
        e2.children@ == e.children@.push(n),
    ensures
        element_model(e2) == (ElementModel {
            children: element_model(e).children.push(node_model(n)),
            ..element_model(e)
        }),
{
    lemma_element_model(e);
    lemma_element_model(e2);
    assert(nodes_model(e2.children@) =~= nodes_model(e.children@).push(node_model(n)));
}

} // verus!
