use vstd::prelude::*;

verus! {

/// A parsed Markdown element, holding as plain values what the graph builder reads.
#[derive(Debug, PartialEq)]
pub enum MdNode {
    Root(Vec<MdNode>),
    Yaml(String),
    Heading { depth: u8, children: Vec<MdNode> },
    Paragraph(Vec<MdNode>),
    Text(String),
    Math(String),
    Image { title: Option<String>, url: String },
    Link { title: Option<String>, url: String },
    Code { lang: Option<String>, value: String },
    ListItem(Vec<MdNode>),
    List(Vec<MdNode>),
    /// Any other element kind, by name.
    Other(String),
}

/// Document-level metadata read from the front matter.
#[derive(Debug, Clone, PartialEq)]
pub struct Metadata {
    pub title: Option<String>,
    pub author: Option<String>,
    pub date: Option<String>,
    pub css: Option<String>,
}

/// A bibliography citation.
#[derive(Debug, Clone, PartialEq)]
pub struct Entry {
    pub key: String,
    pub author: Option<String>,
    pub title: Option<String>,
    pub year: Option<String>,
    pub doi: Option<String>,
}

#[derive(Debug, PartialEq)]
pub struct Table {
    pub name: String,
    /// Rows, columns.
    pub size: (usize, usize),
    /// Each column is a vector of strings.
    pub columns: Vec<Vec<String>>,
}

/// The typed content payload of a node.
#[derive(Debug, PartialEq)]
pub enum TypedNode {
    Text(String),
    Formula(String),
    Image { title: Option<String>, url: String },
    Link { title: Option<String>, url: String },
    Bibliography(Entry),
    List(Vec<TypedNode>),
    CodeBlock { lang: Option<String>, code: String },
    Table(Table),
    MarkdownDocument(String),
}

impl Default for TypedNode {
    fn default() -> (r: Self)
        ensures
            r matches TypedNode::Text(s) && s@.len() == 0,
    {
        TypedNode::Text(String::new())
    }
}

/// Style attributes of a node; key/value pairs keep their order of insertion,
/// with each key once (`keys_unique`).
#[derive(Debug, Clone, PartialEq)]
pub struct NodeAttributes {
    pub explicit_id: Option<String>,
    pub classes: Vec<String>,
    pub key_value_pairs: Vec<(String, String)>,
}

impl NodeAttributes {
    /// No key appears twice among the key/value pairs.
    pub open spec fn keys_unique(&self) -> bool {
        forall|a: int, b: int|
            #![trigger self.key_value_pairs@[a], self.key_value_pairs@[b]]
            0 <= a < b < self.key_value_pairs@.len() ==> self.key_value_pairs@[a].0@
                != self.key_value_pairs@[b].0@
    }

    pub open spec fn is_empty(&self) -> bool {
        &&& self.explicit_id is None
        &&& self.classes@.len() == 0
        &&& self.key_value_pairs@.len() == 0
    }
}

impl Default for NodeAttributes {
    fn default() -> (r: Self)
        ensures
            r.is_empty(),
            r.keys_unique(),
    {
        NodeAttributes { explicit_id: None, classes: Vec::new(), key_value_pairs: Vec::new() }
    }
}

/// A position in the plane, in thousandths of a unit.
#[derive(Debug, Clone, Copy, PartialEq, Eq)]
pub struct Coordinates {
    pub x: i64,
    pub y: i64,
}

/// One vertex of the graph.
#[derive(Debug, PartialEq)]
pub struct Node {
    pub id: String,
    pub title: Option<String>,
    pub raw: TypedNode,
    pub style: NodeAttributes,
    pub position: Option<Coordinates>,
}

/// One directed edge between two node ids; the target need not exist.
#[derive(Debug, Clone, PartialEq)]
pub struct Edge {
    pub id: usize,
    pub source_id: String,
    pub target_id: String,
    pub label: Option<String>,
}

/// An item waiting in a node's content buffer: a document element, or a payload
/// that is already resolved.
#[derive(Debug)]
pub enum Ext<'a> {
    M(&'a MdNode),
    Typed(TypedNode),
}

pub fn clone_opt(o: &Option<String>) -> (r: Option<String>)
    ensures
        r == *o,
{
    match o {
        Some(s) => Some(s.clone()),
        None => None,
    }
}

/// The characters of an optional string.
pub open spec fn opt_view(o: Option<String>) -> Option<Seq<char>> {
    match o {
        Some(s) => Some(s@),
        None => None,
    }
}

} // verus!
