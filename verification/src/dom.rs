//! A plain-data document object model: what an XML parser has to hand over
//! for the tree conversion to work on.

use vstd::prelude::*;

verus! {

/// The kind of a document node, as far as the conversion tells kinds apart.
#[derive(Clone, Copy, Debug, PartialEq, Eq, Structural)]
pub enum NodeKind {
    /// An element: it has a name, attributes and children.
    Element,
    /// Character data between tags.
    Text,
    /// An attribute of an element.
    Attribute,
    /// Anything else: a CDATA section, a comment, a processing instruction.
    Other,
}

/// One node of a parsed document.
#[derive(Debug, PartialEq, Eq)]
pub struct DomNode {
    pub kind: NodeKind,
    /// The name without its namespace prefix.
    pub local_name: String,
    /// The character data that the node itself carries, if it carries any.
    pub data: Option<String>,
    /// The attributes of an element, in the order in which the parser hands
    /// them over.
    pub attributes: Vec<DomAttribute>,
    /// The child nodes in document order.
    pub children: Vec<DomNode>,
}

/// An entry of an element's attribute list.
#[derive(Debug, PartialEq, Eq)]
pub struct DomAttribute {
    /// The attribute's name without its namespace prefix.
    pub name: String,
    /// The node that holds the attribute's value.
    pub node: DomNode,
}

/// The mathematical value of a [`DomNode`].
pub struct DomNodeView {
    pub kind: NodeKind,
    pub local_name: Seq<char>,
    pub data: Option<Seq<char>>,
    pub attributes: Seq<DomAttributeView>,
    pub children: Seq<DomNodeView>,
}

/// The mathematical value of a [`DomAttribute`].
pub struct DomAttributeView {
    pub name: Seq<char>,
    pub node: DomNodeView,
}

impl View for DomNode {
    type V = DomNodeView;

    open spec fn view(&self) -> DomNodeView {
        node_view(*self)
    }
}

impl View for DomAttribute {
    type V = DomAttributeView;

    open spec fn view(&self) -> DomAttributeView {
        entry_view(*self)
    }
}

/// The value of a node.
pub open spec fn node_view(node: DomNode) -> DomNodeView
    decreases node, 0nat,
{
    DomNodeView {
        kind: node.kind,
        local_name: node.local_name@,
        data: match node.data {
            Some(s) => Some(s@),
            None => None,
        },
        attributes: entries_view(node.attributes@),
        children: nodes_view(node.children@),
    }
}

/// The value of an attribute entry.
pub open spec fn entry_view(entry: DomAttribute) -> DomAttributeView
    decreases entry, 0nat,
{
    DomAttributeView { name: entry.name@, node: node_view(entry.node) }
}

/// The values of a list of nodes.
pub open spec fn nodes_view(nodes: Seq<DomNode>) -> Seq<DomNodeView>
    decreases nodes, 1nat,
{
    if nodes.len() == 0 {
        Seq::empty()
    } else {
        nodes_view(nodes.drop_last()).push(node_view(nodes.last()))
    }
}

/// The values of a list of attribute entries.
pub open spec fn entries_view(entries: Seq<DomAttribute>) -> Seq<DomAttributeView>
    decreases entries, 1nat,
{
    if entries.len() == 0 {
        Seq::empty()
    } else {
        entries_view(entries.drop_last()).push(entry_view(entries.last()))
    }
}

/// Whether `nodes` are nested as in a document: elements may hold any
/// nodes, and no other node holds child nodes.
pub open spec fn nested_as_document(nodes: Seq<DomNodeView>) -> bool
    decreases nodes, 1nat,
{
    nodes.len() > 0 ==> nested_as_document(nodes.drop_last()) && node_nested_as_document(
        nodes.last(),
    )
}

/// Whether the subtree of `node` is nested as in a document.
pub open spec fn node_nested_as_document(node: DomNodeView) -> bool
    decreases node, 0nat,
{
    if node.kind == NodeKind::Element {
        nested_as_document(node.children)
    } else {
        node.children.len() == 0
    }
}

/// The values of a list of nodes are the values of its items, one for one.
pub proof fn lemma_nodes_view(nodes: Seq<DomNode>)
    ensures
        nodes_view(nodes).len() == nodes.len(),
        forall|i: int| 0 <= i < nodes.len() ==> (#[trigger] nodes_view(nodes)[i]) == nodes[i]@,
    decreases nodes.len(),
{
    if nodes.len() > 0 {
        lemma_nodes_view(nodes.drop_last());
    }
}

/// The values of a list of attribute entries are the values of its items,
/// one for one.
pub proof fn lemma_entries_view(entries: Seq<DomAttribute>)
    ensures
        entries_view(entries).len() == entries.len(),
        forall|i: int|
            0 <= i < entries.len() ==> (#[trigger] entries_view(entries)[i]) == entries[i]@,
    decreases entries.len(),
{
    if entries.len() > 0 {
        lemma_entries_view(entries.drop_last());
    }
}

} // verus!
