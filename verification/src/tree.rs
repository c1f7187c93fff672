//! The navigation tree of an XML document and the conversion that builds it
//! from a document object model.

use crate::dom::{
    entries_view, lemma_entries_view, lemma_nodes_view, nodes_view, DomAttribute,
    DomAttributeView, DomNode, DomNodeView, NodeKind,
};
use crate::laws::law_no_empty_parts;
use vstd::prelude::*;
use vstd::string::StringExecFns;

verus! {

/// One element of an XML document, ready for display.
///
/// Whatever an element does not have is absent (`None`): a tree built by
/// this module never holds an empty list or an empty string.
#[derive(Debug, PartialEq, Eq)]
pub struct Tree {
    /// The element's name without its namespace prefix.
    pub name: String,
    /// The character data directly inside the element, in document order.
    pub content: Option<String>,
    /// The element's attributes as pairs of name and value.
    pub attributes: Option<Vec<(String, String)>>,
    /// The element's child elements in document order.
    pub childs: Option<Vec<Tree>>,
}

/// Why no trees could be built from an XML text.
#[derive(Debug, PartialEq, Eq)]
pub enum XmlError {
    /// The text is not well-formed XML. Holds the parser's message where it
    /// gave one.
    ParseFailed(Option<String>),
    /// The text was parsed, and holds no element to display.
    EmptyResult,
    /// The document nests its elements deeper than [`MAX_DEPTH`] levels.
    TooDeep,
}

/// The mathematical value of an [`XmlError`].
pub enum XmlErrorView {
    ParseFailed(Option<Seq<char>>),
    EmptyResult,
    TooDeep,
}

/// The number of levels of nested elements up to which a document is
/// converted. The conversion descends one call for each level, so the
/// limit bounds the stack that it needs.
pub const MAX_DEPTH: usize = 256;

impl View for XmlError {
    type V = XmlErrorView;

    open spec fn view(&self) -> XmlErrorView {
        match self {
            XmlError::ParseFailed(message) => XmlErrorView::ParseFailed(text_view(*message)),
            XmlError::EmptyResult => XmlErrorView::EmptyResult,
            XmlError::TooDeep => XmlErrorView::TooDeep,
        }
    }
}

/// The mathematical value of a [`Tree`].
pub struct TreeView {
    pub name: Seq<char>,
    pub content: Option<Seq<char>>,
    pub attributes: Option<Seq<(Seq<char>, Seq<char>)>>,
    pub childs: Option<Seq<TreeView>>,
}

impl View for Tree {
    type V = TreeView;

    open spec fn view(&self) -> TreeView {
        tree_view(*self)
    }
}

/// The value of a tree.
pub open spec fn tree_view(tree: Tree) -> TreeView
    decreases tree, 0nat,
{
    TreeView {
        name: tree.name@,
        content: text_view(tree.content),
        attributes: match tree.attributes {
            Some(pairs) => Some(pairs_view(pairs@)),
            None => None,
        },
        childs: match tree.childs {
            Some(trees) => Some(trees_view(trees@)),
            None => None,
        },
    }
}

/// The value of an optional string.
pub open spec fn text_view(text: Option<String>) -> Option<Seq<char>> {
    match text {
        Some(s) => Some(s@),
        None => None,
    }
}

/// The values of a list of attribute pairs.
pub open spec fn pairs_view(pairs: Seq<(String, String)>) -> Seq<(Seq<char>, Seq<char>)> {
    Seq::new(pairs.len(), |i: int| (pairs[i].0@, pairs[i].1@))
}

/// Whether `tree` and every tree below it is free of empty parts: its
/// content is no empty string, and neither its attributes nor its children
/// are an empty list.
pub open spec fn without_empty_parts(tree: TreeView) -> bool
    decreases tree, 0nat,
{
    &&& tree.content matches Some(text) ==> text.len() > 0
    &&& tree.attributes matches Some(pairs) ==> pairs.len() > 0
    &&& tree.childs matches Some(childs) ==> childs.len() > 0 && all_without_empty_parts(childs)
}

/// Whether all of `trees` are free of empty parts.
pub open spec fn all_without_empty_parts(trees: Seq<TreeView>) -> bool
    decreases trees, 1nat,
{
    trees.len() > 0 ==> all_without_empty_parts(trees.drop_last()) && without_empty_parts(
        trees.last(),
    )
}

/// The values of a list of trees.
pub open spec fn trees_view(trees: Seq<Tree>) -> Seq<TreeView>
    decreases trees, 1nat,
{
    if trees.len() == 0 {
        Seq::empty()
    } else {
        trees_view(trees.drop_last()).push(tree_view(trees.last()))
    }
}

/// The values of a list of trees are the values of its items, one for one.
pub proof fn lemma_trees_view(trees: Seq<Tree>)
    ensures
        trees_view(trees).len() == trees.len(),
        forall|i: int| 0 <= i < trees.len() ==> (#[trigger] trees_view(trees)[i]) == trees[i]@,
    decreases trees.len(),
{
    if trees.len() > 0 {
        lemma_trees_view(trees.drop_last());
    }
}

/// The values of an optional list of trees.
pub open spec fn forest_view(trees: Option<Vec<Tree>>) -> Option<Seq<TreeView>> {
    match trees {
        Some(v) => Some(trees_view(v@)),
        None => None,
    }
}

/// A sequence if it has items, absence if it has none.
pub open spec fn present<T>(items: Seq<T>) -> Option<Seq<T>> {
    if items.len() == 0 {
        None
    } else {
        Some(items)
    }
}

/// The character data of all of `nodes` that carry any, joined in order.
pub open spec fn joined_data(nodes: Seq<DomNodeView>) -> Seq<char>
    decreases nodes.len(),
{
    if nodes.len() == 0 {
        Seq::empty()
    } else {
        let before = joined_data(nodes.drop_last());
        match nodes.last().data {
            Some(data) => before + data,
            None => before,
        }
    }
}

/// The text content of an element with the child nodes `nodes`: the
/// character data of the children that are not elements, joined in order.
pub open spec fn content_text(nodes: Seq<DomNodeView>) -> Seq<char> {
    joined_data(nodes.filter(|n: DomNodeView| n.kind != NodeKind::Element))
}

/// The value of the attribute held by `node`: the node's own data where it
/// has some, else the joined data of its children.
pub open spec fn attribute_value(node: DomNodeView) -> Seq<char> {
    match node.data {
        Some(data) => data,
        None => joined_data(node.children),
    }
}

/// The name and value of one attribute entry.
pub open spec fn attribute_pair(entry: DomAttributeView) -> (Seq<char>, Seq<char>) {
    (entry.name, attribute_value(entry.node))
}

/// The attribute pairs of an element with the attribute list `entries`:
/// one pair for each entry whose node is an attribute, in order.
pub open spec fn attribute_pairs(entries: Seq<DomAttributeView>) -> Seq<(Seq<char>, Seq<char>)> {
    entries.filter(|e: DomAttributeView| e.node.kind == NodeKind::Attribute).map_values(
        |e: DomAttributeView| attribute_pair(e),
    )
}

/// The tree of the element `node`.
pub open spec fn tree_of(node: DomNodeView) -> TreeView
    decreases node, 0nat,
{
    TreeView {
        name: node.local_name,
        content: present(content_text(node.children)),
        attributes: present(attribute_pairs(node.attributes)),
        childs: present(child_trees(node.children)),
    }
}

/// The trees of the elements among `nodes`, in order.
pub open spec fn child_trees(nodes: Seq<DomNodeView>) -> Seq<TreeView>
    decreases nodes, 1nat,
{
    if nodes.len() == 0 {
        Seq::empty()
    } else {
        let before = child_trees(nodes.drop_last());
        if nodes.last().kind == NodeKind::Element {
            before.push(tree_of(nodes.last()))
        } else {
            before
        }
    }
}

/// The number of levels of elements in `nodes`: none where no node is an
/// element, else one more than the deepest of the elements holds.
pub open spec fn nesting_depth(nodes: Seq<DomNodeView>) -> nat
    decreases nodes, 1nat,
{
    if nodes.len() == 0 {
        0
    } else {
        let before = nesting_depth(nodes.drop_last());
        let last = levels_of(nodes.last());
        if before >= last {
            before
        } else {
            last
        }
    }
}

/// The number of levels of elements in the subtree of `node`: none where
/// `node` is no element.
pub open spec fn levels_of(node: DomNodeView) -> nat
    decreases node, 0nat,
{
    if node.kind == NodeKind::Element {
        1 + nesting_depth(node.children)
    } else {
        0
    }
}

/// What building the trees of a parsed document gives: `TooDeep` where
/// its elements nest deeper than `MAX_DEPTH` levels; `EmptyResult` where
/// it has no top-level element; else the trees of the top-level elements.
pub open spec fn built_from_document(document: DomNodeView) -> Result<Seq<TreeView>, XmlErrorView> {
    if nesting_depth(document.children) > MAX_DEPTH {
        Err(XmlErrorView::TooDeep)
    } else if child_trees(document.children).len() == 0 {
        Err(XmlErrorView::EmptyResult)
    } else {
        Ok(child_trees(document.children))
    }
}

/// What building the trees gives for each outcome of parsing: `ParseFailed`
/// with the parser's message where parsing failed, else what the document
/// gives.
pub open spec fn built_from_parse(parsed: Result<DomNodeView, Option<Seq<char>>>) -> Result<
    Seq<TreeView>,
    XmlErrorView,
> {
    match parsed {
        Ok(document) => built_from_document(document),
        Err(message) => Err(XmlErrorView::ParseFailed(message)),
    }
}

/// The value of an outcome of parsing.
pub open spec fn parse_view(parsed: Result<DomNode, Option<String>>) -> Result<
    DomNodeView,
    Option<Seq<char>>,
> {
    match parsed {
        Ok(document) => Ok(document@),
        Err(message) => Err(text_view(message)),
    }
}

/// The value of an outcome of building.
pub open spec fn build_view(built: Result<Vec<Tree>, XmlError>) -> Result<
    Seq<TreeView>,
    XmlErrorView,
> {
    match built {
        Ok(trees) => Ok(trees_view(trees@)),
        Err(error) => Err(error@),
    }
}

proof fn lemma_filter_step<T>(items: Seq<T>, keep: spec_fn(T) -> bool, i: int)
    requires
        0 <= i < items.len(),
    ensures
        items.take(i + 1).filter(keep) == if keep(items[i]) {
            items.take(i).filter(keep).push(items[i])
        } else {
            items.take(i).filter(keep)
        },
{
    reveal(Seq::filter);
    assert(items.take(i + 1).drop_last() =~= items.take(i));
}

proof fn lemma_joined_data_push(nodes: Seq<DomNodeView>, node: DomNodeView)
    ensures
        joined_data(nodes.push(node)) == match node.data {
            Some(data) => joined_data(nodes) + data,
            None => joined_data(nodes),
        },
{
    assert(nodes.push(node).drop_last() =~= nodes);
}

/// Joins the character data of all of `nodes` that carry any.
fn join_data(nodes: &Vec<DomNode>) -> (text: String)
    ensures
        text@ == joined_data(nodes_view(nodes@)),
{
    let ghost views = nodes_view(nodes@);
    proof {
        lemma_nodes_view(nodes@);
    }
    let mut text = String::new();
    let mut i: usize = 0;
    while i < nodes.len()
        invariant
            i <= nodes.len(),
            views == nodes_view(nodes@),
            views.len() == nodes.len(),
            text@ == joined_data(views.take(i as int)),
        decreases nodes.len() - i,
    {
        proof {
            lemma_nodes_view(nodes@);
            assert(views.take(i + 1) =~= views.take(i as int).push(views[i as int]));
            lemma_joined_data_push(views.take(i as int), views[i as int]);
        }
        if let Some(data) = &nodes[i].data {
            text.append(data.as_str());
        }
        i += 1;
    }
    proof {
        assert(views.take(nodes.len() as int) =~= views);
    }
    text
}

/// Collects the attribute pairs of an element from its attribute list.
fn collect_attributes(entries: &Vec<DomAttribute>) -> (pairs: Vec<(String, String)>)
    ensures
        pairs_view(pairs@) == attribute_pairs(entries_view(entries@)),
{
    let ghost views = entries_view(entries@);
    let ghost is_attribute = |e: DomAttributeView| e.node.kind == NodeKind::Attribute;
    let ghost pair_of = |e: DomAttributeView| attribute_pair(e);
    proof {
        lemma_entries_view(entries@);
    }
    let mut pairs: Vec<(String, String)> = Vec::new();
    let mut i: usize = 0;
    while i < entries.len()
        invariant
            i <= entries.len(),
            views == entries_view(entries@),
            views.len() == entries.len(),
            is_attribute == |e: DomAttributeView| e.node.kind == NodeKind::Attribute,
            pair_of == |e: DomAttributeView| attribute_pair(e),
            pairs_view(pairs@) == views.take(i as int).filter(is_attribute).map_values(pair_of),
        decreases entries.len() - i,
    {
        let entry = &entries[i];
        let ghost kept = views.take(i as int).filter(is_attribute);
        proof {
            lemma_entries_view(entries@);
            lemma_filter_step(views, is_attribute, i as int);
            assert(views[i as int] == entry@);
        }
        match entry.node.kind {
            NodeKind::Attribute => {
                let value = match &entry.node.data {
                    Some(data) => data.clone(),
                    None => join_data(&entry.node.children),
                };
                let ghost before = pairs@;
                pairs.push((entry.name.clone(), value));
                proof {
                    assert(kept.push(entry@).map_values(pair_of) =~= kept.map_values(pair_of).push(
                        pair_of(entry@),
                    ));
                    assert(pairs_view(pairs@) =~= pairs_view(before).push(attribute_pair(entry@)));
                }
            },
            _ => {},
        }
        i += 1;
    }
    proof {
        assert(views.take(entries.len() as int) =~= views);
    }
    pairs
}

proof fn lemma_child_trees_push(nodes: Seq<DomNodeView>, node: DomNodeView)
    ensures
        child_trees(nodes.push(node)) == if node.kind == NodeKind::Element {
            child_trees(nodes).push(tree_of(node))
        } else {
            child_trees(nodes)
        },
{
    assert(nodes.push(node).drop_last() =~= nodes);
}

/// Converts the children of `node`: the trees of its child elements, and
/// the character data of its other children joined in document order.
/// Either is absent where there is none.
pub fn process_dom(node: &DomNode) -> (converted: (Option<Vec<Tree>>, Option<String>))
    ensures
        forest_view(converted.0) == present(child_trees(node@.children)),
        text_view(converted.1) == present(content_text(node@.children)),
        converted.0 matches Some(trees) ==> trees@.len() > 0 && all_without_empty_parts(
            trees_view(trees@),
        ),
        converted.1 matches Some(text) ==> text@.len() > 0,
    decreases node,
{
    let ghost kids = node@.children;
    let ghost not_element = |n: DomNodeView| n.kind != NodeKind::Element;
    proof {
        lemma_nodes_view(node.children@);
    }
    let mut sub_trees: Vec<Tree> = Vec::new();
    let mut sub_content = String::new();
    let mut i: usize = 0;
    while i < node.children.len()
        invariant
            i <= node.children.len(),
            kids == node@.children,
            kids == nodes_view(node.children@),
            kids.len() == node.children.len(),
            not_element == |n: DomNodeView| n.kind != NodeKind::Element,
            trees_view(sub_trees@) == child_trees(kids.take(i as int)),
            sub_content@ == joined_data(kids.take(i as int).filter(not_element)),
        decreases node.children.len() - i,
    {
        let child = &node.children[i];
        proof {
            assert(kids.take(i + 1) =~= kids.take(i as int).push(kids[i as int]));
            lemma_child_trees_push(kids.take(i as int), kids[i as int]);
            lemma_filter_step(kids, not_element, i as int);
            lemma_joined_data_push(kids.take(i as int).filter(not_element), kids[i as int]);
            lemma_nodes_view(node.children@);
            assert(kids[i as int] == child@);
        }
        match child.kind {
            NodeKind::Element => {
                let pairs = collect_attributes(&child.attributes);
                let attributes = if pairs.len() >= 1 {
                    Some(pairs)
                } else {
                    None
                };
                let (childs, content) = process_dom(child);
                let ghost before = sub_trees@;
                let tree = Tree { name: child.local_name.clone(), content, attributes, childs };
                proof {
                    assert(tree@ == tree_of(child@));
                }
                sub_trees.push(tree);
                proof {
                    assert(sub_trees@.drop_last() =~= before);
                }
            },
            _ => {
                if let Some(data) = &child.data {
                    sub_content.append(data.as_str());
                }
            },
        }
        i += 1;
    }
    proof {
        assert(kids.take(node.children.len() as int) =~= kids);
        law_no_empty_parts(kids);
        lemma_trees_view(sub_trees@);
    }
    let trees = if sub_trees.len() >= 1 {
        Some(sub_trees)
    } else {
        None
    };
    let content = if sub_content.as_str().is_empty() {
        None
    } else {
        Some(sub_content)
    };
    (trees, content)
}

proof fn lemma_nesting_depth_push(nodes: Seq<DomNodeView>, node: DomNodeView)
    ensures
        nesting_depth(nodes.push(node)) == if nesting_depth(nodes) >= levels_of(node) {
            nesting_depth(nodes)
        } else {
            levels_of(node)
        },
{
    assert(nodes.push(node).drop_last() =~= nodes);
}

proof fn lemma_nesting_depth_covers(nodes: Seq<DomNodeView>, i: int)
    requires
        0 <= i < nodes.len(),
    ensures
        nesting_depth(nodes.take(i + 1)) <= nesting_depth(nodes),
    decreases nodes.len(),
{
    if i + 1 < nodes.len() {
        lemma_nesting_depth_covers(nodes.drop_last(), i);
        assert(nodes.drop_last().take(i + 1) =~= nodes.take(i + 1));
    } else {
        assert(nodes.take(i + 1) =~= nodes);
    }
}

/// Whether the elements below `node` nest at most `limit` levels deep.
/// Descends at most `limit` levels to find out.
pub fn nests_within(node: &DomNode, limit: usize) -> (within: bool)
    ensures
        within == (nesting_depth(node@.children) <= limit),
    decreases limit,
{
    let ghost kids = node@.children;
    proof {
        lemma_nodes_view(node.children@);
    }
    let mut i: usize = 0;
    while i < node.children.len()
        invariant
            i <= node.children.len(),
            kids == nodes_view(node.children@),
            kids == node@.children,
            kids.len() == node.children.len(),
            nesting_depth(kids.take(i as int)) <= limit,
        decreases node.children.len() - i,
    {
        let child = &node.children[i];
        proof {
            lemma_nodes_view(node.children@);
            assert(kids.take(i + 1) =~= kids.take(i as int).push(kids[i as int]));
            lemma_nesting_depth_push(kids.take(i as int), kids[i as int]);
            lemma_nesting_depth_covers(kids, i as int);
            assert(kids[i as int] == child@);
        }
        match child.kind {
            NodeKind::Element => {
                if limit == 0 {
                    return false;
                }
                if !nests_within(child, limit - 1) {
                    return false;
                }
            },
            _ => {},
        }
        i += 1;
    }
    proof {
        assert(kids.take(node.children.len() as int) =~= kids);
    }
    true
}

/// The text of a row that shows a name and what belongs to it.
pub open spec fn row_text(name: Seq<char>, value: Seq<char>) -> Seq<char> {
    name + " - "@ + value
}

/// The label of a tree: its name, followed by its content where it has
/// some.
pub open spec fn label_text(tree: TreeView) -> Seq<char> {
    match tree.content {
        Some(content) => row_text(tree.name, content),
        None => tree.name,
    }
}

/// Writes the row that shows `name` and `value`.
pub fn row_label(name: &str, value: &str) -> (label: String)
    ensures
        label@ == row_text(name@, value@),
{
    let mut label = name.to_owned();
    label.append(" - ");
    label.append(value);
    label
}

impl Tree {
    /// The label under which the tree is shown.
    pub fn label(&self) -> (label: String)
        ensures
            label@ == label_text(self@),
    {
        match &self.content {
            Some(content) => row_label(self.name.as_str(), content.as_str()),
            None => self.name.clone(),
        }
    }

    /// The rows that show the tree's attributes, one for each and in their
    /// order.
    pub fn attribute_labels(&self) -> (labels: Vec<String>)
        ensures
            labels@.len() == match self@.attributes {
                Some(pairs) => pairs.len(),
                None => 0,
            },
            forall|i: int|
                0 <= i < labels@.len() ==> (#[trigger] labels@[i])@ == row_text(
                    self@.attributes->Some_0[i].0,
                    self@.attributes->Some_0[i].1,
                ),
    {
        let mut labels: Vec<String> = Vec::new();
        match &self.attributes {
            Some(pairs) => {
                let mut i: usize = 0;
                while i < pairs.len()
                    invariant
                        i <= pairs.len(),
                        self.attributes == Some(*pairs),
                        labels@.len() == i,
                        forall|j: int|
                            0 <= j < i ==> (#[trigger] labels@[j])@ == row_text(
                                pairs@[j].0@,
                                pairs@[j].1@,
                            ),
                    decreases pairs.len() - i,
                {
                    labels.push(row_label(pairs[i].0.as_str(), pairs[i].1.as_str()));
                    i += 1;
                }
            },
            None => {},
        }
        labels
    }

    /// Builds the trees of the top-level elements of a parsed document.
    /// Fails with `TooDeep` exactly where the document's elements nest
    /// deeper than [`MAX_DEPTH`] levels, and with `EmptyResult` exactly where
    /// the document has no top-level element.
    pub fn new_trees_from_document(document: &DomNode) -> (built: Result<Vec<Tree>, XmlError>)
        ensures
            build_view(built) == built_from_document(document@),
            built matches Ok(trees) ==> trees@.len() > 0 && all_without_empty_parts(
                trees_view(trees@),
            ),
    {
        if !nests_within(document, MAX_DEPTH) {
            return Err(XmlError::TooDeep);
        }
        let (trees, _content) = process_dom(document);
        match trees {
            Some(trees) => Ok(trees),
            None => Err(XmlError::EmptyResult),
        }
    }

    /// Builds the trees from the outcome of parsing an XML text: the parsed
    /// document, or the parser's message where it gave one. A failed parse
    /// gives `ParseFailed`; a parsed document gives what
    /// [`Tree::new_trees_from_document`] gives.
    pub fn new_trees_from_parse_result(parsed: Result<DomNode, Option<String>>) -> (built: Result<
        Vec<Tree>,
        XmlError,
    >)
        ensures
            build_view(built) == built_from_parse(parse_view(parsed)),
            built matches Ok(trees) ==> trees@.len() > 0 && all_without_empty_parts(
                trees_view(trees@),
            ),
    {
        match parsed {
            Ok(document) => Tree::new_trees_from_document(&document),
            Err(message) => Err(XmlError::ParseFailed(message)),
        }
    }
}

} // verus!
