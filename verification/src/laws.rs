//! What holds of every conversion of a document into trees.

use crate::dom::{nested_as_document, node_nested_as_document, DomNodeView, NodeKind};
use crate::tree::{
    all_without_empty_parts, child_trees, content_text, joined_data, tree_of, without_empty_parts,
    TreeView,
};
use crate::threemf_reader::{extract_view, extraction, zip_members, ArchiveError};
use vstd::prelude::*;

verus! {

/// The number of trees in `trees`, those below them included.
pub open spec fn tree_count(trees: Seq<TreeView>) -> nat
    decreases trees, 1nat,
{
    if trees.len() == 0 {
        0
    } else {
        tree_count(trees.drop_last()) + tree_size(trees.last())
    }
}

/// The number of trees in `tree`, itself included.
pub open spec fn tree_size(tree: TreeView) -> nat
    decreases tree, 0nat,
{
    match tree.childs {
        Some(childs) => 1 + tree_count(childs),
        None => 1,
    }
}

/// The number of elements among `nodes` and at any depth below them.
pub open spec fn element_count(nodes: Seq<DomNodeView>) -> nat
    decreases nodes, 1nat,
{
    if nodes.len() == 0 {
        0
    } else {
        element_count(nodes.drop_last()) + elements_in(nodes.last())
    }
}

/// The number of elements in the subtree of `node`, itself included if it
/// is one.
pub open spec fn elements_in(node: DomNodeView) -> nat
    decreases node, 0nat,
{
    if node.kind == NodeKind::Element {
        1 + element_count(node.children)
    } else {
        element_count(node.children)
    }
}

/// Structure is preserved: a document yields as many trees, at all depths
/// together, as it holds elements.
pub proof fn law_one_tree_per_element(nodes: Seq<DomNodeView>)
    requires
        nested_as_document(nodes),
    ensures
        tree_count(child_trees(nodes)) == element_count(nodes),
    decreases nodes, 1nat,
{
    if nodes.len() > 0 {
        let last = nodes.last();
        assert(node_nested_as_document(last));
        law_one_tree_per_element(nodes.drop_last());
        if last.kind == NodeKind::Element {
            let before = child_trees(nodes.drop_last());
            assert(before.push(tree_of(last)).drop_last() =~= before);
            lemma_tree_size_of_element(last);
            assert(tree_count(child_trees(nodes)) == tree_count(before) + tree_size(tree_of(last)));
        } else {
            assert(element_count(last.children) == 0);
            assert(elements_in(last) == 0);
        }
    }
}

proof fn lemma_tree_size_of_element(node: DomNodeView)
    requires
        node.kind == NodeKind::Element,
        node_nested_as_document(node),
    ensures
        tree_size(tree_of(node)) == elements_in(node),
    decreases node, 0nat,
{
    law_one_tree_per_element(node.children);
    assert(tree_count(Seq::<TreeView>::empty()) == 0);
}

/// Absence, not emptiness: no tree that the conversion yields, at any
/// depth, holds an empty string or an empty list.
pub proof fn law_no_empty_parts(nodes: Seq<DomNodeView>)
    ensures
        all_without_empty_parts(child_trees(nodes)),
    decreases nodes, 1nat,
{
    if nodes.len() > 0 {
        let last = nodes.last();
        law_no_empty_parts(nodes.drop_last());
        if last.kind == NodeKind::Element {
            let before = child_trees(nodes.drop_last());
            assert(before.push(tree_of(last)).drop_last() =~= before);
            lemma_element_without_empty_parts(last);
        }
    }
}

proof fn lemma_element_without_empty_parts(node: DomNodeView)
    ensures
        without_empty_parts(tree_of(node)),
    decreases node, 0nat,
{
    law_no_empty_parts(node.children);
}

/// Order is preserved among the child elements: the trees of a list of
/// nodes are the trees of its front part followed by those of its back part.
pub proof fn law_trees_in_document_order(before: Seq<DomNodeView>, after: Seq<DomNodeView>)
    ensures
        child_trees(before + after) == child_trees(before) + child_trees(after),
    decreases after.len(),
{
    if after.len() == 0 {
        assert(before + after =~= before);
        assert(child_trees(before) + child_trees(after) =~= child_trees(before));
    } else {
        law_trees_in_document_order(before, after.drop_last());
        assert((before + after).drop_last() =~= before + after.drop_last());
        assert((before + after).last() == after.last());
        if after.last().kind == NodeKind::Element {
            let tree = tree_of(after.last());
            assert((child_trees(before) + child_trees(after.drop_last())).push(tree)
                =~= child_trees(before) + child_trees(after.drop_last()).push(tree));
        }
    }
}

/// A single node yields its tree if it is an element, and no tree if it is
/// not.
pub proof fn law_trees_of_one_node(node: DomNodeView)
    ensures
        child_trees(seq![node]) == if node.kind == NodeKind::Element {
            seq![tree_of(node)]
        } else {
            Seq::<TreeView>::empty()
        },
{
    assert(seq![node].drop_last() =~= Seq::<DomNodeView>::empty());
    assert(child_trees(Seq::<DomNodeView>::empty()) =~= Seq::<TreeView>::empty());
    assert(Seq::<TreeView>::empty().push(tree_of(node)) =~= seq![tree_of(node)]);
}

/// The trees of a list of nodes are the trees of the elements among them,
/// one for one and in the same order.
pub proof fn law_trees_are_the_elements(nodes: Seq<DomNodeView>)
    ensures
        child_trees(nodes) == nodes.filter(|n: DomNodeView| n.kind == NodeKind::Element).map_values(
            |n: DomNodeView| tree_of(n),
        ),
    decreases nodes.len(),
{
    let is_element = |n: DomNodeView| n.kind == NodeKind::Element;
    let to_tree = |n: DomNodeView| tree_of(n);
    reveal(Seq::filter);
    if nodes.len() == 0 {
        assert(child_trees(nodes) =~= nodes.filter(is_element).map_values(to_tree));
    } else {
        law_trees_are_the_elements(nodes.drop_last());
        let kept = nodes.drop_last().filter(is_element);
        if nodes.last().kind == NodeKind::Element {
            assert(kept.push(nodes.last()).map_values(to_tree) =~= kept.map_values(to_tree).push(
                tree_of(nodes.last()),
            ));
        }
    }
}

proof fn lemma_joined_data_add(before: Seq<DomNodeView>, after: Seq<DomNodeView>)
    ensures
        joined_data(before + after) == joined_data(before) + joined_data(after),
    decreases after.len(),
{
    if after.len() == 0 {
        assert(before + after =~= before);
        assert(joined_data(before) + joined_data(after) =~= joined_data(before));
    } else {
        lemma_joined_data_add(before, after.drop_last());
        assert((before + after).drop_last() =~= before + after.drop_last());
        assert((before + after).last() == after.last());
        match after.last().data {
            Some(data) => {
                assert((joined_data(before) + joined_data(after.drop_last())) + data =~= joined_data(
                    before,
                ) + (joined_data(after.drop_last()) + data));
            },
            None => {},
        }
    }
}

/// Order is preserved in the content: the content of a list of nodes is the
/// content of its front part followed by that of its back part.
pub proof fn law_content_in_document_order(before: Seq<DomNodeView>, after: Seq<DomNodeView>)
    ensures
        content_text(before + after) == content_text(before) + content_text(after),
{
    let not_element = |n: DomNodeView| n.kind != NodeKind::Element;
    Seq::filter_distributes_over_add(before, after, not_element);
    lemma_joined_data_add(before.filter(not_element), after.filter(not_element));
}

/// A single node contributes its character data to the content if it is no
/// element and carries data, and nothing otherwise.
pub proof fn law_content_of_one_node(node: DomNodeView)
    ensures
        content_text(seq![node]) == match node.data {
            Some(data) if node.kind != NodeKind::Element => data,
            _ => Seq::<char>::empty(),
        },
{
    let not_element = |n: DomNodeView| n.kind != NodeKind::Element;
    reveal(Seq::filter);
    assert(seq![node].drop_last() =~= Seq::<DomNodeView>::empty());
    assert(Seq::<DomNodeView>::empty().filter(not_element) =~= Seq::<DomNodeView>::empty());
    assert(joined_data(Seq::<DomNodeView>::empty()) =~= Seq::<char>::empty());
    if node.kind != NodeKind::Element {
        assert(seq![node].filter(not_element) =~= seq![node]);
        match node.data {
            Some(data) => {
                assert(Seq::<char>::empty() + data =~= data);
                assert(joined_data(seq![node]) == data);
            },
            None => {
                assert(joined_data(seq![node]) == Seq::<char>::empty());
            },
        }
    } else {
        assert(seq![node].filter(not_element) =~= Seq::<DomNodeView>::empty());
    }
}

/// Extraction is repeatable: two extractions from the same bytes with the
/// same suffix give the same outcome.
pub proof fn law_extraction_repeats(
    bytes: Seq<u8>,
    suffix: Seq<char>,
    first: Result<String, ArchiveError>,
    second: Result<String, ArchiveError>,
)
    requires
        extract_view(first) == extraction(zip_members(bytes), suffix),
        extract_view(second) == extraction(zip_members(bytes), suffix),
    ensures
        extract_view(first) == extract_view(second),
{
}

} // verus!
