//! The tree counts of elements (`sibling-index()` and `sibling-count()`):
//! the one-based position of an element among its parent's element children,
//! and the number of those children. Non-element children keep deferred
//! counts: they never carry a style of their own and do not shift the
//! positions of the elements around them. The DOM is seen through a
//! [`DocumentTree`].

use vstd::prelude::*;
use crate::document::DocumentTree;
use crate::document::child_list;
use crate::document::child_prefix;

verus! {

/// The tree counts of one node.
#[derive(Clone, Copy, Debug, PartialEq, Eq, Structural)]
pub enum TreeCounts {
    /// Not an element, or a node without a parent.
    Deferred,
    /// The element is the `index`-th of `count` element siblings.
    Counted { index: usize, count: usize },
}

pub open spec fn element_flag(is_element: Seq<bool>) -> spec_fn(usize) -> bool {
    |c: usize| c < is_element.len() && is_element[c as int]
}

/// The counts of child `c` of `parent`.
pub open spec fn counts_of(tree: DocumentTree, is_element: Seq<bool>, parent: usize, c: usize) -> TreeCounts {
    if element_flag(is_element)(c) {
        TreeCounts::Counted {
            index: child_prefix(tree, parent, c + 1).filter(element_flag(is_element)).len() as usize,
            count: child_list(tree, parent).filter(element_flag(is_element)).len() as usize,
        }
    } else {
        TreeCounts::Deferred
    }
}

fn is_element_at(is_element: &Vec<bool>, c: usize) -> (element: bool)
    ensures
        element == element_flag(is_element@)(c),
{
    c < is_element.len() && is_element[c]
}

/// The number of element children of `parent` among the first `k` nodes.
fn elements_before(tree: &DocumentTree, is_element: &Vec<bool>, parent: usize, k: usize) -> (seen: usize)
    requires
        k <= tree.len(),
    ensures
        seen == child_prefix(*tree, parent, k as int).filter(element_flag(is_element@)).len(),
{
    let mut seen: usize = 0;
    let mut c: usize = 0;
    while c < k
        invariant
            k <= tree.len(),
            c <= k,
            seen == child_prefix(*tree, parent, c as int).filter(element_flag(is_element@)).len(),
            seen <= c,
        decreases k - c,
    {
        proof {
            lemma_child_prefix_step(*tree, parent, c, element_flag(is_element@));
        }
        if tree.parent(c) == Some(parent) && is_element_at(is_element, c) {
            seen = seen + 1;
        }
        c = c + 1;
    }
    seen
}

proof fn lemma_child_prefix_step(tree: DocumentTree, parent: usize, c: usize, keep: spec_fn(usize) -> bool)
    requires
        0 <= c < tree.len(),
    ensures
        child_prefix(tree, parent, c + 1) == if tree.spec_parents()[c as int] == Some(parent) {
            child_prefix(tree, parent, c as int).push(c)
        } else {
            child_prefix(tree, parent, c as int)
        },
        child_prefix(tree, parent, c + 1).filter(keep) == if tree.spec_parents()[c as int] == Some(parent) && keep(c) {
            child_prefix(tree, parent, c as int).filter(keep).push(c)
        } else {
            child_prefix(tree, parent, c as int).filter(keep)
        },
{
    let all = Seq::new(c as nat, |i: int| i as usize);
    let is_child = |x: usize| tree.spec_parents()[x as int] == Some(parent);
    assert(Seq::new((c + 1) as nat, |i: int| i as usize) =~= all.push(c));
    all.lemma_filter_push(c, is_child);
    child_prefix(tree, parent, c as int).lemma_filter_push(c, keep);
}

/// The children of `parent` in document order, each with its tree counts
/// (`is_element[n]` tells whether node `n` is an element).
pub fn child_tree_counts(tree: &DocumentTree, is_element: &Vec<bool>, parent: usize) -> (counts: Vec<(usize, TreeCounts)>)
    ensures
        counts@.len() == child_list(*tree, parent).len(),
        forall|k: int|
            0 <= k < counts@.len() ==> (#[trigger] counts@[k]).0 == child_list(*tree, parent)[k] && counts@[k].1
                == counts_of(*tree, is_element@, parent, counts@[k].0),
{
    let count = tree.node_count();
    let total = elements_before(tree, is_element, parent, count);
    let mut counts: Vec<(usize, TreeCounts)> = Vec::new();
    let mut seen: usize = 0;
    let mut c: usize = 0;
    while c < count
        invariant
            count == tree.len(),
            c <= count,
            total == child_list(*tree, parent).filter(element_flag(is_element@)).len(),
            seen == child_prefix(*tree, parent, c as int).filter(element_flag(is_element@)).len(),
            seen <= c,
            counts@.len() == child_prefix(*tree, parent, c as int).len(),
            forall|k: int|
                0 <= k < counts@.len() ==> (#[trigger] counts@[k]).0 == child_prefix(*tree, parent, c as int)[k]
                    && counts@[k].1 == counts_of(*tree, is_element@, parent, counts@[k].0),
        decreases count - c,
    {
        proof {
            lemma_child_prefix_step(*tree, parent, c, element_flag(is_element@));
        }
        if tree.parent(c) == Some(parent) {
            if is_element_at(is_element, c) {
                seen = seen + 1;
                counts.push((c, TreeCounts::Counted { index: seen, count: total }));
            } else {
                counts.push((c, TreeCounts::Deferred));
            }
        }
        c = c + 1;
    }
    counts
}

/// The tree counts of one node, looked up among its parent's children (an
/// incremental restyle enters mid-tree and cannot inherit them from a
/// walk); deferred for the document node.
pub fn tree_counts_of(tree: &DocumentTree, is_element: &Vec<bool>, node: usize) -> (counts: TreeCounts)
    ensures
        counts == (if node < tree.len() {
            match tree.spec_parents()[node as int] {
                Some(parent) => counts_of(*tree, is_element@, parent, node),
                None => TreeCounts::Deferred,
            }
        } else {
            TreeCounts::Deferred
        }),
{
    match tree.parent(node) {
        Some(parent) => {
            if !is_element_at(is_element, node) {
                return TreeCounts::Deferred;
            }
            let count = tree.node_count();
            let index = elements_before(tree, is_element, parent, node + 1);
            let total = elements_before(tree, is_element, parent, count);
            TreeCounts::Counted { index, count: total }
        },
        None => TreeCounts::Deferred,
    }
}

proof fn lemma_prefix_counts_grow(tree: DocumentTree, parent: usize, keep: spec_fn(usize) -> bool, k: usize)
    requires
        k <= tree.len() <= usize::MAX,
    ensures
        child_prefix(tree, parent, k as int).filter(keep).len() <= child_list(tree, parent).filter(keep).len(),
    decreases tree.len() - k,
{
    if k < tree.len() {
        lemma_child_prefix_step(tree, parent, k, keep);
        lemma_prefix_counts_grow(tree, parent, keep, (k + 1) as usize);
    }
}

/// An element child of `parent` is counted at a position from one to the
/// number of element children.
pub proof fn law_sibling_index_within_count(tree: DocumentTree, is_element: Seq<bool>, parent: usize, c: usize)
    requires
        c < tree.len() <= usize::MAX,
        tree.spec_parents()[c as int] == Some(parent),
        c < is_element.len() && is_element[c as int],
    ensures
        counts_of(tree, is_element, parent, c) matches TreeCounts::Counted { index, count } && 1 <= index
            <= count,
{
    let keep = element_flag(is_element);
    lemma_child_prefix_step(tree, parent, c, keep);
    lemma_prefix_counts_grow(tree, parent, keep, (c + 1) as usize);
    let prefix = child_prefix(tree, parent, c + 1).filter(keep);
    let whole = child_list(tree, parent).filter(keep);
    assert(prefix.len() >= 1);
    assert(whole.len() <= tree.len()) by {
        child_list(tree, parent).lemma_filter_len(keep);
        Seq::new(tree.len(), |i: int| i as usize).lemma_filter_len(|x: usize| tree.spec_parents()[x as int] == Some(parent));
    }
}

} // verus!

