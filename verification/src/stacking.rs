//! Paint order of stacking contexts.
//!
//! The positioned descendants of a stacking context that carry a z-index,
//! and the descendants that otherwise start a stacking context, paint in
//! order of their level; among equal levels, in tree order. Those below
//! level zero paint before the context's normal-flow children, the rest
//! after them.

use vstd::prelude::*;
use crate::document::DocumentTree;

verus! {

/// The stacking level of a box, if it starts a stacking context: its
/// z-index when it is positioned and has an integer z-index, otherwise zero
/// when it starts a context for another reason (opacity below one, a
/// transform), otherwise none.
pub fn stacking_level(positioned: bool, z_index: Option<i32>, creates_context: bool) -> (level: Option<i32>)
    ensures
        level == (if positioned && z_index is Some {
            z_index
        } else if creates_context {
            Some(0i32)
        } else {
            None
        }),
{
    if positioned {
        if let Some(level) = z_index {
            return Some(level);
        }
    }
    if creates_context {
        Some(0)
    } else {
        None
    }
}

/// Item `a` paints before item `b`: a lower level, or the same level and
/// earlier in tree order.
pub open spec fn paints_before(levels: Seq<i32>, a: int, b: int) -> bool {
    levels[a] < levels[b] || (levels[a] == levels[b] && a < b)
}

/// `order` lists every item once, in paint order.
pub open spec fn is_stacking_order(levels: Seq<i32>, order: Seq<usize>) -> bool {
    &&& order.len() == levels.len()
    &&& forall|k: int| 0 <= k < order.len() ==> #[trigger] order[k] < levels.len()
    &&& forall|k: int, l: int|
        0 <= k < l < order.len() ==> paints_before(levels, #[trigger] order[k] as int, #[trigger] order[l] as int)
}

/// The paint order of items given their levels in tree order: a stable
/// sort of the items by level.
pub fn stacking_order(levels: &Vec<i32>) -> (order: Vec<usize>)
    ensures
        is_stacking_order(levels@, order@),
{
    let n = levels.len();
    let mut order: Vec<usize> = Vec::new();
    for i in 0..n
        invariant
            n == levels@.len(),
            order@.len() == i,
            forall|k: int| 0 <= k < order@.len() ==> #[trigger] order@[k] < i,
            forall|k: int, l: int|
                0 <= k < l < order@.len() ==> paints_before(
                    levels@,
                    #[trigger] order@[k] as int,
                    #[trigger] order@[l] as int,
                ),
    {
        let level = levels[i];
        let mut p: usize = 0;
        while p < order.len() && levels[order[p]] <= level
            invariant
                n == levels@.len(),
                order@.len() == i,
                i < n,
                level == levels@[i as int],
                p <= order@.len(),
                forall|k: int| 0 <= k < order@.len() ==> #[trigger] order@[k] < i,
                forall|k: int| 0 <= k < p ==> levels@[#[trigger] order@[k] as int] <= level,
            decreases order@.len() - p,
        {
            p = p + 1;
        }
        let ghost before = order@;
        proof {
            assert forall|k: int| p <= k < before.len() implies level < levels@[#[trigger] before[k] as int] by {
                if k > p {
                    assert(paints_before(levels@, before[p as int] as int, before[k] as int));
                }
            }
        }
        order.insert(p, i);
        proof {
            assert(order@ == before.insert(p as int, i));
            assert forall|k: int| 0 <= k < order@.len() implies #[trigger] order@[k] < i + 1 by {
                if k < p {
                    assert(order@[k] == before[k]);
                } else if k > p {
                    assert(order@[k] == before[k - 1]);
                }
            }
            assert forall|k: int, l: int|
                0 <= k < l < order@.len() implies paints_before(
                    levels@,
                    #[trigger] order@[k] as int,
                    #[trigger] order@[l] as int,
                ) by {
                if l < p {
                    assert(order@[k] == before[k] && order@[l] == before[l]);
                } else if l == p {
                    assert(order@[k] == before[k]);
                    assert(levels@[before[k] as int] <= level);
                } else if k < p {
                    assert(order@[k] == before[k] && order@[l] == before[l - 1]);
                    assert(paints_before(levels@, before[k] as int, before[l - 1] as int));
                } else if k == p {
                    assert(order@[l] == before[l - 1]);
                    assert(level < levels@[before[l - 1] as int]);
                } else {
                    assert(order@[k] == before[k - 1] && order@[l] == before[l - 1]);
                }
            }
        }
    }
    order
}

/// The paint order split around the normal-flow children: the items below
/// level zero, then those at or above it, each in paint order.
pub fn stacking_layers(levels: &Vec<i32>) -> (layers: (Vec<usize>, Vec<usize>))
    ensures
        is_stacking_order(levels@, layers.0@ + layers.1@),
        forall|k: int| 0 <= k < layers.0@.len() ==> levels@[#[trigger] layers.0@[k] as int] < 0,
        forall|k: int| 0 <= k < layers.1@.len() ==> levels@[#[trigger] layers.1@[k] as int] >= 0,
{
    let order = stacking_order(levels);
    let mut below: Vec<usize> = Vec::new();
    let mut above: Vec<usize> = Vec::new();
    let mut k: usize = 0;
    while k < order.len()
        invariant
            is_stacking_order(levels@, order@),
            k <= order@.len(),
            below@ + above@ == order@.take(k as int),
            forall|j: int| 0 <= j < below@.len() ==> levels@[#[trigger] below@[j] as int] < 0,
            forall|j: int| 0 <= j < above@.len() ==> levels@[#[trigger] above@[j] as int] >= 0,
        decreases order@.len() - k,
    {
        let item = order[k];
        let ghost prior_below = below@;
        let ghost prior_above = above@;
        if levels[item] < 0 {
            proof {
                if above@.len() > 0 {
                    let b = below@.len() as int;
                    assert(order@.take(k as int).len() == k);
                    assert((below@ + above@).len() == k);
                    assert(b < k);
                    assert((below@ + above@)[b] == above@[0]);
                    assert(order@.take(k as int)[b] == order@[b]);
                    assert(order@[b] == above@[0]);
                    assert(levels@[above@[0] as int] >= 0);
                    assert(paints_before(levels@, order@[b] as int, order@[k as int] as int));
                }
            }
            below.push(item);
        } else {
            above.push(item);
        }
        proof {
            assert(order@.take(k + 1) =~= order@.take(k as int).push(item));
            if levels@[item as int] < 0 {
                assert(prior_above.len() == 0);
                assert(prior_below + prior_above =~= prior_below);
                assert(below@ + above@ =~= prior_below.push(item));
            } else {
                assert(below@ + above@ =~= (prior_below + prior_above).push(item));
            }
        }
        k = k + 1;
    }
    proof {
        assert(order@.take(order@.len() as int) =~= order@);
    }
    (below, above)
}

/// An order that lists items in paint order holds no item twice.
proof fn lemma_stacking_order_distinct(levels: Seq<i32>, order: Seq<usize>)
    requires
        is_stacking_order(levels, order),
    ensures
        order.no_duplicates(),
{
    assert forall|k: int, l: int| 0 <= k < order.len() && 0 <= l < order.len() && k != l implies order[k]
        != order[l] by {
        if k < l {
            assert(paints_before(levels, order[k] as int, order[l] as int));
        } else {
            assert(paints_before(levels, order[l] as int, order[k] as int));
        }
    }
}

/// An order that lists items in paint order lists every item.
proof fn lemma_stacking_order_complete(levels: Seq<i32>, order: Seq<usize>, item: int)
    requires
        is_stacking_order(levels, order),
        0 <= item < levels.len(),
    ensures
        exists|k: int| 0 <= k < order.len() && order[k] == item,
{
    lemma_stacking_order_distinct(levels, order);
    if !(exists|k: int| 0 <= k < order.len() && order[k] == item) {
        let n = levels.len() as int;
        let wide = Seq::new(order.len(), |k: int| order[k] as int);
        assert(wide.no_duplicates()) by {
            assert forall|a: int, b: int| 0 <= a < wide.len() && 0 <= b < wide.len() && a != b implies wide[a]
                != wide[b] by {
                assert(order[a] != order[b]);
            }
        }
        wide.unique_seq_to_set();
        vstd::set_lib::lemma_int_range(0, n);
        let others = vstd::set_lib::set_int_range(0, n).remove(item);
        assert(wide.to_set().subset_of(others)) by {
            assert forall|x: int| wide.to_set().contains(x) implies others.contains(x) by {
                let k = choose|k: int| 0 <= k < wide.len() && wide[k] == x;
                assert(order[k] < n);
                assert(order[k] != item);
            }
        }
        vstd::set_lib::lemma_len_subset(wide.to_set(), others);
    }
}

/// The paint order is determined by the levels: two orders that each list
/// every item once in paint order are the same.
pub proof fn law_stacking_order_is_unique(levels: Seq<i32>, first: Seq<usize>, second: Seq<usize>)
    requires
        is_stacking_order(levels, first),
        is_stacking_order(levels, second),
    ensures
        first == second,
{
    assert forall|k: int| 0 <= k < first.len() implies first[k] == second[k] by {
        lemma_agree_at(levels, first, second, k);
    }
    assert(first =~= second);
}

proof fn lemma_agree_at(levels: Seq<i32>, first: Seq<usize>, second: Seq<usize>, k: int)
    requires
        is_stacking_order(levels, first),
        is_stacking_order(levels, second),
        0 <= k < first.len(),
    ensures
        first[k] == second[k],
    decreases k,
{
    if k > 0 {
        lemma_agree_at(levels, first, second, k - 1);
    }
    let x = first[k];
    let y = second[k];
    if x != y {
        lemma_stacking_order_complete(levels, first, y as int);
        lemma_stacking_order_complete(levels, second, x as int);
        let j = choose|j: int| 0 <= j < first.len() && first[j] == y;
        let i = choose|i: int| 0 <= i < second.len() && second[i] == x;
        if j < k {
            lemma_agree_at(levels, first, second, j);
            lemma_stacking_order_distinct(levels, second);
            assert(second[j] == y);
        }
        if i < k {
            lemma_agree_at(levels, first, second, i);
            lemma_stacking_order_distinct(levels, first);
            assert(first[i] == x);
        }
        assert(j > k && i > k);
        assert(paints_before(levels, x as int, y as int));
        assert(paints_before(levels, y as int, x as int));
    }
}

} // verus!

verus! {

/// What a DOM node is to the walk that collects the items of a stacking
/// context.
#[derive(Clone, Copy, Debug, PartialEq, Eq, Structural)]
pub enum StackingNode {
    /// It starts a stacking context at this level (see [`stacking_level`]):
    /// it is an item, and its own descendants paint with it.
    Context(i32),
    /// A displayed element without a level, a document or a comment: its
    /// children are looked at.
    LookedThrough,
    /// A text node, or an element without a style or with `display: none`.
    Skipped,
}

pub open spec fn stacking_node_at(nodes: Seq<StackingNode>, n: int) -> StackingNode {
    if 0 <= n < nodes.len() {
        nodes[n]
    } else {
        StackingNode::Skipped
    }
}

/// The level of a node that starts a context.
pub open spec fn node_level(nodes: Seq<StackingNode>, n: int) -> i32 {
    match stacking_node_at(nodes, n) {
        StackingNode::Context(level) => level,
        _ => 0,
    }
}

/// The walk from `context` looks at the children of `m`: `m` is the context
/// itself, or lies below it with every node from `m` up to the context's
/// child looked through.
pub open spec fn looked_into(tree: DocumentTree, nodes: Seq<StackingNode>, context: int, m: int) -> bool
    decreases m,
{
    if m == context {
        true
    } else if m < context || m >= tree.len() {
        false
    } else {
        stacking_node_at(nodes, m) == StackingNode::LookedThrough && match tree.spec_parents()[m] {
            Some(p) => p < m && looked_into(tree, nodes, context, p as int),
            None => false,
        }
    }
}

/// Node `n` is an item of the stacking context at `context`: it starts a
/// context and the walk looks at its parent.
pub open spec fn is_stacking_item(tree: DocumentTree, nodes: Seq<StackingNode>, context: int, n: int) -> bool {
    &&& context < n < tree.len()
    &&& stacking_node_at(nodes, n) is Context
    &&& match tree.spec_parents()[n] {
        Some(p) => looked_into(tree, nodes, context, p as int),
        None => false,
    }
}

fn stacking_node(nodes: &Vec<StackingNode>, n: usize) -> (node: StackingNode)
    ensures
        node == stacking_node_at(nodes@, n as int),
{
    if n < nodes.len() {
        nodes[n]
    } else {
        StackingNode::Skipped
    }
}

/// The items of the stacking context at `context`, in document order.
/// `nodes[n]` describes node `n` of `tree`.
pub fn stacking_items(tree: &DocumentTree, nodes: &Vec<StackingNode>, context: usize) -> (items: Vec<usize>)
    ensures
        forall|n: usize| #[trigger] items@.contains(n) <==> is_stacking_item(*tree, nodes@, context as int, n as int),
        forall|a: int, b: int| 0 <= a < b < items@.len() ==> #[trigger] items@[a] < #[trigger] items@[b],
{
    let count = tree.node_count();
    let mut open: Vec<bool> = Vec::new();
    let mut items: Vec<usize> = Vec::new();
    let mut n: usize = 0;
    while n < count
        invariant
            count == tree.len(),
            tree.well_formed(),
            n <= count,
            open@.len() == n,
            forall|j: int| 0 <= j < n ==> #[trigger] open@[j] == looked_into(*tree, nodes@, context as int, j),
            forall|m: usize| #[trigger] items@.contains(m) <==> m < n && is_stacking_item(*tree, nodes@, context as int, m as int),
            forall|j: int| 0 <= j < items@.len() ==> #[trigger] items@[j] < n,
            forall|a: int, b: int| 0 <= a < b < items@.len() ==> #[trigger] items@[a] < #[trigger] items@[b],
        decreases count - n,
    {
        let node = stacking_node(nodes, n);
        let parent_open = match tree.parent(n) {
            Some(p) => open[p],
            None => false,
        };
        let here = if n == context {
            true
        } else if n < context {
            false
        } else {
            node == StackingNode::LookedThrough && parent_open
        };
        let is_item = n > context && matches!(node, StackingNode::Context(_)) && parent_open;
        assert(here == looked_into(*tree, nodes@, context as int, n as int));
        assert(is_item == is_stacking_item(*tree, nodes@, context as int, n as int));
        let ghost prior = items@;
        if is_item {
            items.push(n);
        }
        proof {
            broadcast use vstd::seq_lib::group_seq_properties;
            assert forall|m: usize| #[trigger] items@.contains(m) <==> m < n + 1 && is_stacking_item(*tree, nodes@, context as int, m as int) by {
                if prior.contains(m) {
                    let j = choose|j: int| 0 <= j < prior.len() && prior[j] == m;
                    assert(prior[j] < n);
                }
            }
        }
        open.push(here);
        n = n + 1;
    }
    items
}

/// Node `a` paints before node `b`: a lower level, or the same level and
/// earlier in document order.
pub open spec fn node_paints_before(nodes: Seq<StackingNode>, a: int, b: int) -> bool {
    node_level(nodes, a) < node_level(nodes, b) || (node_level(nodes, a) == node_level(nodes, b) && a < b)
}

/// `order` lists every item of the context once, in paint order.
pub open spec fn is_item_paint_order(tree: DocumentTree, nodes: Seq<StackingNode>, context: int, order: Seq<usize>) -> bool {
    &&& forall|k: int| 0 <= k < order.len() ==> is_stacking_item(tree, nodes, context, #[trigger] order[k] as int)
    &&& forall|n: usize| is_stacking_item(tree, nodes, context, n as int) ==> #[trigger] order.contains(n)
    &&& forall|k: int, l: int|
        0 <= k < l < order.len() ==> node_paints_before(nodes, #[trigger] order[k] as int, #[trigger] order[l] as int)
}

/// The items of the stacking context at `context` in paint order, split
/// around its normal-flow children: those below level zero, then those at
/// or above it.
pub fn stacking_paint_order(tree: &DocumentTree, nodes: &Vec<StackingNode>, context: usize) -> (layers: (Vec<usize>, Vec<usize>))
    ensures
        is_item_paint_order(*tree, nodes@, context as int, layers.0@ + layers.1@),
        forall|k: int| 0 <= k < layers.0@.len() ==> node_level(nodes@, #[trigger] layers.0@[k] as int) < 0,
        forall|k: int| 0 <= k < layers.1@.len() ==> node_level(nodes@, #[trigger] layers.1@[k] as int) >= 0,
{
    let items = stacking_items(tree, nodes, context);
    let mut levels: Vec<i32> = Vec::new();
    let mut i: usize = 0;
    while i < items.len()
        invariant
            i <= items@.len(),
            levels@.len() == i,
            forall|j: int| 0 <= j < i ==> #[trigger] levels@[j] == node_level(nodes@, items@[j] as int),
        decreases items@.len() - i,
    {
        let level = match stacking_node(nodes, items[i]) {
            StackingNode::Context(level) => level,
            _ => 0,
        };
        levels.push(level);
        i = i + 1;
    }
    let (below_index, above_index) = stacking_layers(&levels);
    let ghost order = below_index@ + above_index@;
    proof {
        assert forall|j: int| 0 <= j < below_index@.len() implies #[trigger] below_index@[j] < items@.len() by {
            assert(order[j] == below_index@[j]);
        }
        assert forall|j: int| 0 <= j < above_index@.len() implies #[trigger] above_index@[j] < items@.len() by {
            assert(order[below_index@.len() + j] == above_index@[j]);
        }
    }
    let mut below: Vec<usize> = Vec::new();
    let mut k: usize = 0;
    while k < below_index.len()
        invariant
            k <= below_index@.len(),
            below@.len() == k,
            forall|j: int| 0 <= j < k ==> #[trigger] below@[j] == items@[below_index@[j] as int],
            forall|j: int| 0 <= j < below_index@.len() ==> #[trigger] below_index@[j] < items@.len(),
        decreases below_index@.len() - k,
    {
        below.push(items[below_index[k]]);
        k = k + 1;
    }
    let mut above: Vec<usize> = Vec::new();
    let mut k: usize = 0;
    while k < above_index.len()
        invariant
            k <= above_index@.len(),
            above@.len() == k,
            forall|j: int| 0 <= j < k ==> #[trigger] above@[j] == items@[above_index@[j] as int],
            forall|j: int| 0 <= j < above_index@.len() ==> #[trigger] above_index@[j] < items@.len(),
        decreases above_index@.len() - k,
    {
        above.push(items[above_index[k]]);
        k = k + 1;
    }
    proof {
        let result = below@ + above@;
        assert forall|k: int| 0 <= k < result.len() implies #[trigger] result[k] == items@[order[k] as int] by {
            if k < below@.len() {
            } else {
                assert(result[k] == above@[k - below@.len()]);
            }
        }
        assert forall|k: int| 0 <= k < result.len() implies is_stacking_item(*tree, nodes@, context as int, #[trigger] result[k] as int) by {
            assert(result[k] == items@[order[k] as int]);
            assert(items@.contains(items@[order[k] as int]));
        }
        assert forall|n: usize| is_stacking_item(*tree, nodes@, context as int, n as int) implies #[trigger] result.contains(n) by {
            assert(items@.contains(n));
            let i = choose|i: int| 0 <= i < items@.len() && items@[i] == n;
            lemma_stacking_order_complete(levels@, order, i);
            let k = choose|k: int| 0 <= k < order.len() && order[k] == i;
            assert(result[k] == n);
        }
        assert forall|k: int, l: int| 0 <= k < l < result.len() implies node_paints_before(nodes@, #[trigger] result[k] as int, #[trigger] result[l] as int) by {
            assert(paints_before(levels@, order[k] as int, order[l] as int));
            assert(result[k] == items@[order[k] as int]);
            assert(result[l] == items@[order[l] as int]);
        }
        assert forall|k: int| 0 <= k < below@.len() implies node_level(nodes@, #[trigger] below@[k] as int) < 0 by {
            assert(levels@[below_index@[k] as int] < 0);
        }
        assert forall|k: int| 0 <= k < above@.len() implies node_level(nodes@, #[trigger] above@[k] as int) >= 0 by {
            assert(levels@[above_index@[k] as int] >= 0);
        }
    }
    (below, above)
}

} // verus!
