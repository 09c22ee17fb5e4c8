//! The normal-flow paint walk over an element's children: runs of
//! inline-level children are painted together as inline groups (their
//! descendant decorations first, then the children), and every other child
//! is painted as a node of its own between them.
//!
//! Children that start stacking contexts are painted with their context and
//! skipped here; they do not break an inline run. A block-level child ends
//! the run before it. An absolutely positioned child whose rectangle a later
//! positioned sibling with text covers exactly is dropped, so that the
//! later overlay alone shows. The DOM is seen through a [`DocumentTree`].

use vstd::prelude::*;
use crate::document::DocumentTree;
use crate::document::child_list;
use crate::document::child_prefix;

verus! {

/// What one DOM node is to the inline-level test.
#[derive(Clone, Copy, Debug, PartialEq, Eq, Structural)]
pub enum FlowNode {
    Text,
    /// An element. `styled`: it has a computed style. `inline_level`:
    /// `display: inline` or `inline-block`. `plain_inline`: `display:
    /// inline`. `out_of_flow`: `position: absolute` or `fixed`.
    /// `display_none`: `display: none`.
    Element { styled: bool, inline_level: bool, plain_inline: bool, out_of_flow: bool, display_none: bool },
    /// A comment, a doctype or another non-element node.
    Other,
}

pub open spec fn flow_node_at(nodes: Seq<FlowNode>, n: int) -> FlowNode {
    if 0 <= n < nodes.len() {
        nodes[n]
    } else {
        FlowNode::Other
    }
}

/// A styled element with `display: none`.
pub open spec fn hidden_node(node: FlowNode) -> bool {
    match node {
        FlowNode::Element { styled, display_none, .. } => styled && display_none,
        _ => false,
    }
}

/// Node `n` is inline-level: text, or a styled inline or inline-block
/// element in flow, except an inline element with a child that is neither
/// inline-level nor `display: none` (a block inside an inline).
pub open spec fn inline_node(tree: DocumentTree, nodes: Seq<FlowNode>, n: int) -> bool
    decreases tree.len() - n, tree.len() + 1 - n,
{
    if 0 <= n < tree.len() {
        match flow_node_at(nodes, n) {
            FlowNode::Text => true,
            FlowNode::Element { styled, inline_level, plain_inline, out_of_flow, .. } => styled
                && inline_level && !out_of_flow && !(plain_inline && block_child_from(tree, nodes, n, n + 1)),
            FlowNode::Other => false,
        }
    } else {
        false
    }
}

/// Some child `c` of node `n`, from `from` on, is neither inline-level nor
/// `display: none`.
pub open spec fn block_child_from(tree: DocumentTree, nodes: Seq<FlowNode>, n: int, from: int) -> bool
    decreases tree.len() - n, tree.len() - from,
{
    if 0 <= n < from < tree.len() {
        (tree.spec_parents()[from] == Some(n as usize) && !inline_node(tree, nodes, from) && !hidden_node(
            flow_node_at(nodes, from),
        )) || block_child_from(tree, nodes, n, from + 1)
    } else {
        false
    }
}

fn flow_node(nodes: &Vec<FlowNode>, n: usize) -> (node: FlowNode)
    ensures
        node == flow_node_at(nodes@, n as int),
{
    if n < nodes.len() {
        nodes[n]
    } else {
        FlowNode::Other
    }
}

/// Whether each node is inline-level (`nodes[n]` describes node `n`).
pub fn inline_nodes(tree: &DocumentTree, nodes: &Vec<FlowNode>) -> (inline: Vec<bool>)
    ensures
        inline@.len() == tree.len(),
        forall|n: int| 0 <= n < inline@.len() ==> #[trigger] inline@[n] == inline_node(*tree, nodes@, n),
{
    let count = tree.node_count();
    let mut inline: Vec<bool> = Vec::new();
    let mut k: usize = 0;
    while k < count
        invariant
            k <= count,
            inline@.len() == k,
        decreases count - k,
    {
        inline.push(false);
        k = k + 1;
    }
    let mut n: usize = count;
    while n > 0
        invariant
            count == tree.len(),
            n <= count,
            inline@.len() == count,
            forall|j: int| n <= j < count ==> #[trigger] inline@[j] == inline_node(*tree, nodes@, j),
        decreases n,
    {
        n = n - 1;
        let here = match flow_node(nodes, n) {
            FlowNode::Text => true,
            FlowNode::Element { styled, inline_level, plain_inline, out_of_flow, .. } => {
                if !(styled && inline_level && !out_of_flow) {
                    false
                } else if !plain_inline {
                    true
                } else {
                    let mut found = false;
                    let mut c: usize = n + 1;
                    while c < count
                        invariant
                            count == tree.len(),
                            n < c <= count,
                            inline@.len() == count,
                            forall|j: int| n < j < count ==> #[trigger] inline@[j] == inline_node(*tree, nodes@, j),
                            block_child_from(*tree, nodes@, n as int, n + 1) == (found || block_child_from(
                                *tree,
                                nodes@,
                                n as int,
                                c as int,
                            )),
                        decreases count - c,
                    {
                        if tree.parent(c) == Some(n) && !inline[c] && !hidden(flow_node(nodes, c)) {
                            found = true;
                        }
                        c = c + 1;
                    }
                    !found
                }
            },
            FlowNode::Other => false,
        };
        assert(here == inline_node(*tree, nodes@, n as int));
        inline.set(n, here);
    }
    inline
}

fn hidden(node: FlowNode) -> (none: bool)
    ensures
        none == hidden_node(node),
{
    match node {
        FlowNode::Element { styled, display_none, .. } => styled && display_none,
        _ => false,
    }
}

// ----- the walk over one element's children ------------------------------

/// One step of the normal-flow walk, as the contracts see it.
pub enum PaintWalkStep {
    /// A run of inline-level children painted together, in order.
    Group(Seq<usize>),
    /// A child painted on its own.
    Node(usize),
}

/// One step of the normal-flow walk.
#[derive(Clone, Debug, PartialEq, Eq)]
pub enum PaintStep {
    InlineGroup(Vec<usize>),
    Node(usize),
}

impl View for PaintStep {
    type V = PaintWalkStep;

    open spec fn view(&self) -> PaintWalkStep {
        match self {
            PaintStep::InlineGroup(group) => PaintWalkStep::Group(group@),
            PaintStep::Node(node) => PaintWalkStep::Node(*node),
        }
    }
}

pub open spec fn view_steps(steps: Seq<PaintStep>) -> Seq<PaintWalkStep> {
    steps.map_values(|step: PaintStep| step@)
}

pub open spec fn flag_set(flags: Seq<bool>, n: usize) -> bool {
    n < flags.len() && flags[n as int]
}

/// The pending inline run as a step, if it holds any child.
pub open spec fn flush(pending: Seq<usize>) -> Seq<PaintWalkStep> {
    if pending.len() > 0 {
        seq![PaintWalkStep::Group(pending)]
    } else {
        seq![]
    }
}

/// The steps taken and the inline run pending after walking `children`.
pub open spec fn walk_state(
    tree: DocumentTree,
    nodes: Seq<FlowNode>,
    stacking_roots: Seq<bool>,
    covered: Seq<bool>,
    children: Seq<usize>,
) -> (Seq<PaintWalkStep>, Seq<usize>)
    decreases children.len(),
{
    if children.len() == 0 {
        (seq![], seq![])
    } else {
        let (steps, pending) = walk_state(tree, nodes, stacking_roots, covered, children.drop_last());
        let c = children.last();
        if flag_set(stacking_roots, c) {
            (steps, pending)
        } else if inline_node(tree, nodes, c as int) {
            (steps, pending.push(c))
        } else {
            (
                steps + flush(pending) + (if flag_set(covered, c) {
                    seq![]
                } else {
                    seq![PaintWalkStep::Node(c)]
                }),
                seq![],
            )
        }
    }
}

/// The whole walk over the children of `parent`.
pub open spec fn normal_paint_walk(
    tree: DocumentTree,
    nodes: Seq<FlowNode>,
    stacking_roots: Seq<bool>,
    covered: Seq<bool>,
    parent: usize,
) -> Seq<PaintWalkStep> {
    let (steps, pending) = walk_state(tree, nodes, stacking_roots, covered, child_list(tree, parent));
    steps + flush(pending)
}

/// The normal-flow paint walk over the children of `parent`.
/// `stacking_roots[n]`: node `n` starts a stacking context painted with that
/// context. `covered[n]`: node `n` is an absolutely positioned child whose
/// rectangle a later positioned sibling with text covers exactly.
pub fn normal_paint_steps(
    tree: &DocumentTree,
    nodes: &Vec<FlowNode>,
    stacking_roots: &Vec<bool>,
    covered: &Vec<bool>,
    parent: usize,
) -> (steps: Vec<PaintStep>)
    ensures
        view_steps(steps@) == normal_paint_walk(*tree, nodes@, stacking_roots@, covered@, parent),
{
    let inline = inline_nodes(tree, nodes);
    let count = tree.node_count();
    let mut steps: Vec<PaintStep> = Vec::new();
    let mut pending: Vec<usize> = Vec::new();
    let mut c: usize = 0;
    while c < count
        invariant
            count == tree.len(),
            c <= count,
            inline@.len() == count,
            forall|j: int| 0 <= j < count ==> #[trigger] inline@[j] == inline_node(*tree, nodes@, j),
            (view_steps(steps@), pending@) == walk_state(
                *tree,
                nodes@,
                stacking_roots@,
                covered@,
                child_prefix(*tree, parent, c as int),
            ),
        decreases count - c,
    {
        let ghost before = child_prefix(*tree, parent, c as int);
        let ghost pred = |x: usize| tree.spec_parents()[x as int] == Some(parent);
        proof {
            let all = Seq::new(c as nat, |i: int| i as usize);
            assert(Seq::new((c + 1) as nat, |i: int| i as usize) =~= all.push(c));
            all.lemma_filter_push(c, pred);
        }
        if tree.parent(c) == Some(parent) {
            let ghost after = before.push(c);
            proof {
                assert(child_prefix(*tree, parent, c + 1) == after);
                assert(after.drop_last() =~= before);
            }
            let root = c < stacking_roots.len() && stacking_roots[c];
            if root {
            } else if inline[c] {
                pending.push(c);
            } else {
                let ghost old_steps = view_steps(steps@);
                let ghost old_pending = pending@;
                if pending.len() > 0 {
                    let group = pending;
                    pending = Vec::new();
                    steps.push(PaintStep::InlineGroup(group));
                    proof {
                        assert(view_steps(steps@) =~= old_steps + flush(old_pending));
                    }
                } else {
                    assert(view_steps(steps@) =~= old_steps + flush(old_pending));
                }
                let ghost flushed = view_steps(steps@);
                if !(c < covered.len() && covered[c]) {
                    steps.push(PaintStep::Node(c));
                    proof {
                        assert(view_steps(steps@) =~= flushed + seq![PaintWalkStep::Node(c)]);
                    }
                } else {
                    assert(view_steps(steps@) =~= flushed + seq![]);
                }
                assert(pending@ =~= Seq::<usize>::empty());
            }
        } else {
            proof {
                assert(child_prefix(*tree, parent, c + 1) == before);
            }
        }
        c = c + 1;
    }
    let ghost old_steps = view_steps(steps@);
    let ghost old_pending = pending@;
    if pending.len() > 0 {
        steps.push(PaintStep::InlineGroup(pending));
        assert(view_steps(steps@) =~= old_steps + flush(old_pending));
    } else {
        assert(view_steps(steps@) =~= old_steps + flush(old_pending));
    }
    steps
}

// ----- what the walk paints -------------------------------------------------

/// The children a step paints, in order.
pub open spec fn step_children(step: PaintWalkStep) -> Seq<usize> {
    match step {
        PaintWalkStep::Group(group) => group,
        PaintWalkStep::Node(node) => seq![node],
    }
}

/// The children the steps paint, in order.
pub open spec fn painted_children(steps: Seq<PaintWalkStep>) -> Seq<usize>
    decreases steps.len(),
{
    if steps.len() == 0 {
        seq![]
    } else {
        painted_children(steps.drop_last()) + step_children(steps.last())
    }
}

/// The walk paints child `c` itself: it starts no stacking context, and it
/// is inline-level or not covered.
pub open spec fn painted_by_walk(
    tree: DocumentTree,
    nodes: Seq<FlowNode>,
    stacking_roots: Seq<bool>,
    covered: Seq<bool>,
    c: usize,
) -> bool {
    !flag_set(stacking_roots, c) && (inline_node(tree, nodes, c as int) || !flag_set(covered, c))
}

/// An inline group holds inline-level children and is never empty; a node
/// step is a child that is not inline-level; neither starts a stacking
/// context.
pub open spec fn well_shaped(
    tree: DocumentTree,
    nodes: Seq<FlowNode>,
    stacking_roots: Seq<bool>,
    step: PaintWalkStep,
) -> bool {
    match step {
        PaintWalkStep::Group(group) => group.len() > 0 && forall|k: int|
            0 <= k < group.len() ==> inline_node(tree, nodes, #[trigger] group[k] as int) && !flag_set(
                stacking_roots,
                group[k],
            ),
        PaintWalkStep::Node(node) => !inline_node(tree, nodes, node as int) && !flag_set(stacking_roots, node),
    }
}

proof fn lemma_painted_flush(pending: Seq<usize>)
    ensures
        painted_children(flush(pending)) == pending,
{
    if pending.len() > 0 {
        let steps = seq![PaintWalkStep::Group(pending)];
        assert(steps.drop_last() =~= Seq::<PaintWalkStep>::empty());
        assert(painted_children(Seq::<PaintWalkStep>::empty()) == Seq::<usize>::empty());
        assert(Seq::<usize>::empty() + pending =~= pending);
    } else {
        assert(painted_children(Seq::<PaintWalkStep>::empty()) =~= pending);
    }
}

proof fn lemma_painted_node(c: usize)
    ensures
        painted_children(seq![PaintWalkStep::Node(c)]) == seq![c],
{
    let steps = seq![PaintWalkStep::Node(c)];
    assert(steps.drop_last() =~= Seq::<PaintWalkStep>::empty());
    assert(painted_children(Seq::<PaintWalkStep>::empty()) == Seq::<usize>::empty());
    assert(Seq::<usize>::empty() + seq![c] =~= seq![c]);
}

proof fn lemma_painted_concat(a: Seq<PaintWalkStep>, b: Seq<PaintWalkStep>)
    ensures
        painted_children(a + b) == painted_children(a) + painted_children(b),
    decreases b.len(),
{
    if b.len() == 0 {
        assert(a + b =~= a);
        assert(painted_children(a) + painted_children(b) =~= painted_children(a));
    } else {
        lemma_painted_concat(a, b.drop_last());
        assert((a + b).drop_last() =~= a + b.drop_last());
        assert((a + b).last() == b.last());
        assert(painted_children(a + b) =~= painted_children(a) + painted_children(b));
    }
}

proof fn lemma_walk_state(
    tree: DocumentTree,
    nodes: Seq<FlowNode>,
    stacking_roots: Seq<bool>,
    covered: Seq<bool>,
    children: Seq<usize>,
)
    ensures
        ({
            let (steps, pending) = walk_state(tree, nodes, stacking_roots, covered, children);
            &&& painted_children(steps) + pending == children.filter(
                |c: usize| painted_by_walk(tree, nodes, stacking_roots, covered, c),
            )
            &&& forall|k: int| 0 <= k < steps.len() ==> well_shaped(tree, nodes, stacking_roots, #[trigger] steps[k])
            &&& forall|k: int|
                0 <= k < pending.len() ==> inline_node(tree, nodes, #[trigger] pending[k] as int) && !flag_set(
                    stacking_roots,
                    pending[k],
                )
        }),
    decreases children.len(),
{
    let pred = |c: usize| painted_by_walk(tree, nodes, stacking_roots, covered, c);
    if children.len() == 0 {
        reveal(Seq::filter);
        assert(painted_children(seq![]) + seq![] =~= children.filter(pred));
    } else {
        let init = children.drop_last();
        let c = children.last();
        lemma_walk_state(tree, nodes, stacking_roots, covered, init);
        assert(init.push(c) =~= children);
        init.lemma_filter_push(c, pred);
        let (steps, pending) = walk_state(tree, nodes, stacking_roots, covered, init);
        if flag_set(stacking_roots, c) {
        } else if inline_node(tree, nodes, c as int) {
            assert(painted_children(steps) + pending.push(c) =~= (painted_children(steps) + pending).push(c));
        } else {
            let tail = if flag_set(covered, c) {
                seq![]
            } else {
                seq![PaintWalkStep::Node(c)]
            };
            lemma_painted_concat(steps, flush(pending));
            lemma_painted_concat(steps + flush(pending), tail);
            lemma_painted_flush(pending);
            if !flag_set(covered, c) {
                lemma_painted_node(c);
            } else {
                assert(painted_children(tail) =~= Seq::<usize>::empty());
            }
            let after = steps + flush(pending) + tail;
            assert forall|k: int| 0 <= k < after.len() implies well_shaped(tree, nodes, stacking_roots, #[trigger] after[k]) by {
                if k < steps.len() {
                    assert(after[k] == steps[k]);
                } else if k < steps.len() + flush(pending).len() {
                    assert(after[k] == PaintWalkStep::Group(pending));
                } else {
                    assert(after[k] == PaintWalkStep::Node(c));
                }
            }
            assert(painted_children(after) + seq![] =~= painted_children(after));
        }
    }
}

/// The walk paints every child of `parent` that starts no stacking context
/// and is not a covered overlay exactly once, in document order; its inline
/// groups are nonempty runs of inline-level children, and every other child
/// it paints is painted on its own.
pub proof fn law_walk_paints_each_child_once_in_order(
    tree: DocumentTree,
    nodes: Seq<FlowNode>,
    stacking_roots: Seq<bool>,
    covered: Seq<bool>,
    parent: usize,
)
    ensures
        painted_children(normal_paint_walk(tree, nodes, stacking_roots, covered, parent)) == child_list(
            tree,
            parent,
        ).filter(|c: usize| painted_by_walk(tree, nodes, stacking_roots, covered, c)),
        forall|k: int|
            0 <= k < normal_paint_walk(tree, nodes, stacking_roots, covered, parent).len() ==> well_shaped(
                tree,
                nodes,
                stacking_roots,
                #[trigger] normal_paint_walk(tree, nodes, stacking_roots, covered, parent)[k],
            ),
{
    let children = child_list(tree, parent);
    lemma_walk_state(tree, nodes, stacking_roots, covered, children);
    let (steps, pending) = walk_state(tree, nodes, stacking_roots, covered, children);
    lemma_painted_concat(steps, flush(pending));
    lemma_painted_flush(pending);
    let all = steps + flush(pending);
    assert forall|k: int| 0 <= k < all.len() implies well_shaped(tree, nodes, stacking_roots, #[trigger] all[k]) by {
        if k < steps.len() {
            assert(all[k] == steps[k]);
        } else {
            assert(all[k] == PaintWalkStep::Group(pending));
        }
    }
}

// ----- decorations of an inline group ------------------------------------

/// Node `n` paints its inline decoration within its group: it starts no
/// stacking context, its first line is the group's first line
/// (`other_line[n]` is false), and it is a styled element that is
/// displayed.
pub open spec fn decorates(nodes: Seq<FlowNode>, stacking_roots: Seq<bool>, other_line: Seq<bool>, n: usize) -> bool {
    !flag_set(stacking_roots, n) && !flag_set(other_line, n) && match flow_node_at(nodes, n as int) {
        FlowNode::Element { styled, display_none, .. } => styled && !display_none,
        _ => false,
    }
}

pub open spec fn plain_inline_node(nodes: Seq<FlowNode>, n: usize) -> bool {
    match flow_node_at(nodes, n as int) {
        FlowNode::Element { plain_inline, .. } => plain_inline,
        _ => false,
    }
}

/// The decoration walk from the group member `root` reaches node `m`: `m`
/// is the member, or an inline-level child of a reached `display: inline`
/// element that decorates.
pub open spec fn decoration_reaches(
    tree: DocumentTree,
    nodes: Seq<FlowNode>,
    stacking_roots: Seq<bool>,
    other_line: Seq<bool>,
    root: int,
    m: int,
) -> bool
    decreases m,
{
    if m == root {
        true
    } else if m < root || m >= tree.len() {
        false
    } else {
        inline_node(tree, nodes, m) && match tree.spec_parents()[m] {
            Some(p) => p < m && decoration_reaches(tree, nodes, stacking_roots, other_line, root, p as int)
                && decorates(nodes, stacking_roots, other_line, p) && plain_inline_node(nodes, p),
            None => false,
        }
    }
}

/// The elements whose inline decorations a group member `root` paints
/// before the group's content: itself and, through `display: inline`
/// elements, its inline-level descendants on the group's first line, in
/// document order.
pub fn inline_decoration_order(
    tree: &DocumentTree,
    nodes: &Vec<FlowNode>,
    stacking_roots: &Vec<bool>,
    other_line: &Vec<bool>,
    root: usize,
) -> (decorated: Vec<usize>)
    ensures
        forall|n: usize| #[trigger]
            decorated@.contains(n) <==> (root <= n < tree.len() && decoration_reaches(
                *tree,
                nodes@,
                stacking_roots@,
                other_line@,
                root as int,
                n as int,
            ) && decorates(nodes@, stacking_roots@, other_line@, n)),
        forall|a: int, b: int| 0 <= a < b < decorated@.len() ==> #[trigger] decorated@[a] < #[trigger] decorated@[b],
{
    let inline = inline_nodes(tree, nodes);
    let count = tree.node_count();
    let mut reached: Vec<bool> = Vec::new();
    let mut opens: Vec<bool> = Vec::new();
    let mut decorated: Vec<usize> = Vec::new();
    let mut n: usize = 0;
    while n < count
        invariant
            count == tree.len(),
            n <= count,
            inline@.len() == count,
            forall|j: int| 0 <= j < count ==> #[trigger] inline@[j] == inline_node(*tree, nodes@, j),
            reached@.len() == n,
            opens@.len() == n,
            forall|j: int| 0 <= j < n ==> #[trigger] reached@[j] == decoration_reaches(
                *tree,
                nodes@,
                stacking_roots@,
                other_line@,
                root as int,
                j,
            ),
            forall|j: int| 0 <= j < n ==> #[trigger] opens@[j] == (reached@[j] && decorates(
                nodes@,
                stacking_roots@,
                other_line@,
                j as usize,
            ) && plain_inline_node(nodes@, j as usize)),
            forall|m: usize| #[trigger]
                decorated@.contains(m) <==> (root <= m < n && decoration_reaches(
                    *tree,
                    nodes@,
                    stacking_roots@,
                    other_line@,
                    root as int,
                    m as int,
                ) && decorates(nodes@, stacking_roots@, other_line@, m)),
            forall|j: int| 0 <= j < decorated@.len() ==> #[trigger] decorated@[j] < n,
            forall|a: int, b: int| 0 <= a < b < decorated@.len() ==> #[trigger] decorated@[a] < #[trigger] decorated@[b],
        decreases count - n,
    {
        let here = if n == root {
            true
        } else if n < root {
            false
        } else {
            inline[n] && match tree.parent(n) {
                Some(p) => opens[p],
                None => false,
            }
        };
        assert(here == decoration_reaches(*tree, nodes@, stacking_roots@, other_line@, root as int, n as int));
        let node = flow_node(nodes, n);
        let shows = !(n < stacking_roots.len() && stacking_roots[n]) && !(n < other_line.len() && other_line[n])
            && match node {
            FlowNode::Element { styled, display_none, .. } => styled && !display_none,
            _ => false,
        };
        let plain = match node {
            FlowNode::Element { plain_inline, .. } => plain_inline,
            _ => false,
        };
        let ghost prior = decorated@;
        if here && shows && n >= root {
            decorated.push(n);
        }
        proof {
            broadcast use vstd::seq_lib::group_seq_properties;
            assert forall|m: usize| #[trigger] decorated@.contains(m) <==> (root <= m < n + 1 && decoration_reaches(
                *tree,
                nodes@,
                stacking_roots@,
                other_line@,
                root as int,
                m as int,
            ) && decorates(nodes@, stacking_roots@, other_line@, m)) by {
                if prior.contains(m) {
                    let j = choose|j: int| 0 <= j < prior.len() && prior[j] == m;
                    assert(prior[j] < n);
                }
            }
        }
        reached.push(here);
        opens.push(here && shows && plain);
        n = n + 1;
    }
    decorated
}

} // verus!

