//! Retained-document decisions: layout damage bookkeeping over the DOM's
//! ancestor relation, focus and link targets, click outcomes, and the
//! layout counters and errors the document reports.
//!
//! The DOM is seen through a [`DocumentTree`]: nodes numbered in document
//! order (a pre-order walk from the document node, which is node 0), each
//! with the number of its parent. Document order puts every parent before
//! its children.

use vstd::prelude::*;
use crate::text::eq_ascii_case_insensitive;
use crate::text::eq_ignore_ascii_case;

verus! {

/// The parent links of a DOM numbered in document order.
pub struct DocumentTree {
    parent: Vec<Option<usize>>,
}

impl DocumentTree {
    /// Parents precede their children in document order.
    #[verifier::type_invariant]
    closed spec fn parents_precede(self) -> bool {
        forall|i: int| 0 <= i < self.parent@.len() ==> (#[trigger] self.parent@[i] matches Some(p)
            ==> p < i)
    }

    pub closed spec fn spec_parents(self) -> Seq<Option<usize>> {
        self.parent@
    }

    pub open spec fn len(self) -> nat {
        self.spec_parents().len()
    }

    /// Every parent link points to an earlier node.
    pub open spec fn well_formed(self) -> bool {
        forall|i: int| 0 <= i < self.len() ==> (#[trigger] self.spec_parents()[i] matches Some(p)
            ==> p < i)
    }

    /// The tree from each node's parent; `None` when some node's parent
    /// does not precede it in document order.
    pub fn from_parents(parent: Vec<Option<usize>>) -> (tree: Option<DocumentTree>)
        ensures
            tree is Some <==> forall|i: int| 0 <= i < parent@.len() ==> (#[trigger] parent@[i] matches Some(p) ==> p < i),
            tree matches Some(t) ==> t.spec_parents() == parent@,
    {
        let mut i: usize = 0;
        while i < parent.len()
            invariant
                i <= parent@.len(),
                forall|j: int| 0 <= j < i ==> (#[trigger] parent@[j] matches Some(p) ==> p < j),
            decreases parent@.len() - i,
        {
            if let Some(p) = parent[i] {
                if p >= i {
                    return None;
                }
            }
            i = i + 1;
        }
        Some(DocumentTree { parent })
    }

    pub fn node_count(&self) -> (n: usize)
        ensures
            n == self.len(),
            self.well_formed(),
    {
        proof {
            use_type_invariant(self);
        }
        self.parent.len()
    }

    /// The parent of a node; `None` for the document node and for numbers
    /// outside the tree.
    pub fn parent(&self, node: usize) -> (parent: Option<usize>)
        ensures
            parent == (if node < self.len() {
                self.spec_parents()[node as int]
            } else {
                None
            }),
            parent matches Some(p) ==> p < node,
            self.well_formed(),
    {
        proof {
            use_type_invariant(self);
        }
        if node < self.parent.len() {
            self.parent[node]
        } else {
            None
        }
    }

    /// Whether `ancestor` is `node` or one of its ancestors.
    pub open spec fn is_ancestor(self, ancestor: usize, node: usize) -> bool
        decreases node,
    {
        if ancestor == node {
            true
        } else if node < self.len() {
            match self.spec_parents()[node as int] {
                Some(p) => if p < node {
                    self.is_ancestor(ancestor, p)
                } else {
                    false
                },
                None => false,
            }
        } else {
            false
        }
    }

    /// Walk the parent chain of `node` looking for `ancestor`.
    pub fn is_dom_ancestor(&self, ancestor: usize, node: usize) -> (found: bool)
        ensures
            found == self.is_ancestor(ancestor, node),
    {
        proof {
            use_type_invariant(self);
        }
        let mut current = node;
        loop
            invariant
                self.well_formed(),
                self.is_ancestor(ancestor, node) == self.is_ancestor(ancestor, current),
            decreases current,
        {
            if current == ancestor {
                return true;
            }
            match self.parent(current) {
                Some(p) => current = p,
                None => return false,
            }
        }
    }
}

/// An ancestor of an ancestor is an ancestor.
pub proof fn law_ancestor_transitive(tree: DocumentTree, a: usize, b: usize, c: usize)
    requires
        tree.is_ancestor(a, b),
        tree.is_ancestor(b, c),
    ensures
        tree.is_ancestor(a, c),
    decreases c,
{
    if b != c {
        let p = tree.spec_parents()[c as int]->0;
        law_ancestor_transitive(tree, a, b, p);
    }
}

/// In a well-formed tree an ancestor never comes after its descendant, so
/// two distinct nodes are never each other's ancestors.
pub proof fn law_ancestor_antisymmetric(tree: DocumentTree, a: usize, b: usize)
    requires
        tree.is_ancestor(a, b),
        tree.is_ancestor(b, a),
    ensures
        a == b,
{
    lemma_ancestor_precedes(tree, a, b);
    lemma_ancestor_precedes(tree, b, a);
}

proof fn lemma_ancestor_precedes(tree: DocumentTree, a: usize, b: usize)
    requires
        tree.is_ancestor(a, b),
    ensures
        a <= b,
    decreases b,
{
    if a != b {
        let p = tree.spec_parents()[b as int]->0;
        lemma_ancestor_precedes(tree, a, p);
    }
}

} // verus!

verus! {

/// The nodes of the subtree at `root`, in document order.
pub fn nodes_in_subtree(tree: &DocumentTree, root: usize) -> (nodes: Vec<usize>)
    ensures
        forall|n: usize| #[trigger] nodes@.contains(n) <==> n < tree.len() && tree.is_ancestor(root, n),
        forall|a: int, b: int| 0 <= a < b < nodes@.len() ==> #[trigger] nodes@[a] < #[trigger] nodes@[b],
{
    let mut nodes: Vec<usize> = Vec::new();
    let count = tree.node_count();
    let mut n: usize = 0;
    while n < count
        invariant
            count == tree.len(),
            n <= count,
            forall|m: usize| #[trigger] nodes@.contains(m) <==> m < n && tree.is_ancestor(root, m),
            forall|j: int| 0 <= j < nodes@.len() ==> #[trigger] nodes@[j] < n,
            forall|a: int, b: int| 0 <= a < b < nodes@.len() ==> #[trigger] nodes@[a] < #[trigger] nodes@[b],
        decreases count - n,
    {
        let ghost prior = nodes@;
        if tree.is_dom_ancestor(root, n) {
            nodes.push(n);
        }
        proof {
            broadcast use vstd::seq_lib::group_seq_properties;
            assert forall|m: usize| #[trigger] nodes@.contains(m) <==> m < n + 1 && tree.is_ancestor(root, m) by {
                if prior.contains(m) {
                    let j = choose|j: int| 0 <= j < prior.len() && prior[j] == m;
                    assert(prior[j] < n);
                }
            }
        }
        n = n + 1;
    }
    nodes
}

/// The text nodes of the document, in document order (`is_text[n]` tells
/// whether node `n` is a text node).
pub fn text_sources_in_dom_order(tree: &DocumentTree, is_text: &Vec<bool>) -> (sources: Vec<usize>)
    ensures
        forall|n: usize| #[trigger] sources@.contains(n) <==> n < tree.len() && flag_at(is_text@, n),
        forall|a: int, b: int| 0 <= a < b < sources@.len() ==> #[trigger] sources@[a] < #[trigger] sources@[b],
{
    let mut sources: Vec<usize> = Vec::new();
    let count = tree.node_count();
    let mut n: usize = 0;
    while n < count
        invariant
            count == tree.len(),
            n <= count,
            forall|m: usize| #[trigger] sources@.contains(m) <==> m < n && flag_at(is_text@, m),
            forall|j: int| 0 <= j < sources@.len() ==> #[trigger] sources@[j] < n,
            forall|a: int, b: int| 0 <= a < b < sources@.len() ==> #[trigger] sources@[a] < #[trigger] sources@[b],
        decreases count - n,
    {
        let ghost prior = sources@;
        if n < is_text.len() && is_text[n] {
            sources.push(n);
        }
        proof {
            broadcast use vstd::seq_lib::group_seq_properties;
            assert forall|m: usize| #[trigger] sources@.contains(m) <==> m < n + 1 && flag_at(is_text@, m) by {
                if prior.contains(m) {
                    let j = choose|j: int| 0 <= j < prior.len() && prior[j] == m;
                    assert(prior[j] < n);
                }
            }
        }
        n = n + 1;
    }
    sources
}

/// A node that is a link target: an element with an `href` (`hrefs[n]`)
/// that has a fragment and is displayed, visible and takes pointer events
/// (`eligible[n]`).
pub open spec fn link_target_at(hrefs: Seq<Option<String>>, eligible: Seq<bool>, n: usize) -> bool {
    n < hrefs.len() && hrefs[n as int] is Some && flag_at(eligible, n)
}

/// The link targets of the document, in document order; the host gives
/// each its viewport rectangle.
pub fn link_targets_in_dom_order(tree: &DocumentTree, hrefs: &Vec<Option<String>>, eligible: &Vec<bool>) -> (targets: Vec<usize>)
    ensures
        forall|n: usize| #[trigger] targets@.contains(n) <==> n < tree.len() && link_target_at(hrefs@, eligible@, n),
        forall|a: int, b: int| 0 <= a < b < targets@.len() ==> #[trigger] targets@[a] < #[trigger] targets@[b],
{
    let mut targets: Vec<usize> = Vec::new();
    let count = tree.node_count();
    let mut n: usize = 0;
    while n < count
        invariant
            count == tree.len(),
            n <= count,
            forall|m: usize| #[trigger] targets@.contains(m) <==> m < n && link_target_at(hrefs@, eligible@, m),
            forall|j: int| 0 <= j < targets@.len() ==> #[trigger] targets@[j] < n,
            forall|a: int, b: int| 0 <= a < b < targets@.len() ==> #[trigger] targets@[a] < #[trigger] targets@[b],
        decreases count - n,
    {
        let ghost prior = targets@;
        if n < hrefs.len() && hrefs[n].is_some() && n < eligible.len() && eligible[n] {
            targets.push(n);
        }
        proof {
            broadcast use vstd::seq_lib::group_seq_properties;
            assert forall|m: usize| #[trigger] targets@.contains(m) <==> m < n + 1 && link_target_at(hrefs@, eligible@, m) by {
                if prior.contains(m) {
                    let j = choose|j: int| 0 <= j < prior.len() && prior[j] == m;
                    assert(prior[j] < n);
                }
            }
        }
        n = n + 1;
    }
    targets
}

/// Some damage root is the node or one of its ancestors.
pub open spec fn covers(tree: DocumentTree, roots: Seq<usize>, node: usize) -> bool {
    exists|r: usize| #[trigger] roots.contains(r) && tree.is_ancestor(r, node)
}

/// No damage root is an ancestor of another: each subtree is named once.
pub open spec fn is_antichain(tree: DocumentTree, roots: Seq<usize>) -> bool {
    forall|a: usize, b: usize|
        #![trigger roots.contains(a), roots.contains(b)]
        roots.contains(a) && roots.contains(b) && a != b ==> !tree.is_ancestor(a, b)
}

/// The roots that `candidate` is not an ancestor of, in their order.
pub open spec fn without_descendants(tree: DocumentTree, roots: Seq<usize>, candidate: usize) -> Seq<usize>
    decreases roots.len(),
{
    if roots.len() == 0 {
        seq![]
    } else {
        let rest = without_descendants(tree, roots.drop_last(), candidate);
        if tree.is_ancestor(candidate, roots.last()) {
            rest
        } else {
            rest.push(roots.last())
        }
    }
}

/// Adding a damage root: nothing changes when an existing root already
/// covers the candidate; otherwise the roots it covers give way to it.
pub open spec fn with_damage_root(tree: DocumentTree, roots: Seq<usize>, candidate: usize) -> Seq<usize> {
    if exists|i: int| 0 <= i < roots.len() && tree.is_ancestor(#[trigger] roots[i], candidate) {
        roots
    } else {
        without_descendants(tree, roots, candidate).push(candidate)
    }
}

proof fn lemma_without_descendants_contains(tree: DocumentTree, roots: Seq<usize>, candidate: usize, x: usize)
    ensures
        without_descendants(tree, roots, candidate).contains(x) <==> roots.contains(x)
            && !tree.is_ancestor(candidate, x),
    decreases roots.len(),
{
    broadcast use vstd::seq_lib::group_seq_properties;

    if roots.len() > 0 {
        let rest = roots.drop_last();
        let last = roots.last();
        lemma_without_descendants_contains(tree, rest, candidate, x);
        assert(roots =~= rest.push(last));
        assert(roots.contains(x) <==> rest.contains(x) || x == last);
    }
}

/// Record `candidate` as damaged in `roots`, keeping one root per damaged
/// subtree.
pub fn insert_damage_root(tree: &DocumentTree, roots: &mut Vec<usize>, candidate: usize)
    ensures
        final(roots)@ == with_damage_root(*tree, old(roots)@, candidate),
{
    let mut i: usize = 0;
    while i < roots.len()
        invariant
            i <= roots@.len(),
            forall|j: int| 0 <= j < i ==> !tree.is_ancestor(#[trigger] roots@[j], candidate),
        decreases roots@.len() - i,
    {
        if tree.is_dom_ancestor(roots[i], candidate) {
            return;
        }
        i = i + 1;
    }
    let ghost original = roots@;
    let mut kept: Vec<usize> = Vec::new();
    let mut k: usize = 0;
    while k < roots.len()
        invariant
            roots@ == original,
            k <= roots@.len(),
            kept@ == without_descendants(*tree, original.take(k as int), candidate),
        decreases roots@.len() - k,
    {
        proof {
            assert(original.take(k + 1).drop_last() =~= original.take(k as int));
        }
        if !tree.is_dom_ancestor(candidate, roots[k]) {
            kept.push(roots[k]);
        }
        k = k + 1;
    }
    assert(original.take(original.len() as int) =~= original);
    kept.push(candidate);
    *roots = kept;
}

/// After a root is added, the candidate is covered; every node covered
/// before is still covered; and if no root was an ancestor of another
/// before, none is after.
pub proof fn law_damage_root_insertion(tree: DocumentTree, roots: Seq<usize>, candidate: usize, node: usize)
    ensures
        covers(tree, with_damage_root(tree, roots, candidate), candidate),
        covers(tree, roots, node) ==> covers(tree, with_damage_root(tree, roots, candidate), node),
        is_antichain(tree, roots) ==> is_antichain(tree, with_damage_root(tree, roots, candidate)),
{
    let after = with_damage_root(tree, roots, candidate);
    if exists|i: int| 0 <= i < roots.len() && tree.is_ancestor(#[trigger] roots[i], candidate) {
        let i = choose|i: int| 0 <= i < roots.len() && tree.is_ancestor(#[trigger] roots[i], candidate);
        assert(roots.contains(roots[i]));
    } else {
        let kept = without_descendants(tree, roots, candidate);
        assert(after == kept.push(candidate));
        assert(after.contains(candidate)) by {
            assert(after[kept.len() as int] == candidate);
        }
        assert forall|x: usize| after.contains(x) implies x == candidate || (roots.contains(x)
            && !tree.is_ancestor(candidate, x)) by {
            if x != candidate {
                let i = choose|i: int| 0 <= i < after.len() && after[i] == x;
                assert(kept[i] == x);
                lemma_without_descendants_contains(tree, roots, candidate, x);
            }
        }
        if covers(tree, roots, node) {
            let r = choose|r: usize| #[trigger] roots.contains(r) && tree.is_ancestor(r, node);
            lemma_without_descendants_contains(tree, roots, candidate, r);
            if tree.is_ancestor(candidate, r) {
                law_ancestor_transitive(tree, candidate, r, node);
                assert(after.contains(candidate) && tree.is_ancestor(candidate, node));
            } else {
                assert(kept.contains(r));
                let i = choose|i: int| 0 <= i < kept.len() && kept[i] == r;
                assert(after[i] == r);
                assert(after.contains(r));
            }
        }
        if is_antichain(tree, roots) {
            assert forall|a: usize, b: usize|
                #![trigger after.contains(a), after.contains(b)]
                after.contains(a) && after.contains(b) && a != b implies !tree.is_ancestor(a, b) by {
                if a == candidate {
                    lemma_without_descendants_contains(tree, roots, candidate, b);
                } else if b == candidate {
                    if tree.is_ancestor(a, candidate) {
                        let i = choose|i: int| 0 <= i < roots.len() && roots[i] == a;
                        assert(tree.is_ancestor(roots[i], candidate));
                    }
                } else {
                    assert(roots.contains(a) && roots.contains(b));
                }
            }
        }
    }
}

} // verus!

verus! {

/// The event class that invalidated retained layout geometry.
#[derive(Clone, Copy, Debug, PartialEq, Eq, Structural)]
pub enum LayoutDamageKind {
    Dom,
    Stylesheet,
    Device,
    Resource,
    Interaction,
    Viewport,
}

/// Conservative formatting-context candidates for the next retained-layout
/// replacement.
#[derive(Debug)]
pub struct LayoutDamage<Id> {
    pub kind: LayoutDamageKind,
    pub roots: Vec<Id>,
    pub full_document: bool,
}

/// One recorded DOM mutation, by the nodes whose children or data changed.
#[derive(Clone, Copy, Debug, PartialEq, Eq, Structural)]
pub enum DomMutation {
    Inserted { parent: usize },
    Removed { former_parent: usize },
    SubtreeReplaced { node: usize },
    AttributeChanged { node: usize },
    CharacterDataChanged { node: usize },
    Moved { from_parent: usize, to_parent: usize },
}

/// Damage that names the whole document.
pub fn record_full_layout_damage(kind: LayoutDamageKind) -> (damage: LayoutDamage<usize>)
    ensures
        damage.kind == kind,
        damage.roots@ == seq![0usize],
        damage.full_document,
{
    let mut roots: Vec<usize> = Vec::new();
    roots.push(0);
    LayoutDamage { kind, roots, full_document: true }
}

pub open spec fn flag_at(flags: Seq<bool>, node: usize) -> bool {
    node < flags.len() && flags[node as int]
}

/// The nearest node, starting at `node` and walking up, that establishes
/// a formatting context; the document node when none does.
pub open spec fn nearest_formatting_root(tree: DocumentTree, flags: Seq<bool>, node: usize) -> usize
    decreases node,
{
    if flag_at(flags, node) {
        node
    } else if node < tree.len() {
        match tree.spec_parents()[node as int] {
            Some(p) => if p < node {
                nearest_formatting_root(tree, flags, p)
            } else {
                0
            },
            None => 0,
        }
    } else {
        0
    }
}

pub open spec fn damage_root_for(tree: DocumentTree, formatting: Option<Seq<bool>>, node: usize) -> usize {
    match formatting {
        Some(flags) => nearest_formatting_root(tree, flags, node),
        None => 0,
    }
}

pub open spec fn opt_flags(formatting: Option<&Vec<bool>>) -> Option<Seq<bool>> {
    match formatting {
        Some(f) => Some(f@),
        None => None,
    }
}

/// The node whose formatting context a change at `node` damages: with no
/// retained layout, the document; otherwise the nearest node, from `node`
/// up, whose generated boxes establish a formatting context
/// (`formatting[n]`), or the document when there is none.
pub fn formatting_damage_root(tree: &DocumentTree, formatting: Option<&Vec<bool>>, node: usize) -> (root: usize)
    ensures
        root == damage_root_for(*tree, opt_flags(formatting), node),
{
    let flags = match formatting {
        Some(flags) => flags,
        None => return 0,
    };
    proof {
        use_type_invariant(tree);
    }
    let mut current = node;
    loop
        invariant
            tree.well_formed(),
            opt_flags(formatting) == Some(flags@),
            nearest_formatting_root(*tree, flags@, node) == nearest_formatting_root(*tree, flags@, current),
        decreases current,
    {
        if current < flags.len() && flags[current] {
            return current;
        }
        match tree.parent(current) {
            Some(p) => current = p,
            None => return 0,
        }
    }
}

/// The damage roots a mutation batch leaves, folded in order from none.
pub open spec fn damage_roots(tree: DocumentTree, formatting: Option<Seq<bool>>, mutations: Seq<DomMutation>) -> Seq<usize>
    decreases mutations.len(),
{
    if mutations.len() == 0 {
        seq![]
    } else {
        let before = damage_roots(tree, formatting, mutations.drop_last());
        match mutations.last() {
            DomMutation::Inserted { parent } => with_damage_root(tree, before, damage_root_for(tree, formatting, parent)),
            DomMutation::Removed { former_parent } => with_damage_root(tree, before, damage_root_for(tree, formatting, former_parent)),
            DomMutation::SubtreeReplaced { node } => with_damage_root(tree, before, damage_root_for(tree, formatting, node)),
            DomMutation::AttributeChanged { node } => with_damage_root(tree, before, damage_root_for(tree, formatting, node)),
            DomMutation::CharacterDataChanged { node } => {
                let parent = if node < tree.len() && tree.spec_parents()[node as int] is Some {
                    tree.spec_parents()[node as int]->0
                } else {
                    node
                };
                with_damage_root(tree, before, damage_root_for(tree, formatting, parent))
            },
            DomMutation::Moved { from_parent, to_parent } => with_damage_root(
                tree,
                with_damage_root(tree, before, damage_root_for(tree, formatting, from_parent)),
                damage_root_for(tree, formatting, to_parent),
            ),
        }
    }
}

/// The DOM damage of a mutation batch: each mutated parent contributes the
/// formatting root that encloses it, one root per damaged subtree.
pub fn record_dom_layout_damage(tree: &DocumentTree, formatting: Option<&Vec<bool>>, mutations: &Vec<DomMutation>) -> (damage: LayoutDamage<usize>)
    ensures
        damage.kind == LayoutDamageKind::Dom,
        !damage.full_document,
        damage.roots@ == damage_roots(*tree, opt_flags(formatting), mutations@),
{
    let mut roots: Vec<usize> = Vec::new();
    let mut i: usize = 0;
    while i < mutations.len()
        invariant
            i <= mutations@.len(),
            roots@ == damage_roots(*tree, opt_flags(formatting), mutations@.take(i as int)),
        decreases mutations@.len() - i,
    {
        proof {
            assert(mutations@.take(i + 1).drop_last() =~= mutations@.take(i as int));
        }
        match mutations[i] {
            DomMutation::Inserted { parent }
            | DomMutation::Removed { former_parent: parent }
            | DomMutation::SubtreeReplaced { node: parent }
            | DomMutation::AttributeChanged { node: parent } => {
                let root = formatting_damage_root(tree, formatting, parent);
                insert_damage_root(tree, &mut roots, root);
            },
            DomMutation::CharacterDataChanged { node } => {
                let parent = match tree.parent(node) {
                    Some(p) => p,
                    None => node,
                };
                let root = formatting_damage_root(tree, formatting, parent);
                insert_damage_root(tree, &mut roots, root);
            },
            DomMutation::Moved { from_parent, to_parent } => {
                let from_root = formatting_damage_root(tree, formatting, from_parent);
                insert_damage_root(tree, &mut roots, from_root);
                let to_root = formatting_damage_root(tree, formatting, to_parent);
                insert_damage_root(tree, &mut roots, to_root);
            },
        }
        i = i + 1;
    }
    assert(mutations@.take(mutations@.len() as int) =~= mutations@);
    LayoutDamage { kind: LayoutDamageKind::Dom, roots, full_document: false }
}

} // verus!

verus! {

/// The formatting roots one mutation damages, in the order they are added.
pub open spec fn mutation_damage(tree: DocumentTree, formatting: Option<Seq<bool>>, mutation: DomMutation) -> Seq<usize> {
    match mutation {
        DomMutation::Inserted { parent } => seq![damage_root_for(tree, formatting, parent)],
        DomMutation::Removed { former_parent } => seq![damage_root_for(tree, formatting, former_parent)],
        DomMutation::SubtreeReplaced { node } => seq![damage_root_for(tree, formatting, node)],
        DomMutation::AttributeChanged { node } => seq![damage_root_for(tree, formatting, node)],
        DomMutation::CharacterDataChanged { node } => {
            let parent = if node < tree.len() && tree.spec_parents()[node as int] is Some {
                tree.spec_parents()[node as int]->0
            } else {
                node
            };
            seq![damage_root_for(tree, formatting, parent)]
        },
        DomMutation::Moved { from_parent, to_parent } => seq![
            damage_root_for(tree, formatting, from_parent),
            damage_root_for(tree, formatting, to_parent),
        ],
    }
}

/// The damage recorded for a mutation batch names each damaged subtree
/// once (no root is an ancestor of another) and covers the formatting root
/// of every mutation in the batch.
pub proof fn law_dom_damage_roots(tree: DocumentTree, formatting: Option<Seq<bool>>, mutations: Seq<DomMutation>)
    ensures
        is_antichain(tree, damage_roots(tree, formatting, mutations)),
        forall|i: int, j: int|
            0 <= i < mutations.len() && 0 <= j < mutation_damage(tree, formatting, mutations[i]).len() ==> covers(
                tree,
                damage_roots(tree, formatting, mutations),
                #[trigger] mutation_damage(tree, formatting, mutations[i])[j],
            ),
    decreases mutations.len(),
{
    if mutations.len() == 0 {
        assert(is_antichain(tree, seq![]));
    } else {
        let rest = mutations.drop_last();
        law_dom_damage_roots(tree, formatting, rest);
        let before = damage_roots(tree, formatting, rest);
        let last = mutations.last();
        let cands = mutation_damage(tree, formatting, last);
        let after = damage_roots(tree, formatting, mutations);
        if cands.len() == 1 {
            law_damage_root_insertion(tree, before, cands[0], cands[0]);
            assert(after == with_damage_root(tree, before, cands[0]));
            assert forall|i: int, j: int|
                0 <= i < mutations.len() && 0 <= j < mutation_damage(tree, formatting, mutations[i]).len() implies covers(
                    tree,
                    after,
                    #[trigger] mutation_damage(tree, formatting, mutations[i])[j],
                ) by {
                let node = mutation_damage(tree, formatting, mutations[i])[j];
                if i < rest.len() {
                    assert(mutations[i] == rest[i]);
                    law_damage_root_insertion(tree, before, cands[0], node);
                }
            }
        } else {
            let mid = with_damage_root(tree, before, cands[0]);
            law_damage_root_insertion(tree, before, cands[0], cands[0]);
            law_damage_root_insertion(tree, mid, cands[1], cands[0]);
            law_damage_root_insertion(tree, mid, cands[1], cands[1]);
            assert(after == with_damage_root(tree, mid, cands[1]));
            assert forall|i: int, j: int|
                0 <= i < mutations.len() && 0 <= j < mutation_damage(tree, formatting, mutations[i]).len() implies covers(
                    tree,
                    after,
                    #[trigger] mutation_damage(tree, formatting, mutations[i])[j],
                ) by {
                let node = mutation_damage(tree, formatting, mutations[i])[j];
                if i < rest.len() {
                    assert(mutations[i] == rest[i]);
                    law_damage_root_insertion(tree, before, cands[0], node);
                    law_damage_root_insertion(tree, mid, cands[1], node);
                }
            }
        }
    }
}

} // verus!

verus! {

/// What a click resolved to.
#[derive(Clone, Debug, PartialEq, Eq)]
pub enum ClickOutcome {
    /// Nothing to activate under the pointer.
    Ignored,
    Focused,
    Scrolled,
    Navigate(String),
}

/// Elements that take focus: an `a` with `href`, a form control (`button`,
/// `input`, `select`, `textarea`), or anything with a `tabindex`. Element
/// names compare ASCII case-insensitively.
pub open spec fn focusable_element(local_name: Seq<char>, has_href: bool, has_tabindex: bool) -> bool {
    (eq_ascii_case_insensitive(local_name, seq!['a']) && has_href) || eq_ascii_case_insensitive(
        local_name,
        seq!['b', 'u', 't', 't', 'o', 'n'],
    ) || eq_ascii_case_insensitive(local_name, seq!['i', 'n', 'p', 'u', 't'])
        || eq_ascii_case_insensitive(local_name, seq!['s', 'e', 'l', 'e', 'c', 't'])
        || eq_ascii_case_insensitive(local_name, seq!['t', 'e', 'x', 't', 'a', 'r', 'e', 'a'])
        || has_tabindex
}

/// The form controls `button`, `input`, `select` and `textarea` take focus
/// whatever their `href` and `tabindex`, ASCII case-insensitively; a link
/// (`a`) takes focus only with an `href` or a `tabindex`.
pub proof fn law_form_controls_take_focus(local_name: Seq<char>, has_href: bool, has_tabindex: bool)
    ensures
        eq_ascii_case_insensitive(local_name, seq!['b', 'u', 't', 't', 'o', 'n']) ==> focusable_element(
            local_name,
            has_href,
            has_tabindex,
        ),
        eq_ascii_case_insensitive(local_name, seq!['i', 'n', 'p', 'u', 't']) ==> focusable_element(
            local_name,
            has_href,
            has_tabindex,
        ),
        eq_ascii_case_insensitive(local_name, seq!['s', 'e', 'l', 'e', 'c', 't']) ==> focusable_element(
            local_name,
            has_href,
            has_tabindex,
        ),
        eq_ascii_case_insensitive(local_name, seq!['t', 'e', 'x', 't', 'a', 'r', 'e', 'a']) ==> focusable_element(
            local_name,
            has_href,
            has_tabindex,
        ),
        eq_ascii_case_insensitive(local_name, seq!['a']) ==> (focusable_element(
            local_name,
            has_href,
            has_tabindex,
        ) <==> (has_href || has_tabindex)),
        has_tabindex ==> focusable_element(local_name, has_href, has_tabindex),
{
    if eq_ascii_case_insensitive(local_name, seq!['a']) {
        assert(!eq_ascii_case_insensitive(local_name, seq!['b', 'u', 't', 't', 'o', 'n']));
        assert(!eq_ascii_case_insensitive(local_name, seq!['i', 'n', 'p', 'u', 't']));
        assert(!eq_ascii_case_insensitive(local_name, seq!['s', 'e', 'l', 'e', 'c', 't']));
        assert(!eq_ascii_case_insensitive(local_name, seq!['t', 'e', 'x', 't', 'a', 'r', 'e', 'a']));
    }
}

/// Without a `tabindex`, an element that is neither a link nor one of the
/// four form controls never takes focus.
pub proof fn law_other_elements_need_a_tabindex(local_name: Seq<char>, has_href: bool)
    requires
        !eq_ascii_case_insensitive(local_name, seq!['a']),
        !eq_ascii_case_insensitive(local_name, seq!['b', 'u', 't', 't', 'o', 'n']),
        !eq_ascii_case_insensitive(local_name, seq!['i', 'n', 'p', 'u', 't']),
        !eq_ascii_case_insensitive(local_name, seq!['s', 'e', 'l', 'e', 'c', 't']),
        !eq_ascii_case_insensitive(local_name, seq!['t', 'e', 'x', 't', 'a', 'r', 'e', 'a']),
    ensures
        !focusable_element(local_name, has_href, false),
{
}

/// Whether an element with this local name and these attributes can take
/// focus; non-elements never do.
pub fn is_focusable(is_element: bool, local_name: &str, has_href: bool, has_tabindex: bool) -> (focusable: bool)
    ensures
        focusable == (is_element && focusable_element(local_name@, has_href, has_tabindex)),
{
    if !is_element {
        return false;
    }
    proof {
        reveal_strlit("a");
        reveal_strlit("button");
        reveal_strlit("input");
        reveal_strlit("select");
        reveal_strlit("textarea");
        assert("a"@ =~= seq!['a']);
        assert("button"@ =~= seq!['b', 'u', 't', 't', 'o', 'n']);
        assert("input"@ =~= seq!['i', 'n', 'p', 'u', 't']);
        assert("select"@ =~= seq!['s', 'e', 'l', 'e', 'c', 't']);
        assert("textarea"@ =~= seq!['t', 'e', 'x', 't', 'a', 'r', 'e', 'a']);
    }
    (eq_ignore_ascii_case(local_name, "a") && has_href)
        || eq_ignore_ascii_case(local_name, "button")
        || eq_ignore_ascii_case(local_name, "input")
        || eq_ignore_ascii_case(local_name, "select")
        || eq_ignore_ascii_case(local_name, "textarea") || has_tabindex
}

} // verus!

verus! {

/// The same-document fragment a link names: the text after a leading `#`,
/// when there is any.
pub fn link_fragment(href: &str) -> (fragment: Option<&str>)
    ensures
        fragment is Some <==> (href@.len() > 1 && href@[0] == '#'),
        fragment matches Some(f) ==> f@ == href@.drop_first(),
{
    let n = href.unicode_len();
    if n > 1 && href.get_char(0) == '#' {
        let f = href.substring_char(1, n);
        assert(f@ =~= href@.drop_first());
        Some(f)
    } else {
        None
    }
}

pub open spec fn link_fragment_of(href: Seq<char>) -> bool {
    href.len() > 1 && href[0] == '#'
}

/// What a click resolves to once the pointer's target, its focus, its link
/// and the fragment scroll are known: no target is ignored; a link whose
/// fragment scroll succeeded scrolled; any other link navigates; otherwise
/// the click focused something or was ignored.
pub fn click_outcome(hit: bool, focused: bool, href: Option<String>, scrolled_to_fragment: bool) -> (outcome: ClickOutcome)
    ensures
        !hit ==> outcome == ClickOutcome::Ignored,
        hit && href is Some && link_fragment_of(href->0@) && scrolled_to_fragment ==> outcome == ClickOutcome::Scrolled,
        hit && href is Some && !(link_fragment_of(href->0@) && scrolled_to_fragment) ==> (outcome matches ClickOutcome::Navigate(h) && h@ == href->0@),
        hit && href is None && focused ==> outcome == ClickOutcome::Focused,
        hit && href is None && !focused ==> outcome == ClickOutcome::Ignored,
{
    if !hit {
        return ClickOutcome::Ignored;
    }
    match href {
        Some(href) => {
            if link_fragment(href.as_str()).is_some() && scrolled_to_fragment {
                ClickOutcome::Scrolled
            } else {
                ClickOutcome::Navigate(href)
            }
        },
        None => if focused {
            ClickOutcome::Focused
        } else {
            ClickOutcome::Ignored
        },
    }
}

/// The first of `node` and its ancestors, nearest first, whose flag is set.
pub open spec fn nearest_flagged(tree: DocumentTree, flags: Seq<bool>, node: usize) -> Option<usize>
    decreases node,
{
    if flag_at(flags, node) {
        Some(node)
    } else if node < tree.len() {
        match tree.spec_parents()[node as int] {
            Some(p) => if p < node {
                nearest_flagged(tree, flags, p)
            } else {
                None
            },
            None => None,
        }
    } else {
        None
    }
}

/// The nearest focusable node at or above `node` (`focusable[n]` holds
/// `is_focusable` for each node).
pub fn focusable_ancestor(tree: &DocumentTree, focusable: &Vec<bool>, node: usize) -> (found: Option<usize>)
    ensures
        found == nearest_flagged(*tree, focusable@, node),
{
    proof {
        use_type_invariant(tree);
    }
    let mut current = node;
    loop
        invariant
            tree.well_formed(),
            nearest_flagged(*tree, focusable@, node) == nearest_flagged(*tree, focusable@, current),
        decreases current,
    {
        if current < focusable.len() && focusable[current] {
            return Some(current);
        }
        match tree.parent(current) {
            Some(p) => current = p,
            None => return None,
        }
    }
}

pub open spec fn link_at(links: Seq<Option<String>>, node: usize) -> bool {
    node < links.len() && links[node as int] is Some
}

/// The first of `node` and its ancestors that is a link, nearest first.
pub open spec fn nearest_link(tree: DocumentTree, links: Seq<Option<String>>, node: usize) -> Option<usize>
    decreases node,
{
    if link_at(links, node) {
        Some(node)
    } else if node < tree.len() {
        match tree.spec_parents()[node as int] {
            Some(p) => if p < node {
                nearest_link(tree, links, p)
            } else {
                None
            },
            None => None,
        }
    } else {
        None
    }
}

/// The `href` of the nearest link at or above `node`; `links[n]` is the
/// `href` of node `n` when it is an `a` element that has one.
pub fn link_ancestor(tree: &DocumentTree, links: &Vec<Option<String>>, node: usize) -> (href: Option<String>)
    ensures
        match nearest_link(*tree, links@, node) {
            Some(n) => href matches Some(h) && h@ == links@[n as int]->0@,
            None => href is None,
        },
{
    proof {
        use_type_invariant(tree);
    }
    let mut current = node;
    loop
        invariant
            tree.well_formed(),
            nearest_link(*tree, links@, node) == nearest_link(*tree, links@, current),
        decreases current,
    {
        if current < links.len() {
            if let Some(href) = &links[current] {
                return Some(href.clone());
            }
        }
        match tree.parent(current) {
            Some(p) => current = p,
            None => return None,
        }
    }
}

/// The `href` of the nearest link at or above `node`, if any.
pub open spec fn link_href(tree: DocumentTree, links: Seq<Option<String>>, node: usize) -> Option<Seq<char>> {
    match nearest_link(tree, links, node) {
        Some(n) => Some(links[n as int]->0@),
        None => None,
    }
}

/// The link `href`s of the sources, in order, each once, at its first
/// occurrence.
pub open spec fn selection_links(tree: DocumentTree, links: Seq<Option<String>>, sources: Seq<usize>) -> Seq<Seq<char>>
    decreases sources.len(),
{
    if sources.len() == 0 {
        Seq::empty()
    } else {
        let earlier = selection_links(tree, links, sources.drop_last());
        match link_href(tree, links, sources.last()) {
            Some(href) => if earlier.contains(href) {
                earlier
            } else {
                earlier.push(href)
            },
            None => earlier,
        }
    }
}

/// The link URLs whose descendant text contributes to a selection drawn
/// from the text `sources`, each once, in order of first appearance.
pub fn links_for_selection(tree: &DocumentTree, links: &Vec<Option<String>>, sources: &Vec<usize>) -> (urls: Vec<String>)
    ensures
        urls@.map_values(|url: String| url@) == selection_links(*tree, links@, sources@),
{
    let mut urls: Vec<String> = Vec::new();
    let mut i: usize = 0;
    while i < sources.len()
        invariant
            i <= sources@.len(),
            urls@.map_values(|url: String| url@) == selection_links(*tree, links@, sources@.take(i as int)),
        decreases sources@.len() - i,
    {
        proof {
            assert(sources@.take(i + 1).drop_last() =~= sources@.take(i as int));
            assert(sources@.take(i + 1).last() == sources@[i as int]);
        }
        let ghost before = urls@.map_values(|url: String| url@);
        if let Some(href) = link_ancestor(tree, links, sources[i]) {
            let mut seen = false;
            let mut k: usize = 0;
            while k < urls.len()
                invariant
                    k <= urls@.len(),
                    before == urls@.map_values(|url: String| url@),
                    seen == exists|j: int| 0 <= j < k && before[j] == href@,
                decreases urls@.len() - k,
            {
                if crate::text::str_equal(urls[k].as_str(), href.as_str()) {
                    seen = true;
                }
                proof {
                    if before[k as int] == href@ {
                        assert(0 <= k < k + 1 && before[k as int] == href@);
                    }
                    if seen && !(before[k as int] == href@) {
                        let j = choose|j: int| 0 <= j < k && before[j] == href@;
                        assert(0 <= j < k + 1 && before[j] == href@);
                    }
                }
                k = k + 1;
            }
            proof {
                if before.contains(href@) {
                    let j = choose|j: int| 0 <= j < before.len() && before[j] == href@;
                    assert(0 <= j < urls@.len());
                }
            }
            if !seen {
                urls.push(href);
                proof {
                    assert(urls@.map_values(|url: String| url@) =~= before.push(urls@[urls@.len() - 1]@));
                }
            }
        }
        i = i + 1;
    }
    proof {
        assert(sources@.take(sources@.len() as int) =~= sources@);
    }
    urls
}

/// The ancestors of `node` whose flag is set, nearest first.
pub open spec fn flagged_ancestors(tree: DocumentTree, flags: Seq<bool>, node: usize) -> Seq<usize>
    decreases node,
{
    if node < tree.len() {
        match tree.spec_parents()[node as int] {
            Some(p) => if p < node {
                if flag_at(flags, p) {
                    seq![p] + flagged_ancestors(tree, flags, p)
                } else {
                    flagged_ancestors(tree, flags, p)
                }
            } else {
                seq![]
            },
            None => seq![],
        }
    } else {
        seq![]
    }
}

/// The nodes that match `:focus-within` once `node` takes focus: the node
/// itself, then each element ancestor, nearest first.
pub fn focus_chain(tree: &DocumentTree, is_element: &Vec<bool>, node: usize) -> (chain: Vec<usize>)
    ensures
        chain@ == seq![node] + flagged_ancestors(*tree, is_element@, node),
{
    proof {
        use_type_invariant(tree);
    }
    let mut chain: Vec<usize> = Vec::new();
    chain.push(node);
    let mut current = node;
    loop
        invariant
            tree.well_formed(),
            chain@ + flagged_ancestors(*tree, is_element@, current) == seq![node] + flagged_ancestors(*tree, is_element@, node),
        decreases current,
    {
        match tree.parent(current) {
            Some(p) => {
                if p < is_element.len() && is_element[p] {
                    chain.push(p);
                    assert(chain@ + flagged_ancestors(*tree, is_element@, p) =~= chain@.drop_last() + (seq![p] + flagged_ancestors(*tree, is_element@, p)));
                }
                current = p;
            },
            None => {
                assert(chain@ + flagged_ancestors(*tree, is_element@, current) =~= chain@);
                return chain;
            },
        }
    }
}

pub open spec fn has_id(entry: Option<String>, target: Seq<char>) -> bool {
    match entry {
        Some(id) => id@ == target,
        None => false,
    }
}

/// The first element in document order whose `id` is `target`
/// (`element_ids[n]` is node `n`'s `id` attribute when it is an element
/// that has one). Document order is the order of a depth-first walk from
/// the document node.
pub fn find_id(element_ids: &Vec<Option<String>>, target: &str) -> (found: Option<usize>)
    ensures
        match found {
            Some(n) => n < element_ids@.len() && has_id(element_ids@[n as int], target@) && forall|m: int|
                0 <= m < n ==> !has_id(#[trigger] element_ids@[m], target@),
            None => forall|m: int| 0 <= m < element_ids@.len() ==> !has_id(#[trigger] element_ids@[m], target@),
        },
{
    let mut i: usize = 0;
    while i < element_ids.len()
        invariant
            i <= element_ids@.len(),
            forall|m: int| 0 <= m < i ==> !has_id(#[trigger] element_ids@[m], target@),
        decreases element_ids@.len() - i,
    {
        if let Some(id) = &element_ids[i] {
            if crate::text::str_equal(id.as_str(), target) {
                return Some(i);
            }
        }
        i = i + 1;
    }
    None
}

/// How many block formatting runs each backend performed in one layout.
#[derive(Clone, Copy, Debug, Default, PartialEq, Eq, Structural)]
pub struct BlockAlgorithmCounts {
    pub buckram: usize,
    pub taffy: usize,
    /// Backend block runs used only for intrinsic/scratch sizing.
    pub backend_sizing: usize,
}

impl BlockAlgorithmCounts {
    /// Backend block runs caused by a CSS-facing deferral rather than by
    /// scratch measurement.
    pub fn css_facing_taffy(self) -> (count: usize)
        ensures
            count == (if self.taffy >= self.backend_sizing {
                (self.taffy - self.backend_sizing) as usize
            } else {
                0
            }),
    {
        self.taffy.saturating_sub(self.backend_sizing)
    }
}

/// A layout failure, described by its message.
#[derive(Clone, Debug, PartialEq, Eq)]
pub struct LayoutError {
    message: String,
}

impl LayoutError {
    pub closed spec fn spec_message(&self) -> Seq<char> {
        self.message@
    }

    /// A failure of the retained document's own state.
    pub fn retained_state(message: String) -> (error: LayoutError)
        ensures
            error.spec_message() == message@,
    {
        LayoutError { message }
    }

    /// The message, as the error displays.
    pub fn message(&self) -> (message: &str)
        ensures
            message@ == self.spec_message(),
    {
        self.message.as_str()
    }
}

} // verus!

verus! {

/// The children of `parent`, in document order.
pub open spec fn child_list(tree: DocumentTree, parent: usize) -> Seq<usize> {
    child_prefix(tree, parent, tree.len() as int)
}

/// The children of `parent` among the first `k` nodes.
pub open spec fn child_prefix(tree: DocumentTree, parent: usize, k: int) -> Seq<usize> {
    Seq::new(k as nat, |i: int| i as usize).filter(|c: usize| tree.spec_parents()[c as int] == Some(parent))
}

} // verus!
