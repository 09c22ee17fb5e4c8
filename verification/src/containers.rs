//! Which query container supplies each basis of container-relative lengths
//! (`cqw`, `cqh`, `cqi`, `cqb`).
//!
//! A laid-out element with `container-type: size` supplies all four bases to
//! its descendants; one with `inline-size` supplies its inline basis and the
//! physical basis its inline axis runs along. A basis no container supplies
//! falls back to the viewport. The DOM is seen through a [`DocumentTree`].
//!
//! Container queries are settled by a bounded restyle loop whose decisions
//! stand here as steps: run another round, keep a stable round's styles, or
//! resolve the last restyle once the rounds run out.

use vstd::prelude::*;
use crate::document::DocumentTree;
use crate::taffy_style::ContainerType;

verus! {

/// The facts of one DOM node that container resolution reads.
#[derive(Clone, Copy, Debug, PartialEq, Eq, Structural)]
pub struct QueryContainer {
    pub container_type: ContainerType,
    /// The node's writing mode is vertical.
    pub vertical: bool,
    /// The node has a computed style and a fragment, so its content box is
    /// known.
    pub laid_out: bool,
}

/// For each basis, the container whose content box supplies it; `None`
/// stands for the viewport.
#[derive(Clone, Copy, Debug, PartialEq, Eq, Structural)]
pub struct ContainerSources {
    pub width: Option<usize>,
    pub height: Option<usize>,
    pub inline: Option<usize>,
    pub block: Option<usize>,
}

pub open spec fn viewport_sources() -> ContainerSources {
    ContainerSources { width: None, height: None, inline: None, block: None }
}

pub open spec fn container_at(facts: Seq<QueryContainer>, n: int) -> QueryContainer {
    if 0 <= n < facts.len() {
        facts[n]
    } else {
        QueryContainer { container_type: ContainerType::Normal, vertical: false, laid_out: false }
    }
}

/// The sources that node `p`, whose own sources are `inherited`, passes to
/// its children.
pub open spec fn passed_down(facts: Seq<QueryContainer>, p: usize, inherited: ContainerSources) -> ContainerSources {
    let c = container_at(facts, p as int);
    if !c.laid_out {
        inherited
    } else {
        match c.container_type {
            ContainerType::Normal => inherited,
            ContainerType::InlineSize => ContainerSources {
                width: if c.vertical {
                    inherited.width
                } else {
                    Some(p)
                },
                height: if c.vertical {
                    Some(p)
                } else {
                    inherited.height
                },
                inline: Some(p),
                block: inherited.block,
            },
            ContainerType::Size => ContainerSources {
                width: Some(p),
                height: Some(p),
                inline: Some(p),
                block: Some(p),
            },
        }
    }
}

/// The sources of node `n`: what its parent passes down; the viewport for
/// the document node.
pub open spec fn sources_of(tree: DocumentTree, facts: Seq<QueryContainer>, n: int) -> ContainerSources
    decreases n,
{
    if 0 <= n < tree.len() {
        match tree.spec_parents()[n] {
            Some(p) => if p < n {
                passed_down(facts, p, sources_of(tree, facts, p as int))
            } else {
                viewport_sources()
            },
            None => viewport_sources(),
        }
    } else {
        viewport_sources()
    }
}

fn pass_down(facts: &Vec<QueryContainer>, p: usize, inherited: ContainerSources) -> (passed: ContainerSources)
    ensures
        passed == passed_down(facts@, p, inherited),
{
    if p >= facts.len() || !facts[p].laid_out {
        return inherited;
    }
    let c = facts[p];
    match c.container_type {
        ContainerType::Normal => inherited,
        ContainerType::InlineSize => ContainerSources {
            width: if c.vertical {
                inherited.width
            } else {
                Some(p)
            },
            height: if c.vertical {
                Some(p)
            } else {
                inherited.height
            },
            inline: Some(p),
            block: inherited.block,
        },
        ContainerType::Size => ContainerSources { width: Some(p), height: Some(p), inline: Some(p), block: Some(p) },
    }
}

/// The container sources of every node, in document order (`facts[n]`
/// describes node `n`).
pub fn container_sources(tree: &DocumentTree, facts: &Vec<QueryContainer>) -> (sources: Vec<ContainerSources>)
    ensures
        sources@.len() == tree.len(),
        forall|n: int| 0 <= n < sources@.len() ==> #[trigger] sources@[n] == sources_of(*tree, facts@, n),
{
    let count = tree.node_count();
    let mut sources: Vec<ContainerSources> = Vec::new();
    let mut n: usize = 0;
    while n < count
        invariant
            count == tree.len(),
            n <= count,
            sources@.len() == n,
            forall|j: int| 0 <= j < n ==> #[trigger] sources@[j] == sources_of(*tree, facts@, j),
        decreases count - n,
    {
        let here = match tree.parent(n) {
            Some(p) => pass_down(facts, p, sources[p]),
            None => ContainerSources { width: None, height: None, inline: None, block: None },
        };
        sources.push(here);
        n = n + 1;
    }
    sources
}

/// Container `c` supplies one of the bases in `sources`.
pub open spec fn supplies(sources: ContainerSources, c: usize) -> bool {
    sources.width == Some(c) || sources.height == Some(c) || sources.inline == Some(c) || sources.block
        == Some(c)
}

/// Every basis a node uses comes from a laid-out query container that is a
/// proper ancestor of the node.
pub proof fn law_bases_come_from_container_ancestors(tree: DocumentTree, facts: Seq<QueryContainer>, n: usize, c: usize)
    requires
        supplies(sources_of(tree, facts, n as int), c),
    ensures
        c < n,
        tree.is_ancestor(c, n),
        container_at(facts, c as int).laid_out,
        container_at(facts, c as int).container_type != ContainerType::Normal,
    decreases n,
{
    let p = tree.spec_parents()[n as int]->0;
    let inherited = sources_of(tree, facts, p as int);
    assert(sources_of(tree, facts, n as int) == passed_down(facts, p, inherited));
    if supplies(inherited, c) {
        law_bases_come_from_container_ancestors(tree, facts, p, c);
    }
    assert(tree.is_ancestor(p, p));
}

// ----- the container-query restyle loop ---------------------------------

/// Restyle rounds that container queries get before the last restyle stands.
pub const CONTAINER_QUERY_ROUNDS: u32 = 8;

/// What the container-query restyle loop does next. Each round resolves the
/// container-relative lengths of the current styles, lays them out, takes
/// the query containers' sizes and restyles the document against them.
#[derive(Clone, Copy, Debug, PartialEq, Eq, Structural)]
pub enum RestyleStep {
    /// The style set has no container queries: resolve the container-relative
    /// lengths of the styles once.
    ResolveOnce,
    /// Run round `n` (counted from 0).
    Round(u32),
    /// The restyle came back equal to its input: this round's resolved
    /// styles stand.
    KeepResolved,
    /// The rounds ran out: resolve the lengths of the last restyle once.
    ResolveLast,
}

/// The loop's first step.
pub open spec fn first_restyle_step(has_container_queries: bool) -> RestyleStep {
    if has_container_queries {
        RestyleStep::Round(0)
    } else {
        RestyleStep::ResolveOnce
    }
}

/// The step after round `round`, given whether its restyle equalled its
/// input.
pub open spec fn restyle_step_after(round: u32, stable: bool) -> RestyleStep {
    if stable {
        RestyleStep::KeepResolved
    } else if round + 1 < CONTAINER_QUERY_ROUNDS {
        RestyleStep::Round((round + 1) as u32)
    } else {
        RestyleStep::ResolveLast
    }
}

/// The loop's first step: rounds only where the style set has container
/// queries.
pub fn restyle_start(has_container_queries: bool) -> (step: RestyleStep)
    ensures
        step == first_restyle_step(has_container_queries),
{
    if has_container_queries {
        RestyleStep::Round(0)
    } else {
        RestyleStep::ResolveOnce
    }
}

/// The step after round `round`: a stable restyle ends the loop with that
/// round's resolution; otherwise the next round runs while rounds are left.
pub fn restyle_after_round(round: u32, stable: bool) -> (step: RestyleStep)
    requires
        round < CONTAINER_QUERY_ROUNDS,
    ensures
        step == restyle_step_after(round, stable),
{
    if stable {
        RestyleStep::KeepResolved
    } else if round + 1 < CONTAINER_QUERY_ROUNDS {
        RestyleStep::Round(round + 1)
    } else {
        RestyleStep::ResolveLast
    }
}

/// Where the loop stands after answering, round by round, whether each
/// restyle equalled its input; answers left over once it has ended are not
/// asked.
pub open spec fn restyle_after_answers(step: RestyleStep, answers: Seq<bool>) -> RestyleStep
    decreases answers.len(),
{
    if answers.len() == 0 {
        step
    } else {
        match step {
            RestyleStep::Round(round) => if round < CONTAINER_QUERY_ROUNDS {
                restyle_after_answers(restyle_step_after(round, answers[0]), answers.drop_first())
            } else {
                step
            },
            _ => step,
        }
    }
}

/// The loop ends within its round limit: whatever the restyles give, once
/// as many rounds as the limit have been answered the loop has either kept a
/// stable round's styles, exactly when one of those rounds was stable, or
/// else resolves the last restyle.
pub proof fn law_restyle_loop_ends_within_its_rounds(answers: Seq<bool>)
    requires
        answers.len() >= CONTAINER_QUERY_ROUNDS,
    ensures
        restyle_after_answers(first_restyle_step(true), answers) == RestyleStep::KeepResolved
            || restyle_after_answers(first_restyle_step(true), answers) == RestyleStep::ResolveLast,
        restyle_after_answers(first_restyle_step(true), answers) == RestyleStep::KeepResolved <==> exists|
            i: int,
        | 0 <= i < CONTAINER_QUERY_ROUNDS && #[trigger] answers[i],
{
    lemma_rounds_end(0, answers);
}

/// From round `round`, enough answers end the loop, kept exactly when one
/// of the rounds left was stable.
proof fn lemma_rounds_end(round: u32, answers: Seq<bool>)
    requires
        round < CONTAINER_QUERY_ROUNDS,
        answers.len() >= CONTAINER_QUERY_ROUNDS - round,
    ensures
        restyle_after_answers(RestyleStep::Round(round), answers) == RestyleStep::KeepResolved
            || restyle_after_answers(RestyleStep::Round(round), answers) == RestyleStep::ResolveLast,
        restyle_after_answers(RestyleStep::Round(round), answers) == RestyleStep::KeepResolved <==> exists|
            i: int,
        | 0 <= i < CONTAINER_QUERY_ROUNDS - round && #[trigger] answers[i],
    decreases CONTAINER_QUERY_ROUNDS - round,
{
    let next = restyle_step_after(round, answers[0]);
    let rest = answers.drop_first();
    if let RestyleStep::Round(r) = next {
        lemma_rounds_end(r, rest);
        if exists|i: int| 0 <= i < CONTAINER_QUERY_ROUNDS - r && #[trigger] rest[i] {
            let i = choose|i: int| 0 <= i < CONTAINER_QUERY_ROUNDS - r && #[trigger] rest[i];
            assert(answers[i + 1]);
        }
        if exists|i: int| 0 <= i < CONTAINER_QUERY_ROUNDS - round && #[trigger] answers[i] {
            let i = choose|i: int| 0 <= i < CONTAINER_QUERY_ROUNDS - round && #[trigger] answers[i];
            assert(i != 0);
            assert(rest[i - 1]);
        }
    } else {
        if rest.len() > 0 {
            assert(restyle_after_answers(next, rest) == next);
        }
        if !answers[0] {
            assert forall|i: int| 0 <= i < CONTAINER_QUERY_ROUNDS - round implies !#[trigger] answers[i] by {
                assert(i == 0);
            }
        }
    }
}

} // verus!

