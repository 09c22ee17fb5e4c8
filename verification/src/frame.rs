//! The decisions a document makes when asked for a frame.
//!
//! A frame comes, in order of preference, from the cached paint list of
//! the same viewport, from repainting the retained layout, from one of the
//! retained fast paths (a moved or resized positioned box, a background
//! colour change), from reformatting one damaged formatting root in place,
//! or from a full layout whose damaged subtrees are spliced into the
//! retained one. The host runs the layout work; these functions decide.

use vstd::prelude::*;
use crate::document::{LayoutDamage, LayoutDamageKind};

verus! {

/// Where a frame request starts.
#[derive(Clone, Copy, Debug, PartialEq, Eq, Structural)]
pub enum FrameStart {
    /// The cached paint list is for this viewport.
    Cached,
    /// The retained layout is clean and for this viewport: repaint it.
    Repaint,
    /// The layout must be brought up to date first.
    Relayout,
}

/// Where a frame request starts: a cached paint list for the same viewport
/// wins, then a clean retained layout for the same viewport.
pub fn frame_start(cached_viewport_matches: bool, layout_dirty: bool, layout_viewport_matches: bool) -> (start: FrameStart)
    ensures
        start == (if cached_viewport_matches {
            FrameStart::Cached
        } else if !layout_dirty && layout_viewport_matches {
            FrameStart::Repaint
        } else {
            FrameStart::Relayout
        }),
{
    if cached_viewport_matches {
        FrameStart::Cached
    } else if !layout_dirty && layout_viewport_matches {
        FrameStart::Repaint
    } else {
        FrameStart::Relayout
    }
}

/// The retained fast paths apply only to a dirty layout for an unchanged
/// viewport with no transition or keyframe animation running.
pub fn retained_fast_path_allowed(
    viewport_changed: bool,
    layout_dirty: bool,
    transitions_idle: bool,
    animation_idle: bool,
) -> (allowed: bool)
    ensures
        allowed == (!viewport_changed && layout_dirty && transitions_idle && animation_idle),
{
    !viewport_changed && layout_dirty && transitions_idle && animation_idle
}

/// The damaged formatting root that may be reformatted in place: the only
/// root of partial DOM damage, when the viewport is unchanged.
pub open spec fn local_root_of(damage: Option<LayoutDamage<usize>>, viewport_changed: bool) -> Option<usize> {
    match damage {
        Some(d) => if !viewport_changed && d.kind == LayoutDamageKind::Dom && !d.full_document
            && d.roots@.len() == 1 {
            Some(d.roots@[0])
        } else {
            None
        },
        None => None,
    }
}

pub fn local_formatting_root(damage: Option<&LayoutDamage<usize>>, viewport_changed: bool) -> (root: Option<usize>)
    ensures
        root == local_root_of(
            match damage {
                Some(d) => Some(*d),
                None => None,
            },
            viewport_changed,
        ),
{
    match damage {
        Some(d) => {
            if !viewport_changed && d.kind == LayoutDamageKind::Dom && !d.full_document
                && d.roots.len() == 1 {
                Some(d.roots[0])
            } else {
                None
            }
        },
        None => None,
    }
}

/// Whether the local reformatting lane may run: nothing animating and no
/// container queries whose results the local pass cannot see change.
pub fn local_formatting_allowed(transitions_idle: bool, animation_idle: bool, container_queries: bool) -> (allowed: bool)
    ensures
        allowed == (transitions_idle && animation_idle && !container_queries),
{
    transitions_idle && animation_idle && !container_queries
}

/// What reformatting one retained root in place came to.
#[derive(Clone, Copy, Debug, PartialEq, Eq, Structural)]
pub enum RetainedRootFormatting {
    /// The root was reformatted; the candidate splice may be published.
    Formatted,
    /// The root's used size changed: try its parent instead.
    PromoteParent,
    /// The subtree cannot be reformatted on its own.
    Unsupported,
}

/// What a local reformatting came to once the root was laid out on its
/// own: the root must have exactly one fragment in the local layout
/// (`local_fragments`), and a root whose size changed (`same_size` false:
/// the sizes differ by more than a hundredth of a pixel) hands the work to
/// its parent.
pub fn local_root_outcome(local_fragments: usize, same_size: bool) -> (outcome: RetainedRootFormatting)
    ensures
        outcome == (if local_fragments != 1 {
            RetainedRootFormatting::Unsupported
        } else if !same_size {
            RetainedRootFormatting::PromoteParent
        } else {
            RetainedRootFormatting::Formatted
        }),
{
    if local_fragments != 1 {
        RetainedRootFormatting::Unsupported
    } else if !same_size {
        RetainedRootFormatting::PromoteParent
    } else {
        RetainedRootFormatting::Formatted
    }
}

/// The next candidate of the local reformatting loop, or `None` when the
/// loop ends: a promotion moves to the DOM parent, if there is one.
pub fn next_local_candidate(outcome: RetainedRootFormatting, parent: Option<usize>) -> (next: Option<usize>)
    ensures
        next == (match outcome {
            RetainedRootFormatting::PromoteParent => parent,
            _ => None,
        }),
{
    match outcome {
        RetainedRootFormatting::PromoteParent => parent,
        RetainedRootFormatting::Formatted | RetainedRootFormatting::Unsupported => None,
    }
}

/// The subtrees a full layout may splice into the retained one: the roots
/// of partial, non-empty DOM damage.
pub fn replacement_roots(damage: Option<&LayoutDamage<usize>>) -> (roots: Option<Vec<usize>>)
    ensures
        match damage {
            Some(d) => if !d.full_document && d.kind == LayoutDamageKind::Dom && d.roots@.len() > 0 {
                roots matches Some(r) && r@ == d.roots@
            } else {
                roots is None
            },
            None => roots is None,
        },
{
    match damage {
        Some(d) => {
            if !d.full_document && d.kind == LayoutDamageKind::Dom && d.roots.len() > 0 {
                let mut copy: Vec<usize> = Vec::new();
                let mut i: usize = 0;
                while i < d.roots.len()
                    invariant
                        i <= d.roots@.len(),
                        copy@ == d.roots@.take(i as int),
                    decreases d.roots@.len() - i,
                {
                    copy.push(d.roots[i]);
                    proof {
                        assert(copy@ =~= d.roots@.take(i + 1));
                    }
                    i = i + 1;
                }
                assert(copy@ =~= d.roots@);
                Some(copy)
            } else {
                None
            }
        },
        None => None,
    }
}

/// A counter that moves on, stopping at `u64::MAX`.
pub fn next_generation(generation: u64) -> (next: u64)
    ensures
        next == if generation == u64::MAX {
            u64::MAX
        } else {
            (generation + 1) as u64
        },
{
    generation.saturating_add(1)
}

/// A local root is reformatted in place only for partial DOM damage with
/// a single root, and then it is that root; such damage is also what a full
/// layout would splice.
pub proof fn law_local_root_is_the_single_damage_root(damage: LayoutDamage<usize>, viewport_changed: bool)
    ensures
        local_root_of(Some(damage), viewport_changed) matches Some(root) ==> damage.roots@ == seq![root]
            && damage.kind == LayoutDamageKind::Dom && !damage.full_document,
{
    if local_root_of(Some(damage), viewport_changed) is Some {
        assert(damage.roots@ =~= seq![damage.roots@[0]]);
    }
}

} // verus!

verus! {

/// A way of producing a frame. A request tries its lanes in order; every
/// lane but the last may decline, and the last always answers.
#[derive(Clone, Copy, Debug, PartialEq, Eq, Structural)]
pub enum FrameLane {
    /// Return the cached paint list.
    Cached,
    /// Repaint the clean retained layout.
    Repaint,
    /// Only the insets of one stable positioned subtree changed: move it.
    RepositionPositioned,
    /// Only the geometry of one positioned leaf changed: resize it.
    ResizePositionedLeaf,
    /// Only background colours changed: adopt the new styles.
    BackgroundOnly,
    /// Reformat this damaged formatting root in place.
    LocalReformat(usize),
    /// Lay the document out again and splice the damaged subtrees.
    FullLayout,
}

/// What a frame request decides on.
#[derive(Clone, Copy, Debug, PartialEq, Eq, Structural)]
pub struct FrameFacts {
    /// The cached paint list is for the requested viewport.
    pub cached_viewport_matches: bool,
    pub layout_dirty: bool,
    /// A retained layout exists and is for the requested viewport.
    pub layout_viewport_matches: bool,
    /// The requested viewport differs from the last one.
    pub viewport_changed: bool,
    /// A retained layout exists.
    pub has_layout: bool,
    pub transitions_idle: bool,
    pub animation_idle: bool,
    /// The style set holds container queries.
    pub container_queries: bool,
}

/// The lanes a frame request tries, in order. `damage` is the layout
/// damage once the request has recorded a viewport change.
pub open spec fn frame_lanes_of(f: FrameFacts, damage: Option<LayoutDamage<usize>>) -> Seq<FrameLane> {
    if f.cached_viewport_matches {
        seq![FrameLane::Cached]
    } else if !f.layout_dirty && f.layout_viewport_matches {
        seq![FrameLane::Repaint]
    } else {
        let fast = if !f.viewport_changed && f.layout_dirty && f.transitions_idle && f.animation_idle
            && f.has_layout {
            seq![
                FrameLane::RepositionPositioned,
                FrameLane::ResizePositionedLeaf,
                FrameLane::BackgroundOnly,
            ]
        } else {
            seq![]
        };
        let local = match local_root_of(damage, f.viewport_changed) {
            Some(root) => if f.transitions_idle && f.animation_idle && !f.container_queries && f.has_layout {
                seq![FrameLane::LocalReformat(root)]
            } else {
                seq![]
            },
            None => seq![],
        };
        fast + local + seq![FrameLane::FullLayout]
    }
}

/// The lanes a frame request tries, in order: the cache, a repaint of a
/// clean layout, the retained fast paths, local reformatting of the single
/// damaged root, and finally a full layout.
pub fn frame_lanes(facts: &FrameFacts, damage: Option<&LayoutDamage<usize>>) -> (lanes: Vec<FrameLane>)
    ensures
        lanes@ == frame_lanes_of(
            *facts,
            match damage {
                Some(d) => Some(*d),
                None => None,
            },
        ),
{
    let f = *facts;
    let mut lanes: Vec<FrameLane> = Vec::new();
    match frame_start(f.cached_viewport_matches, f.layout_dirty, f.layout_viewport_matches) {
        FrameStart::Cached => {
            lanes.push(FrameLane::Cached);
            assert(lanes@ =~= seq![FrameLane::Cached]);
            return lanes;
        },
        FrameStart::Repaint => {
            lanes.push(FrameLane::Repaint);
            assert(lanes@ =~= seq![FrameLane::Repaint]);
            return lanes;
        },
        FrameStart::Relayout => {},
    }
    if retained_fast_path_allowed(f.viewport_changed, f.layout_dirty, f.transitions_idle, f.animation_idle)
        && f.has_layout {
        lanes.push(FrameLane::RepositionPositioned);
        lanes.push(FrameLane::ResizePositionedLeaf);
        lanes.push(FrameLane::BackgroundOnly);
    }
    let ghost fast = lanes@;
    if let Some(root) = local_formatting_root(damage, f.viewport_changed) {
        if local_formatting_allowed(f.transitions_idle, f.animation_idle, f.container_queries) && f.has_layout {
            lanes.push(FrameLane::LocalReformat(root));
        }
    }
    lanes.push(FrameLane::FullLayout);
    assert(lanes@ =~= frame_lanes_of(
        f,
        match damage {
            Some(d) => Some(*d),
            None => None,
        },
    ));
    lanes
}

/// The counters and flag a completed frame updates.
#[derive(Clone, Copy, Debug, PartialEq, Eq, Structural)]
pub struct FrameCounters {
    /// Moves on with every painted frame.
    pub generation: u64,
    /// Moves on whenever the retained layout changes.
    pub layout_generation: u64,
    pub layout_dirty: bool,
}

pub open spec fn advanced(counter: u64) -> u64 {
    if counter == u64::MAX {
        u64::MAX
    } else {
        (counter + 1) as u64
    }
}

/// The counters once `lane` has answered a frame request.
pub open spec fn completed(c: FrameCounters, lane: FrameLane) -> FrameCounters {
    match lane {
        FrameLane::Cached => c,
        FrameLane::Repaint => FrameCounters { generation: advanced(c.generation), ..c },
        FrameLane::BackgroundOnly => FrameCounters {
            generation: advanced(c.generation),
            layout_generation: c.layout_generation,
            layout_dirty: false,
        },
        _ => FrameCounters {
            generation: advanced(c.generation),
            layout_generation: advanced(c.layout_generation),
            layout_dirty: false,
        },
    }
}

impl FrameCounters {
    /// Record that `lane` answered a frame request: a cached list changes
    /// nothing; every painted frame moves the generation on; a lane that
    /// changed the retained layout moves the layout generation on; every
    /// lane that brought the layout up to date leaves it clean.
    pub fn complete(&mut self, lane: FrameLane)
        ensures
            *final(self) == completed(*old(self), lane),
    {
        match lane {
            FrameLane::Cached => {},
            FrameLane::Repaint => {
                self.generation = next_generation(self.generation);
            },
            FrameLane::BackgroundOnly => {
                self.layout_dirty = false;
                self.generation = next_generation(self.generation);
            },
            FrameLane::RepositionPositioned
            | FrameLane::ResizePositionedLeaf
            | FrameLane::LocalReformat(_)
            | FrameLane::FullLayout => {
                self.layout_dirty = false;
                self.layout_generation = next_generation(self.layout_generation);
                self.generation = next_generation(self.generation);
            },
        }
    }
}

/// Every frame request ends in a lane that always answers: the cache, a
/// repaint, or a full layout; the lanes before it are retained attempts.
pub proof fn law_every_frame_request_is_answered(f: FrameFacts, damage: Option<LayoutDamage<usize>>)
    ensures
        frame_lanes_of(f, damage).len() >= 1,
        ({
            let last = frame_lanes_of(f, damage).last();
            last == FrameLane::Cached || last == FrameLane::Repaint || last == FrameLane::FullLayout
        }),
        forall|k: int|
            0 <= k < frame_lanes_of(f, damage).len() - 1 ==> !(#[trigger] frame_lanes_of(f, damage)[k]
                == FrameLane::Cached || frame_lanes_of(f, damage)[k] == FrameLane::Repaint
                || frame_lanes_of(f, damage)[k] == FrameLane::FullLayout),
{
    let lanes = frame_lanes_of(f, damage);
    if !f.cached_viewport_matches && !(!f.layout_dirty && f.layout_viewport_matches) {
        assert forall|k: int| 0 <= k < lanes.len() - 1 implies !(#[trigger] lanes[k] == FrameLane::Cached
            || lanes[k] == FrameLane::Repaint || lanes[k] == FrameLane::FullLayout) by {
            let fast = if !f.viewport_changed && f.layout_dirty && f.transitions_idle && f.animation_idle
                && f.has_layout {
                seq![
                    FrameLane::RepositionPositioned,
                    FrameLane::ResizePositionedLeaf,
                    FrameLane::BackgroundOnly,
                ]
            } else {
                seq![]
            };
            if k < fast.len() {
                assert(lanes[k] == fast[k]);
            }
        }
    }
}

/// Completing a frame never moves a counter back, any lane that brought the
/// layout up to date leaves it clean, and a background-only change repaints
/// without a new layout generation.
pub proof fn law_completed_frames_only_move_forward(c: FrameCounters, lane: FrameLane)
    ensures
        completed(c, lane).generation >= c.generation,
        completed(c, lane).layout_generation >= c.layout_generation,
        lane == FrameLane::BackgroundOnly ==> completed(c, lane).layout_generation == c.layout_generation,
        lane != FrameLane::Cached && lane != FrameLane::Repaint ==> !completed(c, lane).layout_dirty,
        lane == FrameLane::Cached ==> completed(c, lane) == c,
{
}

} // verus!

