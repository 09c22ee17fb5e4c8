use genet_livery::document::{LayoutDamage, LayoutDamageKind};
use genet_livery::frame::{
    frame_start, local_formatting_allowed, local_formatting_root, next_generation,
    next_local_candidate, replacement_roots, retained_fast_path_allowed, FrameStart,
    RetainedRootFormatting, frame_lanes, local_root_outcome, FrameCounters, FrameFacts, FrameLane,
};

fn damage(kind: LayoutDamageKind, roots: Vec<usize>, full_document: bool) -> LayoutDamage<usize> {
    LayoutDamage { kind, roots, full_document }
}

#[test]
fn frames_prefer_the_cache_then_a_clean_layout() {
    assert_eq!(frame_start(true, true, false), FrameStart::Cached);
    assert_eq!(frame_start(false, false, true), FrameStart::Repaint);
    assert_eq!(frame_start(false, true, true), FrameStart::Relayout);
    assert_eq!(frame_start(false, false, false), FrameStart::Relayout);
}

#[test]
fn fast_paths_need_a_dirty_still_layout() {
    assert!(retained_fast_path_allowed(false, true, true, true));
    assert!(!retained_fast_path_allowed(true, true, true, true));
    assert!(!retained_fast_path_allowed(false, false, true, true));
    assert!(!retained_fast_path_allowed(false, true, false, true));
    assert!(local_formatting_allowed(true, true, false));
    assert!(!local_formatting_allowed(true, true, true));
}

#[test]
fn a_single_dom_root_is_reformatted_in_place() {
    let single = damage(LayoutDamageKind::Dom, vec![7], false);
    assert_eq!(local_formatting_root(Some(&single), false), Some(7));
    assert_eq!(local_formatting_root(Some(&single), true), None);
    let two = damage(LayoutDamageKind::Dom, vec![7, 9], false);
    assert_eq!(local_formatting_root(Some(&two), false), None);
    let style = damage(LayoutDamageKind::Stylesheet, vec![7], false);
    assert_eq!(local_formatting_root(Some(&style), false), None);
    let full = damage(LayoutDamageKind::Dom, vec![0], true);
    assert_eq!(local_formatting_root(Some(&full), false), None);
    assert_eq!(local_formatting_root(None, false), None);
}

#[test]
fn promotion_walks_to_the_parent() {
    assert_eq!(next_local_candidate(RetainedRootFormatting::PromoteParent, Some(3)), Some(3));
    assert_eq!(next_local_candidate(RetainedRootFormatting::PromoteParent, None), None);
    assert_eq!(next_local_candidate(RetainedRootFormatting::Unsupported, Some(3)), None);
    assert_eq!(next_local_candidate(RetainedRootFormatting::Formatted, Some(3)), None);
}

#[test]
fn full_layouts_splice_partial_dom_damage() {
    let two = damage(LayoutDamageKind::Dom, vec![7, 9], false);
    assert_eq!(replacement_roots(Some(&two)), Some(vec![7, 9]));
    assert_eq!(replacement_roots(Some(&damage(LayoutDamageKind::Dom, vec![], false))), None);
    assert_eq!(replacement_roots(Some(&damage(LayoutDamageKind::Viewport, vec![0], true))), None);
    assert_eq!(replacement_roots(None), None);
    assert_eq!(next_generation(4), 5);
    assert_eq!(next_generation(u64::MAX), u64::MAX);
}

fn dirty_still() -> FrameFacts {
    FrameFacts {
        cached_viewport_matches: false,
        layout_dirty: true,
        layout_viewport_matches: true,
        viewport_changed: false,
        has_layout: true,
        transitions_idle: true,
        animation_idle: true,
        container_queries: false,
    }
}

#[test]
fn frame_lanes_run_from_the_cache_to_a_full_layout() {
    let mut facts = dirty_still();
    facts.cached_viewport_matches = true;
    assert_eq!(frame_lanes(&facts, None), vec![FrameLane::Cached]);
    let mut facts = dirty_still();
    facts.layout_dirty = false;
    assert_eq!(frame_lanes(&facts, None), vec![FrameLane::Repaint]);
    let dom = damage(LayoutDamageKind::Dom, vec![7], false);
    assert_eq!(
        frame_lanes(&dirty_still(), Some(&dom)),
        vec![
            FrameLane::RepositionPositioned,
            FrameLane::ResizePositionedLeaf,
            FrameLane::BackgroundOnly,
            FrameLane::LocalReformat(7),
            FrameLane::FullLayout,
        ]
    );
    let mut facts = dirty_still();
    facts.container_queries = true;
    facts.animation_idle = false;
    assert_eq!(frame_lanes(&facts, Some(&dom)), vec![FrameLane::FullLayout]);
    let mut facts = dirty_still();
    facts.viewport_changed = true;
    let viewport = damage(LayoutDamageKind::Viewport, vec![], true);
    assert_eq!(frame_lanes(&facts, Some(&viewport)), vec![FrameLane::FullLayout]);
}

#[test]
fn completed_frames_advance_their_counters() {
    let mut counters = FrameCounters { generation: 4, layout_generation: 2, layout_dirty: true };
    counters.complete(FrameLane::Cached);
    assert_eq!(counters, FrameCounters { generation: 4, layout_generation: 2, layout_dirty: true });
    counters.complete(FrameLane::BackgroundOnly);
    assert_eq!(counters, FrameCounters { generation: 5, layout_generation: 2, layout_dirty: false });
    counters.complete(FrameLane::Repaint);
    assert_eq!(counters, FrameCounters { generation: 6, layout_generation: 2, layout_dirty: false });
    counters.layout_dirty = true;
    counters.complete(FrameLane::LocalReformat(3));
    assert_eq!(counters, FrameCounters { generation: 7, layout_generation: 3, layout_dirty: false });
    let mut saturated = FrameCounters { generation: u64::MAX, layout_generation: u64::MAX, layout_dirty: true };
    saturated.complete(FrameLane::FullLayout);
    assert_eq!(saturated, FrameCounters { generation: u64::MAX, layout_generation: u64::MAX, layout_dirty: false });
}

#[test]
fn a_local_root_must_keep_its_single_fragment_and_size() {
    assert_eq!(local_root_outcome(1, true), RetainedRootFormatting::Formatted);
    assert_eq!(local_root_outcome(1, false), RetainedRootFormatting::PromoteParent);
    assert_eq!(local_root_outcome(0, true), RetainedRootFormatting::Unsupported);
    assert_eq!(local_root_outcome(2, false), RetainedRootFormatting::Unsupported);
}
