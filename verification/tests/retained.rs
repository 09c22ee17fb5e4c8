use std::collections::HashMap;

use genet_livery::retained::{
    to_block_formatting, BlockInput, element_build_plan, ElementBuildPlan, ancestor_styles_unchanged,
    in_place_root, atomic_inline_roots, is_atomic_inline_display,
    atomic_merge_passes,
    algorithm_kind, box_is_descendant_of, box_is_inline, intrinsic_owner_for_flow_children,
    positioned_roots_in_inline_group, stretched_by_ancestor_context, wrapper_needs_float_fallback, legacy_origin_node, retained_root_box,
    retained_table_owner, supports_float_avoidance, supports_intrinsic_shrink_to_fit,
    supports_nested_float_state, supports_retained_root_formatting,
    supports_retained_table_root_formatting, wrapped_table_grid, AlgorithmKind, BlockPosition,
    BlockStyle, DisplayInside, DisplayOutside, FloatSide, FormattingContextKind, GeneratedBox,
    GeneratedBoxTree, PositioningScheme,
};
use genet_livery::tables::InternalTableRole;
use genet_livery::taffy_style::{
    BoxOrigin, ContainerType, CssDisplay, CssFloat, CssOverflow, FlowAxes, PhysicalSide,
};
use genet_livery::tables::CssPosition;
use genet_livery::document::DocumentTree;
use genet_livery::replaced::is_replaced_element_name;

fn generated(origin: BoxOrigin, parent: Option<u64>, children: Vec<u64>) -> GeneratedBox {
    GeneratedBox {
        origin,
        parent,
        children,
        positioning: PositioningScheme::Static,
        float: FloatSide::NoFloat,
        outside: Some(DisplayOutside::Block),
        inside: Some(DisplayInside::Flow),
        internal_table: None,
        formatting_context: None,
    }
}

/// 0 html, 1 flex div with a text box (2) and an inline span (3),
/// 4 table wrapper around grid 5 with row 6.
fn boxes(span_outside: DisplayOutside) -> Vec<GeneratedBox> {
    let mut html = generated(BoxOrigin::Element(1), None, vec![1, 4]);
    html.formatting_context = Some(FormattingContextKind::Block);
    let mut flex = generated(BoxOrigin::Element(2), Some(0), vec![2, 3]);
    flex.formatting_context = Some(FormattingContextKind::Flex);
    flex.inside = Some(DisplayInside::Flex);
    let mut text = generated(BoxOrigin::Text(3), Some(1), vec![]);
    text.outside = Some(DisplayOutside::Inline);
    let mut span = generated(BoxOrigin::Element(4), Some(1), vec![]);
    span.outside = Some(span_outside);
    let mut wrapper = generated(BoxOrigin::Element(5), Some(0), vec![5]);
    wrapper.internal_table = Some(InternalTableRole::Wrapper);
    let mut grid = generated(BoxOrigin::Element(5), Some(4), vec![6]);
    grid.internal_table = Some(InternalTableRole::Grid);
    let mut row = generated(BoxOrigin::Element(6), Some(5), vec![]);
    row.internal_table = Some(InternalTableRole::Row);
    vec![html, flex, text, span, wrapper, grid, row]
}

fn principal() -> HashMap<u64, u64> {
    [(1, 0), (2, 1), (4, 3), (5, 5), (6, 6)].into_iter().collect()
}

fn tree(span_outside: DisplayOutside) -> GeneratedBoxTree {
    GeneratedBoxTree::from_parts(boxes(span_outside), principal()).expect("tree order")
}

#[test]
fn trees_must_be_numbered_in_tree_order() {
    let mut bad = boxes(DisplayOutside::Block);
    bad[1].children = vec![0];
    assert!(GeneratedBoxTree::from_parts(bad, principal()).is_none());
    let mut bad = boxes(DisplayOutside::Block);
    bad[2].parent = Some(3);
    assert!(GeneratedBoxTree::from_parts(bad, principal()).is_none());
    let mut stray = principal();
    stray.insert(9, 70);
    assert!(GeneratedBoxTree::from_parts(boxes(DisplayOutside::Block), stray).is_none());
    let tree = tree(DisplayOutside::Block);
    assert_eq!(tree.len(), 7);
    assert_eq!(tree.principal_box(5), Some(5));
    assert_eq!(tree.principal_box(3), None);
}

#[test]
fn descendants_follow_parent_links() {
    let tree = tree(DisplayOutside::Block);
    assert!(box_is_descendant_of(&tree, 6, 4));
    assert!(box_is_descendant_of(&tree, 3, 3));
    assert!(box_is_descendant_of(&tree, 2, 0));
    assert!(!box_is_descendant_of(&tree, 6, 1));
}

#[test]
fn retained_roots_hold_only_normal_flow_blocks() {
    assert!(!supports_retained_root_formatting(&tree(DisplayOutside::Inline), 1));
    assert!(supports_retained_root_formatting(&tree(DisplayOutside::Block), 1));
    assert!(!supports_retained_root_formatting(&tree(DisplayOutside::Block), 0));
    let mut positioned = boxes(DisplayOutside::Block);
    positioned[2].positioning = PositioningScheme::Absolute;
    let positioned = GeneratedBoxTree::from_parts(positioned, principal()).unwrap();
    assert!(!supports_retained_root_formatting(&positioned, 1));
}

#[test]
fn retained_table_roots_are_wrappers_without_nested_wrappers() {
    let tree = tree(DisplayOutside::Block);
    assert!(supports_retained_table_root_formatting(&tree, 4));
    assert!(!supports_retained_table_root_formatting(&tree, 5));
    let mut floated = boxes(DisplayOutside::Block);
    floated[6].float = FloatSide::Left;
    let floated = GeneratedBoxTree::from_parts(floated, principal()).unwrap();
    assert!(!supports_retained_table_root_formatting(&floated, 4));
}

#[test]
fn roots_and_owners_of_changed_nodes() {
    let tree = tree(DisplayOutside::Block);
    assert_eq!(retained_root_box(&tree, 5), Some(4));
    assert_eq!(retained_root_box(&tree, 2), Some(1));
    assert_eq!(retained_root_box(&tree, 4), None);
    assert_eq!(retained_root_box(&tree, 9), None);
    assert_eq!(retained_table_owner(&tree, &vec![6]), Some(5));
    assert_eq!(retained_table_owner(&tree, &vec![2, 6]), Some(5));
    assert_eq!(retained_table_owner(&tree, &vec![2]), None);
    assert_eq!(legacy_origin_node(&tree, 5), Some(5));
    assert_eq!(legacy_origin_node(&tree, 4), None);
    assert_eq!(legacy_origin_node(&tree, 2), Some(3));
    assert_eq!(wrapped_table_grid(&tree, 4), Some(5));
    assert_eq!(wrapped_table_grid(&tree, 1), None);
}

#[test]
fn algorithm_kinds() {
    let tree = tree(DisplayOutside::Block);
    assert_eq!(algorithm_kind(tree.get(5), false), AlgorithmKind::Table);
    assert_eq!(algorithm_kind(tree.get(1), false), AlgorithmKind::Flex);
    assert_eq!(algorithm_kind(tree.get(0), false), AlgorithmKind::Block);
    assert_eq!(algorithm_kind(tree.get(1), true), AlgorithmKind::Leaf);
}

fn block_style(flow: FlowAxes, containing_flow: FlowAxes) -> BlockStyle {
    BlockStyle {
        establishes_bfc: false,
        position: BlockPosition::Relative,
        float: FloatSide::NoFloat,
        replaced: false,
        shrink_to_fit: false,
        flow,
        containing_flow,
    }
}

#[test]
fn float_lanes() {
    let ltr = FlowAxes::horizontal_ltr();
    let rtl = FlowAxes::from_sides(PhysicalSide::Right, PhysicalSide::Top).unwrap();
    let vertical = FlowAxes::from_sides(PhysicalSide::Top, PhysicalSide::Right).unwrap();
    let tree = tree(DisplayOutside::Block);
    let div = tree.get(0);
    assert!(supports_nested_float_state(div, &block_style(ltr, rtl), AlgorithmKind::Block));
    assert!(supports_nested_float_state(div, &block_style(vertical, vertical), AlgorithmKind::Block));
    assert!(!supports_nested_float_state(div, &block_style(vertical, ltr), AlgorithmKind::Block));
    assert!(!supports_nested_float_state(div, &block_style(ltr, ltr), AlgorithmKind::Flex));
    let mut bfc = block_style(ltr, ltr);
    bfc.establishes_bfc = true;
    assert!(!supports_nested_float_state(div, &bfc, AlgorithmKind::Block));
    assert!(!supports_float_avoidance(div, &bfc, AlgorithmKind::Block));
    bfc.position = BlockPosition::Static;
    assert!(supports_float_avoidance(div, &bfc, AlgorithmKind::Block));
    assert!(!supports_float_avoidance(div, &bfc, AlgorithmKind::Table));
    let mut vertical_bfc = bfc;
    vertical_bfc.flow = vertical;
    assert!(!supports_float_avoidance(div, &vertical_bfc, AlgorithmKind::Block));
}

#[test]
fn shrink_to_fit_lane() {
    let ltr = FlowAxes::horizontal_ltr();
    let mut style = block_style(ltr, ltr);
    style.position = BlockPosition::Static;
    style.shrink_to_fit = true;
    style.float = FloatSide::Left;
    let tree = tree(DisplayOutside::Block);
    assert!(supports_intrinsic_shrink_to_fit(&tree, 3, &style, AlgorithmKind::Block, true, true));
    assert!(!supports_intrinsic_shrink_to_fit(&tree, 3, &style, AlgorithmKind::Block, false, true));
    assert!(!supports_intrinsic_shrink_to_fit(&tree, 3, &style, AlgorithmKind::Block, true, false));
    // An inline-level flex item is blockified, so it is no atomic inline.
    let inline_tree = self::tree(DisplayOutside::Inline);
    style.float = FloatSide::NoFloat;
    assert!(!supports_intrinsic_shrink_to_fit(&inline_tree, 3, &style, AlgorithmKind::Block, true, true));
}

/// 0 block, children: 1 inline, 2 inline, 3 block, 4 inline (anonymous
/// wrapper of 5), 5 positioned inside 4, 6 inline under 5, 7 fixed under 4.
fn runs_tree() -> GeneratedBoxTree {
    let inline = |origin, parent, children| {
        let mut b = generated(origin, Some(parent), children);
        b.outside = Some(DisplayOutside::Inline);
        b
    };
    let mut root = generated(BoxOrigin::Element(1), None, vec![1, 2, 3, 4]);
    root.formatting_context = Some(FormattingContextKind::Grid);
    let mut anonymous = inline(BoxOrigin::Anonymous(Some(1)), 0, vec![5, 7]);
    anonymous.formatting_context = Some(FormattingContextKind::Block);
    let mut positioned = inline(BoxOrigin::Element(5), 4, vec![6]);
    positioned.positioning = PositioningScheme::Absolute;
    let mut fixed = generated(BoxOrigin::Element(7), Some(4), vec![]);
    fixed.positioning = PositioningScheme::Fixed;
    let boxes = vec![
        root,
        inline(BoxOrigin::Text(2), 0, vec![]),
        inline(BoxOrigin::Element(3), 0, vec![]),
        generated(BoxOrigin::Element(4), Some(0), vec![]),
        anonymous,
        positioned,
        inline(BoxOrigin::Text(6), 5, vec![]),
        fixed,
    ];
    GeneratedBoxTree::from_parts(boxes, HashMap::new()).unwrap()
}

#[test]
fn inline_runs_decide_the_intrinsic_owner() {
    let tree = runs_tree();
    assert!(box_is_inline(&tree, 1));
    assert!(!box_is_inline(&tree, 3));
    assert!(!box_is_inline(&tree, 5));
    assert_eq!(intrinsic_owner_for_flow_children(&tree, 0, &vec![1, 2]), Some(0));
    assert_eq!(intrinsic_owner_for_flow_children(&tree, 0, &vec![1, 2, 3]), Some(0));
    assert_eq!(intrinsic_owner_for_flow_children(&tree, 0, &vec![1, 2, 3, 4]), None);
    assert_eq!(intrinsic_owner_for_flow_children(&tree, 0, &vec![3]), None);
    assert_eq!(intrinsic_owner_for_flow_children(&tree, 0, &vec![]), None);
}

#[test]
fn positioned_roots_stop_at_the_outermost_box() {
    let tree = runs_tree();
    assert_eq!(positioned_roots_in_inline_group(&tree, &vec![4]), vec![5, 7]);
    assert_eq!(positioned_roots_in_inline_group(&tree, &vec![0]), vec![5, 7]);
    assert_eq!(positioned_roots_in_inline_group(&tree, &vec![1, 5]), Vec::<u64>::new());
}

#[test]
fn stretching_skips_anonymous_ancestors() {
    let tree = runs_tree();
    assert!(stretched_by_ancestor_context(&tree, 5));
    assert!(stretched_by_ancestor_context(&tree, 3));
    assert!(!stretched_by_ancestor_context(&tree, 6));
    assert!(!stretched_by_ancestor_context(&tree, 0));
}

#[test]
fn wrappers_fall_back_to_floats_only_in_block_flow() {
    let tree = runs_tree();
    assert!(!wrapper_needs_float_fallback(&tree, 3, false, false));
    let table = self::tree(DisplayOutside::Block);
    assert!(wrapper_needs_float_fallback(&table, 4, false, false));
    assert!(!wrapper_needs_float_fallback(&table, 4, true, false));
    assert!(!wrapper_needs_float_fallback(&table, 4, false, true));
}

#[test]
fn table_internal_fragments_wait_for_the_table_structure() {
    let tree = tree(DisplayOutside::Block);
    let (first, second) = atomic_merge_passes(&tree, 4, &vec![4, 5, 6], &vec![5]);
    assert_eq!(first, vec![5]);
    assert_eq!(second, vec![5, 6]);
    let (first, second) = atomic_merge_passes(&tree, 0, &vec![0, 1, 2, 3, 4, 5, 6], &vec![5]);
    assert_eq!(first, vec![1, 2, 3, 4, 5]);
    assert_eq!(second, vec![1, 2, 3, 4, 5, 6]);
    let (first, second) = atomic_merge_passes(&tree, 1, &vec![1, 2, 3], &vec![]);
    assert_eq!(first, vec![2, 3]);
    assert_eq!(second, vec![2, 3]);
}

fn block_input() -> BlockInput {
    BlockInput {
        inside: Some(DisplayInside::Flow),
        display: CssDisplay::Block,
        position: CssPosition::Static,
        float: CssFloat::NoFloat,
        overflow_x: CssOverflow::Visible,
        overflow_y: CssOverflow::Visible,
        container_type: ContainerType::Normal,
        contain_size: false,
        contain_inline_size: false,
        contain_layout: false,
        contain_paint: false,
        vertical: false,
        width_auto: true,
        replaced: false,
        root_element: false,
        flow: FlowAxes::horizontal_ltr(),
        containing_flow: FlowAxes::horizontal_ltr(),
    }
}

#[test]
fn block_formatting_contexts_come_from_display_position_overflow_and_containment() {
    let plain = to_block_formatting(&block_input());
    assert!(!plain.style.establishes_bfc);
    assert!(!plain.style.shrink_to_fit);
    assert_eq!(plain.style.position, BlockPosition::Static);
    assert!(!plain.contain_width && !plain.contain_height);
    let mut input = block_input();
    input.overflow_y = CssOverflow::Clip;
    assert!(to_block_formatting(&input).style.establishes_bfc);
    let mut input = block_input();
    input.inside = Some(DisplayInside::Flex);
    assert!(to_block_formatting(&input).style.establishes_bfc);
    let mut input = block_input();
    input.contain_paint = true;
    assert!(to_block_formatting(&input).style.establishes_bfc);
    let mut input = block_input();
    input.float = CssFloat::Right;
    let floated = to_block_formatting(&input);
    assert!(floated.style.establishes_bfc && floated.style.shrink_to_fit);
    assert_eq!(floated.style.float, FloatSide::Right);
    input.width_auto = false;
    assert!(!to_block_formatting(&input).style.shrink_to_fit);
    let mut input = block_input();
    input.position = CssPosition::Sticky;
    let sticky = to_block_formatting(&input);
    assert!(!sticky.style.establishes_bfc);
    assert_eq!(sticky.style.position, BlockPosition::Sticky);
}

#[test]
fn size_containment_follows_the_inline_axis() {
    let mut input = block_input();
    input.container_type = ContainerType::InlineSize;
    let horizontal = to_block_formatting(&input);
    assert!(horizontal.contain_width && !horizontal.contain_height);
    input.vertical = true;
    let vertical = to_block_formatting(&input);
    assert!(!vertical.contain_width && vertical.contain_height);
    input.contain_inline_size = true;
    input.vertical = false;
    input.container_type = ContainerType::Normal;
    assert!(to_block_formatting(&input).contain_width);
    input.contain_size = true;
    let both = to_block_formatting(&input);
    assert!(both.contain_width && both.contain_height);
}

#[test]
fn element_build_plans_pick_the_lanes() {
    let tree = tree(DisplayOutside::Block);
    let ltr = FlowAxes::horizontal_ltr();
    let style = block_style(ltr, ltr);
    // The html box formats its children as a block and shares float state.
    assert_eq!(
        element_build_plan(&tree, 0, &style, true, false, false, true, true),
        ElementBuildPlan {
            replaced_leaf: false,
            kind: AlgorithmKind::Block,
            nested_float_state: true,
            inline_context_float: false,
            float_avoidance: false,
            intrinsic_shrink_to_fit: false,
        }
    );
    // A flex container establishing a context, beside floats.
    let mut flex_style = style;
    flex_style.establishes_bfc = true;
    flex_style.position = BlockPosition::Static;
    let plan = element_build_plan(&tree, 1, &flex_style, true, false, false, true, true);
    assert_eq!(plan.kind, AlgorithmKind::Flex);
    assert!(!plan.nested_float_state);
    assert!(plan.float_avoidance);
    // A replaced element with a natural size and no children is a leaf.
    let plan = element_build_plan(&tree, 3, &style, false, true, false, true, true);
    assert!(plan.replaced_leaf);
    assert_eq!(plan.kind, AlgorithmKind::Leaf);
    // A float in an inline formatting context is marked as such.
    let mut float_style = style;
    float_style.float = FloatSide::Left;
    let plan = element_build_plan(&tree, 3, &float_style, true, false, true, true, true);
    assert!(plan.inline_context_float);
    assert!(!plan.nested_float_state);
}

#[test]
fn in_place_roots_need_unchanged_styles_above() {
    let tree = tree(DisplayOutside::Block);
    // Box 1 (the flex div, element 2) establishes a flex context.
    let mut changed = vec![false; 7];
    assert!(ancestor_styles_unchanged(&tree, &changed, 1));
    assert_eq!(in_place_root(&tree, 2, false, &changed), Some(1));
    assert_eq!(in_place_root(&tree, 2, true, &changed), None);
    changed[0] = true;
    assert!(!ancestor_styles_unchanged(&tree, &changed, 1));
    assert_eq!(in_place_root(&tree, 2, false, &changed), None);
    // A change below the root does not block it.
    let mut changed = vec![false; 7];
    changed[2] = true;
    assert!(ancestor_styles_unchanged(&tree, &changed, 1));
    // An element without a principal box has no root.
    assert_eq!(in_place_root(&tree, 3, false, &vec![]), None);
}

#[test]
fn atomic_inline_roots_skip_nested_atoms_and_lift_inline_tables() {
    // DOM: 0 document, 1 html, 2 inline-block span, 3 img in the span,
    // 4 inline table, 5 em.
    let dom = DocumentTree::from_parents(vec![None, Some(0), Some(1), Some(2), Some(1), Some(1)]).unwrap();
    let html = generated(BoxOrigin::Element(1), None, vec![1, 3, 5]);
    let mut span = generated(BoxOrigin::Element(2), Some(0), vec![2]);
    span.outside = Some(DisplayOutside::Inline);
    let mut img = generated(BoxOrigin::Element(3), Some(1), vec![]);
    img.outside = Some(DisplayOutside::Inline);
    let mut wrapper = generated(BoxOrigin::Element(4), Some(0), vec![4]);
    wrapper.outside = Some(DisplayOutside::Inline);
    wrapper.internal_table = Some(InternalTableRole::Wrapper);
    let mut grid = generated(BoxOrigin::Element(4), Some(3), vec![]);
    grid.outside = Some(DisplayOutside::Inline);
    grid.internal_table = Some(InternalTableRole::Grid);
    let mut em = generated(BoxOrigin::Element(5), Some(0), vec![]);
    em.outside = Some(DisplayOutside::Inline);
    let principal: HashMap<u64, u64> = [(1, 0), (2, 1), (3, 2), (4, 4), (5, 5)].into_iter().collect();
    let boxes = GeneratedBoxTree::from_parts(vec![html, span, img, wrapper, grid, em], principal).unwrap();
    let atomic = vec![false, false, true, true, true, false];
    assert_eq!(atomic_inline_roots(&dom, &boxes, &atomic), vec![1, 3]);
    let none = vec![false; 6];
    assert_eq!(atomic_inline_roots(&dom, &boxes, &none), Vec::<u64>::new());
}

#[test]
fn atomic_inline_displays() {
    assert!(is_atomic_inline_display(CssDisplay::InlineBlock, false, false));
    assert!(is_atomic_inline_display(CssDisplay::InlineTable, false, false));
    assert!(is_atomic_inline_display(CssDisplay::Inline, true, false));
    assert!(!is_atomic_inline_display(CssDisplay::Inline, false, false));
    assert!(is_atomic_inline_display(CssDisplay::TableCell, true, true));
    assert!(!is_atomic_inline_display(CssDisplay::TableCell, false, true));
    assert!(!is_atomic_inline_display(CssDisplay::Block, true, false));
    assert!(is_replaced_element_name("IMG"));
    assert!(is_replaced_element_name("canvas"));
    assert!(!is_replaced_element_name("video"));
}
