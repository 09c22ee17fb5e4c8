use genet_livery::taffy_style::{
    align_content, align_items, backend_flex_cross_start, calc_tag, calc_tag_index,
    effective_flex_child_alignment, element_origin_node, grid_auto_flow, grid_placement,
    justify_content, map_flex_child_self_alignment, map_grid_static_self_alignment,
    map_vertical_grid_static_alignment, overflow, physical_flex_cross_alignment,
    physical_flex_cross_axis_direction, physical_flex_direction, physical_flex_gap,
    physical_flex_justify_content, physical_flex_main_axis_start, physical_flex_wrap,
    reverse_self_alignment, same_physical_axis, self_alignment, self_alignment_for_axis,
    plan_static_position_child, set_physical_self_alignment, subject_side_on_axis, StaticPositionChild,
    StaticPositionContainer, StaticPositionPlan, suppresses_stretch, AlignContent,
    AlignContentKeyword, AlignItems, AlignItemsKeyword, AlignmentSafety, AlignmentStyle,
    BoxOrigin, CalcScratch, CssAlignment, CssDisplay, CssFlexDirection, CssFlexWrap,
    CssGridAutoFlow, CssGridPlacement, CssOverflow, DirectBoxSource, FlexDirection, FlexWrap,
    FlowAxes, GridAutoFlow, GridPlacement, Overflow, PhysicalSide, SelfAlignment, SizeKind,
    TaffyDirection, to_backend_style, BackendDisplay, BackendPosition, BackendStyle, BoxSizing, ContainerType,
    CssFloat, DiscreteStyle,
};

fn ltr() -> FlowAxes {
    FlowAxes::horizontal_ltr()
}

fn rtl() -> FlowAxes {
    FlowAxes::from_sides(PhysicalSide::Right, PhysicalSide::Top).unwrap()
}

fn vertical_rl() -> FlowAxes {
    FlowAxes::from_sides(PhysicalSide::Top, PhysicalSide::Right).unwrap()
}

fn sideways_lr() -> FlowAxes {
    FlowAxes::from_sides(PhysicalSide::Bottom, PhysicalSide::Left).unwrap()
}

fn style(display: CssDisplay, direction: CssFlexDirection, wrap: CssFlexWrap) -> AlignmentStyle {
    AlignmentStyle {
        display,
        flex_direction: direction,
        flex_wrap: wrap,
        justify_content: CssAlignment::Normal,
        align_items: CssAlignment::Normal,
        align_content: CssAlignment::Normal,
        justify_items: CssAlignment::Normal,
        align_self: CssAlignment::Auto,
        justify_self: CssAlignment::Auto,
        width: SizeKind::Auto,
        height: SizeKind::Auto,
    }
}

fn items(keyword: AlignItemsKeyword) -> AlignItems {
    AlignItems { keyword, safety: AlignmentSafety::Unsafe }
}

#[test]
fn flow_axes_must_be_perpendicular() {
    assert!(FlowAxes::from_sides(PhysicalSide::Left, PhysicalSide::Right).is_none());
    let flow = vertical_rl();
    assert_eq!(flow.inline_start(), PhysicalSide::Top);
    assert_eq!(flow.inline_end(), PhysicalSide::Bottom);
    assert_eq!(flow.block_end(), PhysicalSide::Left);
    assert!(!flow.is_horizontal());
}

#[test]
fn logical_flex_directions_become_physical() {
    assert_eq!(physical_flex_direction(CssFlexDirection::Row, ltr()), FlexDirection::Row);
    assert_eq!(physical_flex_direction(CssFlexDirection::RowReverse, ltr()), FlexDirection::RowReverse);
    assert_eq!(physical_flex_direction(CssFlexDirection::Row, rtl()), FlexDirection::RowReverse);
    assert_eq!(physical_flex_direction(CssFlexDirection::Row, vertical_rl()), FlexDirection::Column);
    assert_eq!(physical_flex_direction(CssFlexDirection::Column, vertical_rl()), FlexDirection::RowReverse);
    assert_eq!(physical_flex_direction(CssFlexDirection::ColumnReverse, vertical_rl()), FlexDirection::Row);
    assert_eq!(physical_flex_main_axis_start(CssFlexDirection::Column, vertical_rl()), PhysicalSide::Right);
}

#[test]
fn reversed_directions_start_at_the_opposite_side() {
    for flow in [ltr(), rtl(), vertical_rl(), sideways_lr()] {
        for (direction, reversed) in [
            (CssFlexDirection::Row, CssFlexDirection::RowReverse),
            (CssFlexDirection::Column, CssFlexDirection::ColumnReverse),
        ] {
            let forward = physical_flex_direction(direction, flow);
            let backward = physical_flex_direction(reversed, flow);
            let expected = match forward {
                FlexDirection::Row => FlexDirection::RowReverse,
                FlexDirection::RowReverse => FlexDirection::Row,
                FlexDirection::Column => FlexDirection::ColumnReverse,
                FlexDirection::ColumnReverse => FlexDirection::Column,
            };
            assert_eq!(backward, expected);
        }
    }
}

#[test]
fn cross_axis_direction_is_rtl_only_for_a_right_starting_physical_column() {
    assert_eq!(
        physical_flex_cross_axis_direction(CssFlexDirection::Row, FlexDirection::Column, vertical_rl()),
        TaffyDirection::Rtl
    );
    assert_eq!(
        physical_flex_cross_axis_direction(CssFlexDirection::Column, FlexDirection::RowReverse, vertical_rl()),
        TaffyDirection::Ltr
    );
    assert_eq!(
        physical_flex_cross_axis_direction(CssFlexDirection::Column, FlexDirection::Column, rtl()),
        TaffyDirection::Rtl
    );
}

#[test]
fn wrap_flips_for_a_bottom_starting_column_container() {
    let flow = sideways_lr();
    assert_eq!(physical_flex_direction(CssFlexDirection::Column, flow), FlexDirection::Row);
    let wrap = style(CssDisplay::Flex, CssFlexDirection::Column, CssFlexWrap::Wrap);
    assert_eq!(physical_flex_wrap(&wrap, FlexDirection::Row, flow), FlexWrap::WrapReverse);
    let reverse = style(CssDisplay::Flex, CssFlexDirection::Column, CssFlexWrap::WrapReverse);
    assert_eq!(physical_flex_wrap(&reverse, FlexDirection::Row, flow), FlexWrap::Wrap);
    let none = style(CssDisplay::Flex, CssFlexDirection::Column, CssFlexWrap::NoWrap);
    assert_eq!(physical_flex_wrap(&none, FlexDirection::Row, flow), FlexWrap::NoWrap);
    assert_eq!(physical_flex_wrap(&wrap, FlexDirection::Row, ltr()), FlexWrap::Wrap);
}

#[test]
fn cross_alignment_mirrors_for_a_bottom_starting_column_container() {
    let flow = sideways_lr();
    let nowrap = style(CssDisplay::Flex, CssFlexDirection::Column, CssFlexWrap::NoWrap);
    let cross = |computed: &AlignmentStyle, value| {
        physical_flex_cross_alignment(computed, value, CssFlexDirection::Column, FlexDirection::Row, flow)
    };
    assert_eq!(cross(&nowrap, CssAlignment::Start), CssAlignment::End);
    assert_eq!(cross(&nowrap, CssAlignment::End), CssAlignment::Start);
    assert_eq!(cross(&nowrap, CssAlignment::FlexStart), CssAlignment::FlexEnd);
    assert_eq!(cross(&nowrap, CssAlignment::Center), CssAlignment::Center);
    let wrap = style(CssDisplay::Flex, CssFlexDirection::Column, CssFlexWrap::Wrap);
    assert_eq!(cross(&wrap, CssAlignment::FlexStart), CssAlignment::FlexStart);
    let block = style(CssDisplay::Block, CssFlexDirection::Column, CssFlexWrap::NoWrap);
    assert_eq!(cross(&block, CssAlignment::Start), CssAlignment::Start);
}

#[test]
fn justify_content_lowers_flow_relative_keywords() {
    let mut computed = style(CssDisplay::Flex, CssFlexDirection::Row, CssFlexWrap::NoWrap);
    computed.justify_content = CssAlignment::Start;
    assert_eq!(
        physical_flex_justify_content(&computed, rtl()),
        AlignContent { keyword: AlignContentKeyword::End, safety: AlignmentSafety::Unsafe }
    );
    assert_eq!(
        physical_flex_justify_content(&computed, ltr()),
        AlignContent { keyword: AlignContentKeyword::Start, safety: AlignmentSafety::Unsafe }
    );
    computed.justify_content = CssAlignment::Normal;
    assert_eq!(
        physical_flex_justify_content(&computed, ltr()).keyword,
        AlignContentKeyword::FlexStart
    );
    computed.display = CssDisplay::Block;
    assert_eq!(
        physical_flex_justify_content(&computed, ltr()).keyword,
        AlignContentKeyword::Stretch
    );
}

#[test]
fn keyword_tables() {
    assert_eq!(align_items(CssAlignment::SelfEnd), items(AlignItemsKeyword::End));
    assert_eq!(align_items(CssAlignment::Normal), items(AlignItemsKeyword::Stretch));
    assert_eq!(align_content(CssAlignment::SpaceEvenly).keyword, AlignContentKeyword::SpaceEvenly);
    assert_eq!(align_content(CssAlignment::Baseline).keyword, AlignContentKeyword::Stretch);
    assert_eq!(justify_content(CssAlignment::Center).keyword, AlignContentKeyword::Center);
}

#[test]
fn flex_gaps_transpose_for_a_vertical_flex_container() {
    assert_eq!(physical_flex_gap(CssDisplay::Flex, 1, 2, vertical_rl()), (1, 2));
    assert_eq!(physical_flex_gap(CssDisplay::Flex, 1, 2, ltr()), (2, 1));
    assert_eq!(physical_flex_gap(CssDisplay::Grid, 1, 2, vertical_rl()), (2, 1));
}

#[test]
fn content_keyword_sizes_suppress_stretch() {
    assert!(suppresses_stretch(SizeKind::MinContent));
    assert!(suppresses_stretch(SizeKind::FitContent));
    assert!(!suppresses_stretch(SizeKind::Value));
    assert_eq!(self_alignment(CssAlignment::Auto, SizeKind::MaxContent), Some(items(AlignItemsKeyword::Start)));
    assert_eq!(self_alignment(CssAlignment::Auto, SizeKind::Auto), None);
    assert_eq!(self_alignment(CssAlignment::Center, SizeKind::Auto), Some(items(AlignItemsKeyword::Center)));
}

#[test]
fn effective_child_alignment_inherits_and_degrades_stretch() {
    let parent = style(CssDisplay::Flex, CssFlexDirection::Row, CssFlexWrap::NoWrap);
    let mut subject = style(CssDisplay::Block, CssFlexDirection::Row, CssFlexWrap::NoWrap);
    assert_eq!(effective_flex_child_alignment(&parent, &subject, SizeKind::Auto), None);
    assert_eq!(
        effective_flex_child_alignment(&parent, &subject, SizeKind::MinContent),
        Some(CssAlignment::FlexStart)
    );
    subject.align_self = CssAlignment::Stretch;
    assert_eq!(effective_flex_child_alignment(&parent, &subject, SizeKind::Auto), Some(CssAlignment::Stretch));
    let mut centered = parent;
    centered.align_items = CssAlignment::Center;
    subject.align_self = CssAlignment::Auto;
    assert_eq!(effective_flex_child_alignment(&centered, &subject, SizeKind::Auto), Some(CssAlignment::Center));
}

#[test]
fn physical_axes_and_subject_sides() {
    assert_eq!(backend_flex_cross_start(FlexDirection::Column, TaffyDirection::Rtl), PhysicalSide::Right);
    assert_eq!(backend_flex_cross_start(FlexDirection::Row, TaffyDirection::Rtl), PhysicalSide::Top);
    assert!(same_physical_axis(PhysicalSide::Left, PhysicalSide::Right));
    assert!(!same_physical_axis(PhysicalSide::Top, PhysicalSide::Left));
    assert_eq!(subject_side_on_axis(vertical_rl(), PhysicalSide::Left, true), PhysicalSide::Right);
    assert_eq!(subject_side_on_axis(vertical_rl(), PhysicalSide::Left, false), PhysicalSide::Left);
    assert_eq!(subject_side_on_axis(vertical_rl(), PhysicalSide::Bottom, true), PhysicalSide::Top);
    assert_eq!(
        self_alignment_for_axis(CssAlignment::SelfStart, vertical_rl(), PhysicalSide::Left),
        Some(items(AlignItemsKeyword::End))
    );
    assert_eq!(self_alignment_for_axis(CssAlignment::Center, vertical_rl(), PhysicalSide::Left), None);
}

#[test]
fn self_alignment_slots() {
    let mut slots = SelfAlignment { align_self: None, justify_self: None };
    set_physical_self_alignment(&mut slots, PhysicalSide::Top, items(AlignItemsKeyword::Center));
    set_physical_self_alignment(&mut slots, PhysicalSide::Right, items(AlignItemsKeyword::End));
    assert_eq!(
        slots,
        SelfAlignment {
            align_self: Some(items(AlignItemsKeyword::Center)),
            justify_self: Some(items(AlignItemsKeyword::End)),
        }
    );
    assert_eq!(reverse_self_alignment(Some(items(AlignItemsKeyword::Start))), Some(items(AlignItemsKeyword::End)));
    assert_eq!(
        reverse_self_alignment(Some(items(AlignItemsKeyword::SelfStart))),
        Some(items(AlignItemsKeyword::SelfEnd))
    );
    assert_eq!(reverse_self_alignment(Some(items(AlignItemsKeyword::Center))), Some(items(AlignItemsKeyword::Center)));
    assert_eq!(reverse_self_alignment(None), None);
}

#[test]
fn vertical_grid_static_alignment_trades_axes() {
    let mut slots = SelfAlignment {
        align_self: Some(items(AlignItemsKeyword::Start)),
        justify_self: Some(items(AlignItemsKeyword::End)),
    };
    map_vertical_grid_static_alignment(&mut slots, vertical_rl());
    assert_eq!(
        slots,
        SelfAlignment {
            align_self: Some(items(AlignItemsKeyword::End)),
            justify_self: Some(items(AlignItemsKeyword::End)),
        }
    );
    let mut slots = SelfAlignment { align_self: None, justify_self: None };
    map_grid_static_self_alignment(&mut slots, ltr(), vertical_rl(), CssAlignment::SelfStart, CssAlignment::Center);
    assert_eq!(slots, SelfAlignment { align_self: Some(items(AlignItemsKeyword::Start)), justify_self: None });
}

#[test]
fn flex_child_self_alignment_resolves_against_the_subject() {
    let parent = style(CssDisplay::Flex, CssFlexDirection::Row, CssFlexWrap::NoWrap);
    let mut subject = style(CssDisplay::Block, CssFlexDirection::Row, CssFlexWrap::NoWrap);
    subject.align_self = CssAlignment::SelfEnd;
    let mut slots = SelfAlignment { align_self: None, justify_self: None };
    map_flex_child_self_alignment(&mut slots, &parent, ltr(), ltr(), &subject);
    assert_eq!(slots.align_self, Some(items(AlignItemsKeyword::End)));
    subject.align_self = CssAlignment::Auto;
    map_flex_child_self_alignment(&mut slots, &parent, ltr(), ltr(), &subject);
    assert_eq!(slots.align_self, None);
}

#[test]
fn grid_and_overflow_tables() {
    assert_eq!(grid_auto_flow(CssGridAutoFlow::ColumnDense), GridAutoFlow::ColumnDense);
    assert_eq!(grid_placement(CssGridPlacement::Line(-2)), GridPlacement::Line(-2));
    assert_eq!(grid_placement(CssGridPlacement::Span(3)), GridPlacement::Span(3));
    assert_eq!(overflow(CssOverflow::Auto), Overflow::Scroll);
    assert_eq!(overflow(CssOverflow::Clip), Overflow::Clip);
}

#[test]
fn only_element_boxes_own_a_style() {
    assert_eq!(element_origin_node(BoxOrigin::Element(4)), Some(4));
    assert_eq!(element_origin_node(BoxOrigin::Pseudo(4)), None);
    assert_eq!(element_origin_node(BoxOrigin::Anonymous(Some(4))), None);
    assert_eq!(vec![7u64].direct_box(), Some(7));
    assert_eq!(vec![1u64, 2].direct_box(), None);
    assert_eq!(Some(3u64).direct_box(), Some(3));
}

#[test]
fn calc_tags_round_trip_through_the_scratch() {
    assert_eq!(calc_tag(0), 8);
    assert_eq!(calc_tag_index(calc_tag(41)), 41);
    assert_eq!(calc_tag_index(3), usize::MAX);
    let mut scratch = CalcScratch::new();
    let first = scratch.calc_slot(10i32);
    let second = scratch.calc_slot(20i32);
    assert_eq!(scratch.resolve(first), Some(10));
    assert_eq!(scratch.resolve(second), Some(20));
    assert_eq!(scratch.resolve(calc_tag(2)), None);
    scratch.reset_calc_scratch();
    assert_eq!(scratch.resolve(first), None);
}

#[test]
fn static_position_plans_for_flex_and_grid_children() {
    let slots = SelfAlignment {
        align_self: Some(items(AlignItemsKeyword::Start)),
        justify_self: Some(items(AlignItemsKeyword::End)),
    };
    let child = StaticPositionChild {
        slots,
        out_of_flow: true,
        element: None,
        subject: Some((ltr(), CssAlignment::SelfStart, CssAlignment::Auto)),
        contained_by_container: true,
    };
    assert_eq!(
        plan_static_position_child(StaticPositionContainer::Grid(vertical_rl()), child),
        StaticPositionPlan {
            slots: SelfAlignment {
                align_self: Some(items(AlignItemsKeyword::End)),
                justify_self: Some(items(AlignItemsKeyword::Start)),
            },
            enable_provider: true,
            use_grid_area: true,
        }
    );
    let in_flow = StaticPositionChild { out_of_flow: false, ..child };
    assert_eq!(
        plan_static_position_child(StaticPositionContainer::Grid(vertical_rl()), in_flow),
        StaticPositionPlan { slots, enable_provider: false, use_grid_area: false }
    );

    let parent = style(CssDisplay::Flex, CssFlexDirection::Row, CssFlexWrap::NoWrap);
    let mut subject = style(CssDisplay::Block, CssFlexDirection::Row, CssFlexWrap::NoWrap);
    subject.align_self = CssAlignment::SelfEnd;
    let flex_child = StaticPositionChild {
        slots,
        out_of_flow: false,
        element: Some((ltr(), subject)),
        subject: None,
        contained_by_container: false,
    };
    let plan = plan_static_position_child(StaticPositionContainer::Flex(Some((parent, ltr()))), flex_child);
    assert_eq!(plan.slots.align_self, Some(items(AlignItemsKeyword::End)));
    assert_eq!(plan.slots.justify_self, slots.justify_self);
    assert!(!plan.enable_provider);
    assert_eq!(
        plan_static_position_child(StaticPositionContainer::Other, child),
        StaticPositionPlan { slots, enable_provider: false, use_grid_area: false }
    );
}

fn discrete(alignment: AlignmentStyle, container_type: ContainerType, vertical: bool) -> DiscreteStyle {
    DiscreteStyle {
        alignment,
        float: CssFloat::NoFloat,
        box_sizing: BoxSizing::BorderBox,
        overflow_x: CssOverflow::Auto,
        overflow_y: CssOverflow::Hidden,
        container_type,
        vertical_writing_mode: vertical,
        grid_auto_flow: CssGridAutoFlow::RowDense,
        grid_column_start: CssGridPlacement::Line(2),
        grid_column_end: CssGridPlacement::Span(2),
        grid_row_start: CssGridPlacement::Auto,
        grid_row_end: CssGridPlacement::Line(-1),
    }
}

#[test]
fn backend_style_of_an_rtl_flex_row() {
    let mut alignment = style(CssDisplay::Flex, CssFlexDirection::Row, CssFlexWrap::Wrap);
    alignment.justify_content = CssAlignment::Start;
    alignment.align_items = CssAlignment::Center;
    alignment.justify_self = CssAlignment::End;
    let computed = discrete(alignment, ContainerType::InlineSize, false);
    let backend: BackendStyle = to_backend_style(&computed, rtl());
    assert_eq!(backend.display, BackendDisplay::Flex);
    assert_eq!(backend.position, BackendPosition::Relative);
    assert!(backend.inset_auto);
    assert_eq!(backend.flex_direction, FlexDirection::RowReverse);
    assert_eq!(backend.direction, TaffyDirection::Ltr);
    assert_eq!(backend.flex_wrap, FlexWrap::Wrap);
    assert_eq!(backend.justify_content.keyword, AlignContentKeyword::End);
    assert_eq!(backend.align_items, items(AlignItemsKeyword::Center));
    assert_eq!(backend.align_content.keyword, AlignContentKeyword::Stretch);
    assert_eq!(backend.align_self, None);
    assert_eq!(backend.justify_self, Some(items(AlignItemsKeyword::End)));
    assert!(backend.contain_width);
    assert!(!backend.contain_height);
    assert_eq!(backend.overflow_x, Overflow::Scroll);
    assert_eq!(backend.overflow_y, Overflow::Hidden);
    assert_eq!(backend.box_sizing, BoxSizing::BorderBox);
    assert_eq!(backend.float, CssFloat::NoFloat);
    assert_eq!(backend.grid_auto_flow, GridAutoFlow::RowDense);
    assert_eq!(backend.grid_column_start, GridPlacement::Line(2));
    assert_eq!(backend.grid_column_end, GridPlacement::Span(2));
    assert_eq!(backend.grid_row_start, GridPlacement::Auto);
    assert_eq!(backend.grid_row_end, GridPlacement::Line(-1));
}

#[test]
fn backend_style_of_a_vertical_grid_contains_the_inline_height() {
    let mut alignment = style(CssDisplay::Grid, CssFlexDirection::Row, CssFlexWrap::NoWrap);
    alignment.justify_content = CssAlignment::Start;
    let mut computed = discrete(alignment, ContainerType::InlineSize, true);
    computed.float = CssFloat::Left;
    let backend = to_backend_style(&computed, vertical_rl());
    assert_eq!(backend.display, BackendDisplay::Grid);
    assert_eq!(backend.direction, TaffyDirection::Ltr);
    assert_eq!(backend.flex_wrap, FlexWrap::NoWrap);
    assert_eq!(backend.justify_content.keyword, AlignContentKeyword::Start);
    assert!(!backend.contain_width);
    assert!(backend.contain_height);
    assert_eq!(backend.float, CssFloat::Left);
    let mut block = computed;
    block.alignment.display = CssDisplay::Block;
    block.container_type = ContainerType::Size;
    let backend = to_backend_style(&block, ltr());
    assert_eq!(backend.display, BackendDisplay::Block);
    assert!(backend.contain_width && backend.contain_height);
    let mut hidden = block;
    hidden.alignment.display = CssDisplay::DisplayNone;
    hidden.container_type = ContainerType::Normal;
    let backend = to_backend_style(&hidden, ltr());
    assert_eq!(backend.display, BackendDisplay::DisplayNone);
    assert_eq!(backend.position, BackendPosition::Relative);
    assert!(backend.inset_auto);
    assert!(!backend.contain_width && !backend.contain_height);
}
