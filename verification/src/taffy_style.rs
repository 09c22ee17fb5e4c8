//! Projection of logical CSS alignment and flex axes onto the physical
//! vocabulary of the layout backend.
//!
//! CSS flex and grid axes are logical: they follow the container's writing
//! mode and direction. The backend's flex axes, gaps and static-position
//! self-alignment are physical. These functions convert between the two.

use vstd::prelude::*;

verus! {

/// One physical edge of a box.
#[derive(Clone, Copy, Debug, PartialEq, Eq, Structural)]
pub enum PhysicalSide {
    Top,
    Right,
    Bottom,
    Left,
}

/// Whether a side lies on the horizontal axis (left or right).
pub open spec fn is_horizontal_side(side: PhysicalSide) -> bool {
    side == PhysicalSide::Left || side == PhysicalSide::Right
}

/// The side across the box from `side`.
pub open spec fn opposite(side: PhysicalSide) -> PhysicalSide {
    match side {
        PhysicalSide::Top => PhysicalSide::Bottom,
        PhysicalSide::Bottom => PhysicalSide::Top,
        PhysicalSide::Left => PhysicalSide::Right,
        PhysicalSide::Right => PhysicalSide::Left,
    }
}

/// The physical sides a box's writing mode and direction assign to its
/// logical inline and block starts. The inline and block axes are always
/// perpendicular.
#[derive(Clone, Copy, Debug)]
pub struct FlowAxes {
    inline_start: PhysicalSide,
    block_start: PhysicalSide,
}

impl FlowAxes {
    #[verifier::type_invariant]
    closed spec fn axes_perpendicular(self) -> bool {
        is_horizontal_side(self.inline_start) != is_horizontal_side(self.block_start)
    }

    pub closed spec fn spec_inline_start(self) -> PhysicalSide {
        self.inline_start
    }

    pub closed spec fn spec_block_start(self) -> PhysicalSide {
        self.block_start
    }

    /// The invariant as seen from outside: the two starts are perpendicular.
    pub open spec fn perpendicular(self) -> bool {
        is_horizontal_side(self.spec_inline_start()) != is_horizontal_side(self.spec_block_start())
    }

    /// Flow axes from the physical sides of the logical inline and block
    /// starts; `None` when both lie on the same physical axis.
    pub fn from_sides(inline_start: PhysicalSide, block_start: PhysicalSide) -> (flow: Option<
        FlowAxes,
    >)
        ensures
            flow is Some <==> is_horizontal_side(inline_start) != is_horizontal_side(block_start),
            flow matches Some(f) ==> f.spec_inline_start() == inline_start
                && f.spec_block_start() == block_start,
    {
        if is_horizontal(inline_start) != is_horizontal(block_start) {
            Some(FlowAxes { inline_start, block_start })
        } else {
            None
        }
    }

    /// Horizontal-tb with left-to-right inline direction.
    pub fn horizontal_ltr() -> (flow: FlowAxes)
        ensures
            flow.spec_inline_start() == PhysicalSide::Left,
            flow.spec_block_start() == PhysicalSide::Top,
    {
        FlowAxes { inline_start: PhysicalSide::Left, block_start: PhysicalSide::Top }
    }

    pub fn inline_start(&self) -> (side: PhysicalSide)
        ensures
            side == self.spec_inline_start(),
            self.perpendicular(),
    {
        proof {
            use_type_invariant(self);
        }
        self.inline_start
    }

    pub fn inline_end(&self) -> (side: PhysicalSide)
        ensures
            side == opposite(self.spec_inline_start()),
    {
        opposite_side(self.inline_start)
    }

    pub fn block_start(&self) -> (side: PhysicalSide)
        ensures
            side == self.spec_block_start(),
    {
        self.block_start
    }

    pub fn block_end(&self) -> (side: PhysicalSide)
        ensures
            side == opposite(self.spec_block_start()),
    {
        opposite_side(self.block_start)
    }

    /// Whether the inline axis is horizontal.
    pub fn is_horizontal(&self) -> (horizontal: bool)
        ensures
            horizontal == is_horizontal_side(self.spec_inline_start()),
    {
        is_horizontal(self.inline_start)
    }
}

fn is_horizontal(side: PhysicalSide) -> (horizontal: bool)
    ensures
        horizontal == is_horizontal_side(side),
{
    match side {
        PhysicalSide::Left | PhysicalSide::Right => true,
        PhysicalSide::Top | PhysicalSide::Bottom => false,
    }
}

fn opposite_side(side: PhysicalSide) -> (other: PhysicalSide)
    ensures
        other == opposite(side),
{
    match side {
        PhysicalSide::Top => PhysicalSide::Bottom,
        PhysicalSide::Bottom => PhysicalSide::Top,
        PhysicalSide::Left => PhysicalSide::Right,
        PhysicalSide::Right => PhysicalSide::Left,
    }
}

/// The CSS `display` values this projection distinguishes (`DisplayNone` is
/// `display: none`); every other display type is `Other`.
#[derive(Clone, Copy, Debug, PartialEq, Eq, Structural)]
pub enum CssDisplay {
    DisplayNone,
    Block,
    Inline,
    InlineBlock,
    Flex,
    Grid,
    Table,
    InlineTable,
    TableRow,
    TableCell,
    TableCaption,
    Other,
}

/// CSS `flex-direction`: logical flex axes.
#[derive(Clone, Copy, Debug, PartialEq, Eq, Structural)]
pub enum CssFlexDirection {
    Row,
    RowReverse,
    Column,
    ColumnReverse,
}

/// CSS `flex-wrap`.
#[derive(Clone, Copy, Debug, PartialEq, Eq, Structural)]
pub enum CssFlexWrap {
    NoWrap,
    Wrap,
    WrapReverse,
}

/// The CSS Box Alignment keywords shared by the alignment properties.
#[derive(Clone, Copy, Debug, PartialEq, Eq, Structural)]
pub enum CssAlignment {
    Auto,
    Normal,
    Stretch,
    Start,
    End,
    SelfStart,
    SelfEnd,
    FlexStart,
    FlexEnd,
    Center,
    Baseline,
    SpaceBetween,
    SpaceAround,
    SpaceEvenly,
}

/// The kind of a CSS size value; lengths and percentages are all `Value`,
/// and `NoLimit` is the `none` of the max-size properties.
#[derive(Clone, Copy, Debug, PartialEq, Eq, Structural)]
pub enum SizeKind {
    Auto,
    NoLimit,
    Value,
    MinContent,
    MaxContent,
    FitContent,
}

/// The computed values this projection reads from one element.
#[derive(Clone, Copy, Debug)]
pub struct AlignmentStyle {
    pub display: CssDisplay,
    pub flex_direction: CssFlexDirection,
    pub flex_wrap: CssFlexWrap,
    pub justify_content: CssAlignment,
    pub align_items: CssAlignment,
    pub align_content: CssAlignment,
    pub justify_items: CssAlignment,
    pub align_self: CssAlignment,
    pub justify_self: CssAlignment,
    pub width: SizeKind,
    pub height: SizeKind,
}

/// The backend's physical flex direction.
#[derive(Clone, Copy, Debug, PartialEq, Eq, Structural)]
pub enum FlexDirection {
    Row,
    RowReverse,
    Column,
    ColumnReverse,
}

/// The backend's inline direction, used only for a physical column's
/// horizontal cross axis.
#[derive(Clone, Copy, Debug, PartialEq, Eq, Structural)]
pub enum TaffyDirection {
    Ltr,
    Rtl,
}

/// The backend's physical flex wrapping.
#[derive(Clone, Copy, Debug, PartialEq, Eq, Structural)]
pub enum FlexWrap {
    NoWrap,
    Wrap,
    WrapReverse,
}

/// Overflow-position modifier of a backend alignment.
#[derive(Clone, Copy, Debug, PartialEq, Eq, Structural)]
pub enum AlignmentSafety {
    Unsafe,
    Safe,
}

/// The backend's item (self) alignment keywords.
#[derive(Clone, Copy, Debug, PartialEq, Eq, Structural)]
pub enum AlignItemsKeyword {
    Start,
    End,
    FlexStart,
    FlexEnd,
    SelfStart,
    SelfEnd,
    Center,
    Baseline,
    Stretch,
}

#[derive(Clone, Copy, Debug, PartialEq, Eq, Structural)]
pub struct AlignItems {
    pub keyword: AlignItemsKeyword,
    pub safety: AlignmentSafety,
}

/// The backend's content-distribution keywords.
#[derive(Clone, Copy, Debug, PartialEq, Eq, Structural)]
pub enum AlignContentKeyword {
    Start,
    End,
    FlexStart,
    FlexEnd,
    Center,
    Stretch,
    SpaceBetween,
    SpaceAround,
    SpaceEvenly,
}

#[derive(Clone, Copy, Debug, PartialEq, Eq, Structural)]
pub struct AlignContent {
    pub keyword: AlignContentKeyword,
    pub safety: AlignmentSafety,
}

/// The two self-alignment slots of one backend style.
#[derive(Clone, Copy, Debug, PartialEq, Eq, Structural)]
pub struct SelfAlignment {
    pub align_self: Option<AlignItems>,
    pub justify_self: Option<AlignItems>,
}

} // verus!

verus! {

pub open spec fn is_row_direction(direction: CssFlexDirection) -> bool {
    direction == CssFlexDirection::Row || direction == CssFlexDirection::RowReverse
}

pub open spec fn is_reverse_direction(direction: CssFlexDirection) -> bool {
    direction == CssFlexDirection::RowReverse || direction == CssFlexDirection::ColumnReverse
}

pub open spec fn is_physical_row(direction: FlexDirection) -> bool {
    direction == FlexDirection::Row || direction == FlexDirection::RowReverse
}

/// The physical side where a backend flex direction places its first item.
pub open spec fn main_start_side(direction: FlexDirection) -> PhysicalSide {
    match direction {
        FlexDirection::Row => PhysicalSide::Left,
        FlexDirection::RowReverse => PhysicalSide::Right,
        FlexDirection::Column => PhysicalSide::Top,
        FlexDirection::ColumnReverse => PhysicalSide::Bottom,
    }
}

/// The physical side of the logical axis a CSS flex direction runs along:
/// the inline start for rows, the block start for columns.
pub open spec fn logical_main_start(direction: CssFlexDirection, flow: FlowAxes) -> PhysicalSide {
    if is_row_direction(direction) {
        flow.spec_inline_start()
    } else {
        flow.spec_block_start()
    }
}

/// The physical side of the CSS flex cross-start.
pub open spec fn logical_cross_start(direction: CssFlexDirection, flow: FlowAxes) -> PhysicalSide {
    if is_row_direction(direction) {
        flow.spec_block_start()
    } else {
        flow.spec_inline_start()
    }
}

/// The physical side where the items of a CSS flex direction start.
pub open spec fn flex_start_side(direction: CssFlexDirection, flow: FlowAxes) -> PhysicalSide {
    if is_reverse_direction(direction) {
        opposite(logical_main_start(direction, flow))
    } else {
        logical_main_start(direction, flow)
    }
}

/// The backend flex direction whose first item sits at `side`.
pub open spec fn flex_direction_starting_at(side: PhysicalSide) -> FlexDirection {
    match side {
        PhysicalSide::Left => FlexDirection::Row,
        PhysicalSide::Right => FlexDirection::RowReverse,
        PhysicalSide::Top => FlexDirection::Column,
        PhysicalSide::Bottom => FlexDirection::ColumnReverse,
    }
}

/// The backend direction bit for a container: right-to-left exactly when it
/// is a physical column whose CSS cross-start is the right edge.
pub open spec fn cross_axis_direction(
    direction: CssFlexDirection,
    physical_direction: FlexDirection,
    flow: FlowAxes,
) -> TaffyDirection {
    if !is_physical_row(physical_direction) && logical_cross_start(direction, flow)
        == PhysicalSide::Right {
        TaffyDirection::Rtl
    } else {
        TaffyDirection::Ltr
    }
}

/// The main-axis start side of a CSS flex direction in a given flow: the
/// inline start for rows, the block start for columns.
pub fn physical_flex_main_axis_start(direction: CssFlexDirection, flow: FlowAxes) -> (side: PhysicalSide)
    ensures
        side == logical_main_start(direction, flow),
{
    match direction {
        CssFlexDirection::Row | CssFlexDirection::RowReverse => flow.inline_start(),
        CssFlexDirection::Column | CssFlexDirection::ColumnReverse => flow.block_start(),
    }
}

/// The backend's axes are physical and CSS flex axes are logical: the
/// backend direction is the one whose first item sits where the CSS flex
/// items start.
pub fn physical_flex_direction(direction: CssFlexDirection, flow: FlowAxes) -> (physical: FlexDirection)
    ensures
        physical == flex_direction_starting_at(flex_start_side(direction, flow)),
        main_start_side(physical) == flex_start_side(direction, flow),
{
    let start = physical_flex_main_axis_start(direction, flow);
    let reverse = match direction {
        CssFlexDirection::RowReverse | CssFlexDirection::ColumnReverse => true,
        _ => false,
    };
    match (start, reverse) {
        (PhysicalSide::Left, false) | (PhysicalSide::Right, true) => FlexDirection::Row,
        (PhysicalSide::Right, false) | (PhysicalSide::Left, true) => FlexDirection::RowReverse,
        (PhysicalSide::Top, false) | (PhysicalSide::Bottom, true) => FlexDirection::Column,
        (PhysicalSide::Bottom, false) | (PhysicalSide::Top, true) => FlexDirection::ColumnReverse,
    }
}

/// The backend direction bit: right-to-left exactly when the container is
/// a physical column whose CSS cross-start is the right edge.
pub fn physical_flex_cross_axis_direction(
    direction: CssFlexDirection,
    physical_direction: FlexDirection,
    flow: FlowAxes,
) -> (backend: TaffyDirection)
    ensures
        backend == cross_axis_direction(direction, physical_direction, flow),
{
    let cross_start = match direction {
        CssFlexDirection::Row | CssFlexDirection::RowReverse => flow.block_start(),
        CssFlexDirection::Column | CssFlexDirection::ColumnReverse => flow.inline_start(),
    };
    let column = match physical_direction {
        FlexDirection::Column | FlexDirection::ColumnReverse => true,
        _ => false,
    };
    if column && cross_start == PhysicalSide::Right {
        TaffyDirection::Rtl
    } else {
        TaffyDirection::Ltr
    }
}

/// Whether a flex container's cross axis runs against the backend's: a CSS
/// column laid out as a physical row whose inline start is the bottom edge.
pub open spec fn flips_cross_axis(
    display: CssDisplay,
    direction: CssFlexDirection,
    physical_direction: FlexDirection,
    flow: FlowAxes,
) -> bool {
    &&& display == CssDisplay::Flex
    &&& is_physical_row(physical_direction)
    &&& !is_row_direction(direction)
    &&& flow.spec_inline_start() == PhysicalSide::Bottom
}

fn cross_axis_flipped(
    display: CssDisplay,
    direction: CssFlexDirection,
    physical_direction: FlexDirection,
    flow: FlowAxes,
) -> (flipped: bool)
    ensures
        flipped == flips_cross_axis(display, direction, physical_direction, flow),
{
    display == CssDisplay::Flex && match physical_direction {
        FlexDirection::Row | FlexDirection::RowReverse => true,
        _ => false,
    } && match direction {
        CssFlexDirection::Column | CssFlexDirection::ColumnReverse => true,
        _ => false,
    } && flow.inline_start() == PhysicalSide::Bottom
}

/// The physical wrapping: `wrap` and `wrap-reverse` trade places when the
/// cross axis runs against the backend's.
pub fn physical_flex_wrap(computed: &AlignmentStyle, physical_direction: FlexDirection, flow: FlowAxes) -> (wrap: FlexWrap)
    ensures
        computed.flex_wrap == CssFlexWrap::NoWrap ==> wrap == FlexWrap::NoWrap,
        computed.flex_wrap != CssFlexWrap::NoWrap ==> (wrap == FlexWrap::Wrap <==> ((computed.flex_wrap
            == CssFlexWrap::Wrap) != flips_cross_axis(
            computed.display,
            computed.flex_direction,
            physical_direction,
            flow,
        ))),
        wrap != FlexWrap::NoWrap || computed.flex_wrap == CssFlexWrap::NoWrap,
{
    let reverse = cross_axis_flipped(computed.display, computed.flex_direction, physical_direction, flow);
    match (computed.flex_wrap, reverse) {
        (CssFlexWrap::NoWrap, _) => FlexWrap::NoWrap,
        (CssFlexWrap::Wrap, false) | (CssFlexWrap::WrapReverse, true) => FlexWrap::Wrap,
        (CssFlexWrap::WrapReverse, false) | (CssFlexWrap::Wrap, true) => FlexWrap::WrapReverse,
    }
}

/// A cross-axis alignment seen from the far edge: `start` and `end` trade
/// places, and so do `flex-start` and `flex-end` on a single-line container.
pub open spec fn mirrored_cross_alignment(value: CssAlignment, wrap: CssFlexWrap) -> CssAlignment {
    match value {
        CssAlignment::Start => CssAlignment::End,
        CssAlignment::End => CssAlignment::Start,
        CssAlignment::FlexStart => if wrap == CssFlexWrap::NoWrap {
            CssAlignment::FlexEnd
        } else {
            value
        },
        CssAlignment::FlexEnd => if wrap == CssFlexWrap::NoWrap {
            CssAlignment::FlexStart
        } else {
            value
        },
        _ => value,
    }
}

pub open spec fn cross_alignment(
    computed: AlignmentStyle,
    value: CssAlignment,
    direction: CssFlexDirection,
    physical_direction: FlexDirection,
    flow: FlowAxes,
) -> CssAlignment {
    if flips_cross_axis(computed.display, direction, physical_direction, flow) {
        mirrored_cross_alignment(value, computed.flex_wrap)
    } else {
        value
    }
}

/// A cross-axis alignment value re-expressed for the backend's physical
/// cross axis.
pub fn physical_flex_cross_alignment(
    computed: &AlignmentStyle,
    value: CssAlignment,
    direction: CssFlexDirection,
    physical_direction: FlexDirection,
    flow: FlowAxes,
) -> (physical: CssAlignment)
    ensures
        physical == cross_alignment(*computed, value, direction, physical_direction, flow),
{
    if cross_axis_flipped(computed.display, direction, physical_direction, flow) {
        match (value, computed.flex_wrap) {
            (CssAlignment::Start, _) => CssAlignment::End,
            (CssAlignment::End, _) => CssAlignment::Start,
            (CssAlignment::FlexStart, CssFlexWrap::NoWrap) => CssAlignment::FlexEnd,
            (CssAlignment::FlexEnd, CssFlexWrap::NoWrap) => CssAlignment::FlexStart,
            (value, _) => value,
        }
    } else {
        value
    }
}

pub open spec fn align_items_keyword(value: CssAlignment) -> AlignItemsKeyword {
    match value {
        CssAlignment::Start => AlignItemsKeyword::Start,
        CssAlignment::End => AlignItemsKeyword::End,
        CssAlignment::SelfStart => AlignItemsKeyword::Start,
        CssAlignment::SelfEnd => AlignItemsKeyword::End,
        CssAlignment::FlexStart => AlignItemsKeyword::FlexStart,
        CssAlignment::FlexEnd => AlignItemsKeyword::FlexEnd,
        CssAlignment::Center => AlignItemsKeyword::Center,
        CssAlignment::Baseline => AlignItemsKeyword::Baseline,
        _ => AlignItemsKeyword::Stretch,
    }
}

pub open spec fn align_content_keyword(value: CssAlignment) -> AlignContentKeyword {
    match value {
        CssAlignment::Start => AlignContentKeyword::Start,
        CssAlignment::End => AlignContentKeyword::End,
        CssAlignment::FlexStart => AlignContentKeyword::FlexStart,
        CssAlignment::FlexEnd => AlignContentKeyword::FlexEnd,
        CssAlignment::Center => AlignContentKeyword::Center,
        CssAlignment::SpaceBetween => AlignContentKeyword::SpaceBetween,
        CssAlignment::SpaceAround => AlignContentKeyword::SpaceAround,
        CssAlignment::SpaceEvenly => AlignContentKeyword::SpaceEvenly,
        _ => AlignContentKeyword::Stretch,
    }
}

/// The backend item alignment for a CSS alignment keyword. The backend has
/// no subject-relative self edge, so `self-start`/`self-end` lower to
/// `start`/`end`; keywords the backend lacks stretch.
pub fn align_items(value: CssAlignment) -> (alignment: AlignItems)
    ensures
        alignment.keyword == align_items_keyword(value),
        alignment.safety == AlignmentSafety::Unsafe,
{
    AlignItems {
        keyword: match value {
            CssAlignment::Start => AlignItemsKeyword::Start,
            CssAlignment::End => AlignItemsKeyword::End,
            CssAlignment::SelfStart => AlignItemsKeyword::Start,
            CssAlignment::SelfEnd => AlignItemsKeyword::End,
            CssAlignment::FlexStart => AlignItemsKeyword::FlexStart,
            CssAlignment::FlexEnd => AlignItemsKeyword::FlexEnd,
            CssAlignment::Center => AlignItemsKeyword::Center,
            CssAlignment::Baseline => AlignItemsKeyword::Baseline,
            _ => AlignItemsKeyword::Stretch,
        },
        safety: AlignmentSafety::Unsafe,
    }
}

/// The backend content distribution for a CSS alignment keyword.
pub fn align_content(value: CssAlignment) -> (alignment: AlignContent)
    ensures
        alignment.keyword == align_content_keyword(value),
        alignment.safety == AlignmentSafety::Unsafe,
{
    AlignContent {
        keyword: match value {
            CssAlignment::Start => AlignContentKeyword::Start,
            CssAlignment::End => AlignContentKeyword::End,
            CssAlignment::FlexStart => AlignContentKeyword::FlexStart,
            CssAlignment::FlexEnd => AlignContentKeyword::FlexEnd,
            CssAlignment::Center => AlignContentKeyword::Center,
            CssAlignment::SpaceBetween => AlignContentKeyword::SpaceBetween,
            CssAlignment::SpaceAround => AlignContentKeyword::SpaceAround,
            CssAlignment::SpaceEvenly => AlignContentKeyword::SpaceEvenly,
            _ => AlignContentKeyword::Stretch,
        },
        safety: AlignmentSafety::Unsafe,
    }
}

/// `justify-content` lowers exactly like `align-content`.
pub fn justify_content(value: CssAlignment) -> (alignment: AlignContent)
    ensures
        alignment.keyword == align_content_keyword(value),
        alignment.safety == AlignmentSafety::Unsafe,
{
    align_content(value)
}

/// The main-axis justification of a container: for flex containers
/// `normal` is `flex-start`, and the flow-relative `start`/`end` trade places
/// when the main axis starts at the right or bottom edge.
pub open spec fn flex_justify_value(computed: AlignmentStyle, flow: FlowAxes) -> CssAlignment {
    if computed.display == CssDisplay::Flex {
        let start = logical_main_start(computed.flex_direction, flow);
        let far = start == PhysicalSide::Right || start == PhysicalSide::Bottom;
        match computed.justify_content {
            CssAlignment::Normal => CssAlignment::FlexStart,
            CssAlignment::Start => if far {
                CssAlignment::End
            } else {
                CssAlignment::Start
            },
            CssAlignment::End => if far {
                CssAlignment::Start
            } else {
                CssAlignment::End
            },
            value => value,
        }
    } else {
        computed.justify_content
    }
}

pub fn physical_flex_justify_content(computed: &AlignmentStyle, flow: FlowAxes) -> (justify: AlignContent)
    ensures
        justify.keyword == align_content_keyword(flex_justify_value(*computed, flow)),
        justify.safety == AlignmentSafety::Unsafe,
{
    let value = if computed.display == CssDisplay::Flex {
        match (computed.justify_content, physical_flex_main_axis_start(computed.flex_direction, flow)) {
            (CssAlignment::Normal, _) => CssAlignment::FlexStart,
            (CssAlignment::Start, PhysicalSide::Right | PhysicalSide::Bottom) => CssAlignment::End,
            (CssAlignment::End, PhysicalSide::Right | PhysicalSide::Bottom) => CssAlignment::Start,
            (value, _) => value,
        }
    } else {
        computed.justify_content
    };
    justify_content(value)
}

/// CSS `column-gap` follows the inline axis and `row-gap` the block axis;
/// the backend names gaps after physical width and height. Only a flex
/// container with a vertical inline axis transposes them. Returns the
/// (width, height) gaps.
pub fn physical_flex_gap<T>(display: CssDisplay, row_gap: T, column_gap: T, flow: FlowAxes) -> (gap: (T, T))
    ensures
        gap == (if display == CssDisplay::Flex && !is_horizontal_side(flow.spec_inline_start()) {
            (row_gap, column_gap)
        } else {
            (column_gap, row_gap)
        }),
{
    if display == CssDisplay::Flex && !flow.is_horizontal() {
        (row_gap, column_gap)
    } else {
        (column_gap, row_gap)
    }
}

} // verus!

verus! {

/// Content keywords: sizes that are not `auto` but reach the backend as
/// `auto`.
pub open spec fn is_content_keyword(size: SizeKind) -> bool {
    size == SizeKind::MinContent || size == SizeKind::MaxContent || size == SizeKind::FitContent
}

/// Whether a size suppresses stretch alignment although the backend sees
/// it as `auto`: exactly the content keywords.
pub fn suppresses_stretch(size: SizeKind) -> (suppresses: bool)
    ensures
        suppresses == is_content_keyword(size),
{
    match size {
        SizeKind::MinContent | SizeKind::MaxContent | SizeKind::FitContent => true,
        _ => false,
    }
}

/// The backend self-alignment for one axis: `auto` defers to the parent
/// (`None`) unless a content-keyword size in that axis suppresses stretch,
/// which degrades to `start`.
pub fn self_alignment(value: CssAlignment, size: SizeKind) -> (alignment: Option<AlignItems>)
    ensures
        value == CssAlignment::Auto && !is_content_keyword(size) ==> alignment is None,
        value == CssAlignment::Auto && is_content_keyword(size) ==> alignment == Some(
            AlignItems { keyword: AlignItemsKeyword::Start, safety: AlignmentSafety::Unsafe },
        ),
        value != CssAlignment::Auto ==> alignment == Some(
            AlignItems { keyword: align_items_keyword(value), safety: AlignmentSafety::Unsafe },
        ),
{
    match value {
        CssAlignment::Auto => if suppresses_stretch(size) {
            Some(align_items(CssAlignment::Start))
        } else {
            None
        },
        value => Some(align_items(value)),
    }
}

/// The alignment a direct flex item contributes once `auto` inherits the
/// container's `align-items` and `normal` resolves to `stretch`. A
/// content-keyword cross size turns stretch into `flex-start`; an ordinary
/// inherited stretch is left to the backend (`None`).
pub open spec fn effective_alignment(parent: AlignmentStyle, subject: AlignmentStyle, cross_size: SizeKind) -> Option<CssAlignment> {
    let inherited = subject.align_self == CssAlignment::Auto;
    let raw = if inherited {
        parent.align_items
    } else {
        subject.align_self
    };
    let value = if raw == CssAlignment::Auto || raw == CssAlignment::Normal {
        CssAlignment::Stretch
    } else {
        raw
    };
    if value == CssAlignment::Stretch && is_content_keyword(cross_size) {
        Some(CssAlignment::FlexStart)
    } else if inherited && value == CssAlignment::Stretch {
        None
    } else {
        Some(value)
    }
}

pub fn effective_flex_child_alignment(parent: &AlignmentStyle, subject: &AlignmentStyle, cross_size: SizeKind) -> (alignment: Option<CssAlignment>)
    ensures
        alignment == effective_alignment(*parent, *subject, cross_size),
{
    let (value, inherited) = match subject.align_self {
        CssAlignment::Auto => (parent.align_items, true),
        value => (value, false),
    };
    let value = match value {
        CssAlignment::Auto | CssAlignment::Normal => CssAlignment::Stretch,
        value => value,
    };
    if value == CssAlignment::Stretch && suppresses_stretch(cross_size) {
        Some(CssAlignment::FlexStart)
    } else if inherited && value == CssAlignment::Stretch {
        None
    } else {
        Some(value)
    }
}

pub open spec fn backend_cross_start(physical_direction: FlexDirection, direction: TaffyDirection) -> PhysicalSide {
    if is_physical_row(physical_direction) {
        PhysicalSide::Top
    } else if direction == TaffyDirection::Ltr {
        PhysicalSide::Left
    } else {
        PhysicalSide::Right
    }
}

/// The backend's cross-axis `start`: the top for physical rows, and the
/// side its direction starts from for physical columns.
pub fn backend_flex_cross_start(physical_direction: FlexDirection, direction: TaffyDirection) -> (side: PhysicalSide)
    ensures
        side == backend_cross_start(physical_direction, direction),
{
    match physical_direction {
        FlexDirection::Row | FlexDirection::RowReverse => PhysicalSide::Top,
        FlexDirection::Column | FlexDirection::ColumnReverse => match direction {
            TaffyDirection::Ltr => PhysicalSide::Left,
            TaffyDirection::Rtl => PhysicalSide::Right,
        },
    }
}

/// Whether two sides lie on the same physical axis.
pub fn same_physical_axis(first: PhysicalSide, second: PhysicalSide) -> (same: bool)
    ensures
        same == (is_horizontal_side(first) == is_horizontal_side(second)),
{
    is_horizontal(first) == is_horizontal(second)
}

/// The subject's own start (or end) side on the physical axis of
/// `axis_side`: from its inline axis when that is the axis, otherwise from
/// its block axis.
pub open spec fn subject_side(subject_flow: FlowAxes, axis_side: PhysicalSide, start: bool) -> PhysicalSide {
    if is_horizontal_side(subject_flow.spec_inline_start()) == is_horizontal_side(axis_side) {
        if start {
            subject_flow.spec_inline_start()
        } else {
            opposite(subject_flow.spec_inline_start())
        }
    } else if start {
        subject_flow.spec_block_start()
    } else {
        opposite(subject_flow.spec_block_start())
    }
}

pub fn subject_side_on_axis(subject_flow: FlowAxes, axis_side: PhysicalSide, start: bool) -> (side: PhysicalSide)
    ensures
        side == subject_side(subject_flow, axis_side, start),
        is_horizontal_side(side) == is_horizontal_side(axis_side),
{
    let inline_start = subject_flow.inline_start();
    if same_physical_axis(inline_start, axis_side) {
        return if start {
            inline_start
        } else {
            subject_flow.inline_end()
        };
    }
    if start {
        subject_flow.block_start()
    } else {
        subject_flow.block_end()
    }
}

/// `self-start`/`self-end` resolved against the subject's own writing mode
/// to a physical `start` or `end` on one axis; `None` for other keywords.
pub open spec fn self_alignment_on_axis(alignment: CssAlignment, subject_flow: FlowAxes, axis_side: PhysicalSide) -> Option<AlignItems> {
    if alignment == CssAlignment::SelfStart || alignment == CssAlignment::SelfEnd {
        let side = subject_side(subject_flow, axis_side, alignment == CssAlignment::SelfStart);
        Some(
            AlignItems {
                keyword: if side == PhysicalSide::Top || side == PhysicalSide::Left {
                    AlignItemsKeyword::Start
                } else {
                    AlignItemsKeyword::End
                },
                safety: AlignmentSafety::Unsafe,
            },
        )
    } else {
        None
    }
}

pub fn self_alignment_for_axis(alignment: CssAlignment, subject_flow: FlowAxes, axis_side: PhysicalSide) -> (physical: Option<AlignItems>)
    ensures
        physical == self_alignment_on_axis(alignment, subject_flow, axis_side),
{
    let subject_side = match alignment {
        CssAlignment::SelfStart => subject_side_on_axis(subject_flow, axis_side, true),
        CssAlignment::SelfEnd => subject_side_on_axis(subject_flow, axis_side, false),
        _ => return None,
    };
    Some(
        align_items(
            match subject_side {
                PhysicalSide::Top | PhysicalSide::Left => CssAlignment::Start,
                PhysicalSide::Right | PhysicalSide::Bottom => CssAlignment::End,
            },
        ),
    )
}

/// The style with one physical axis's self-alignment replaced: horizontal
/// sides own `justify-self`, vertical sides `align-self`.
pub open spec fn with_self_alignment(style: SelfAlignment, axis_side: PhysicalSide, alignment: AlignItems) -> SelfAlignment {
    if is_horizontal_side(axis_side) {
        SelfAlignment { justify_self: Some(alignment), ..style }
    } else {
        SelfAlignment { align_self: Some(alignment), ..style }
    }
}

pub fn set_physical_self_alignment(style: &mut SelfAlignment, axis_side: PhysicalSide, alignment: AlignItems)
    ensures
        *final(style) == with_self_alignment(*old(style), axis_side, alignment),
{
    match axis_side {
        PhysicalSide::Left | PhysicalSide::Right => style.justify_self = Some(alignment),
        PhysicalSide::Top | PhysicalSide::Bottom => style.align_self = Some(alignment),
    }
}

/// The keyword that aligns to the opposite end of a reversed axis.
pub open spec fn reversed_keyword(keyword: AlignItemsKeyword) -> AlignItemsKeyword {
    match keyword {
        AlignItemsKeyword::Start => AlignItemsKeyword::End,
        AlignItemsKeyword::End => AlignItemsKeyword::Start,
        AlignItemsKeyword::FlexStart => AlignItemsKeyword::FlexEnd,
        AlignItemsKeyword::FlexEnd => AlignItemsKeyword::FlexStart,
        AlignItemsKeyword::SelfStart => AlignItemsKeyword::SelfEnd,
        AlignItemsKeyword::SelfEnd => AlignItemsKeyword::SelfStart,
        _ => keyword,
    }
}

pub open spec fn reversed_alignment(alignment: Option<AlignItems>) -> Option<AlignItems> {
    match alignment {
        Some(a) => Some(AlignItems { keyword: reversed_keyword(a.keyword), ..a }),
        None => None,
    }
}

/// The same alignment on a reversed axis: start-like and end-like keywords
/// trade places; center, baseline and stretch stay.
pub fn reverse_self_alignment(alignment: Option<AlignItems>) -> (reversed: Option<AlignItems>)
    ensures
        reversed == reversed_alignment(alignment),
{
    match alignment {
        Some(alignment) => {
            let keyword = match alignment.keyword {
                AlignItemsKeyword::Start => AlignItemsKeyword::End,
                AlignItemsKeyword::End => AlignItemsKeyword::Start,
                AlignItemsKeyword::FlexStart => AlignItemsKeyword::FlexEnd,
                AlignItemsKeyword::FlexEnd => AlignItemsKeyword::FlexStart,
                AlignItemsKeyword::SelfStart => AlignItemsKeyword::SelfEnd,
                AlignItemsKeyword::SelfEnd => AlignItemsKeyword::SelfStart,
                AlignItemsKeyword::Center | AlignItemsKeyword::Baseline | AlignItemsKeyword::Stretch => alignment.keyword,
            };
            Some(AlignItems { keyword, safety: alignment.safety })
        },
        None => None,
    }
}

/// A vertical grid's block-axis self-alignment traded onto the backend's
/// horizontal slot and vice versa, reversed where the logical start is the
/// physical bottom or right.
pub open spec fn vertical_grid_static_alignment(style: SelfAlignment, flow: FlowAxes) -> SelfAlignment {
    SelfAlignment {
        align_self: if flow.spec_inline_start() == PhysicalSide::Bottom {
            reversed_alignment(style.justify_self)
        } else {
            style.justify_self
        },
        justify_self: if flow.spec_block_start() == PhysicalSide::Right {
            reversed_alignment(style.align_self)
        } else {
            style.align_self
        },
    }
}

pub fn map_vertical_grid_static_alignment(style: &mut SelfAlignment, flow: FlowAxes)
    ensures
        *final(style) == vertical_grid_static_alignment(*old(style), flow),
{
    let align_self = style.align_self;
    let justify_self = style.justify_self;
    style.align_self = if flow.inline_start() == PhysicalSide::Bottom {
        reverse_self_alignment(justify_self)
    } else {
        justify_self
    };
    style.justify_self = if flow.block_start() == PhysicalSide::Right {
        reverse_self_alignment(align_self)
    } else {
        align_self
    };
}

pub open spec fn with_optional_self_alignment(style: SelfAlignment, axis_side: PhysicalSide, alignment: Option<AlignItems>) -> SelfAlignment {
    match alignment {
        Some(a) => with_self_alignment(style, axis_side, a),
        None => style,
    }
}

/// The two explicit `self-*` values of a positioned grid child, repaired
/// against the subject's own writing mode on the container's block and
/// inline axes; other values leave the style as it was.
pub open spec fn grid_static_self_alignment(
    style: SelfAlignment,
    container_flow: FlowAxes,
    subject_flow: FlowAxes,
    align_self: CssAlignment,
    justify_self: CssAlignment,
) -> SelfAlignment {
    let block = container_flow.spec_block_start();
    let inline = container_flow.spec_inline_start();
    with_optional_self_alignment(
        with_optional_self_alignment(style, block, self_alignment_on_axis(align_self, subject_flow, block)),
        inline,
        self_alignment_on_axis(justify_self, subject_flow, inline),
    )
}

pub fn map_grid_static_self_alignment(
    style: &mut SelfAlignment,
    container_flow: FlowAxes,
    subject_flow: FlowAxes,
    align_self: CssAlignment,
    justify_self: CssAlignment,
)
    ensures
        *final(style) == grid_static_self_alignment(*old(style), container_flow, subject_flow, align_self, justify_self),
{
    if let Some(alignment) = self_alignment_for_axis(align_self, subject_flow, container_flow.block_start()) {
        set_physical_self_alignment(style, container_flow.block_start(), alignment);
    }
    if let Some(alignment) = self_alignment_for_axis(justify_self, subject_flow, container_flow.inline_start()) {
        set_physical_self_alignment(style, container_flow.inline_start(), alignment);
    }
}

} // verus!

verus! {

/// The `align-self` a direct flex item takes once its parent's physical
/// flex axes are known (`None` keeps the backend's own inheritance).
/// `self-start`/`self-end` resolve against the subject's writing mode to the
/// backend's cross `start` or `end`; other values take the parent's
/// cross-axis projection.
pub open spec fn flex_child_self_alignment(
    parent: AlignmentStyle,
    parent_flow: FlowAxes,
    subject_flow: FlowAxes,
    subject: AlignmentStyle,
    physical_direction: FlexDirection,
    backend_direction: TaffyDirection,
) -> Option<AlignItems> {
    let cross_size = if is_physical_row(physical_direction) {
        subject.height
    } else {
        subject.width
    };
    match effective_alignment(parent, subject, cross_size) {
        None => None,
        Some(value) => {
            let lowered = if value == CssAlignment::SelfStart || value == CssAlignment::SelfEnd {
                let cross_start = backend_cross_start(physical_direction, backend_direction);
                if subject_side(subject_flow, cross_start, value == CssAlignment::SelfStart)
                    == cross_start {
                    CssAlignment::Start
                } else {
                    CssAlignment::End
                }
            } else {
                cross_alignment(parent, value, parent.flex_direction, physical_direction, parent_flow)
            };
            Some(AlignItems { keyword: align_items_keyword(lowered), safety: AlignmentSafety::Unsafe })
        },
    }
}

/// Project a direct flex child's logical `align-self` onto the backend once
/// its flex parent's physical axes are known. `parent_flow` is the flex
/// parent's own flow.
pub fn map_flex_child_self_alignment(
    style: &mut SelfAlignment,
    parent: &AlignmentStyle,
    parent_flow: FlowAxes,
    subject_flow: FlowAxes,
    subject: &AlignmentStyle,
)
    requires
        parent.display == CssDisplay::Flex,
    ensures
        ({
            let physical_direction = flex_direction_starting_at(
                flex_start_side(parent.flex_direction, parent_flow),
            );
            let backend_direction = cross_axis_direction(
                parent.flex_direction,
                physical_direction,
                parent_flow,
            );
            final(style).align_self == flex_child_self_alignment(
                *parent,
                parent_flow,
                subject_flow,
                *subject,
                physical_direction,
                backend_direction,
            )
        }),
        final(style).justify_self == old(style).justify_self,
{
    let physical_direction = physical_flex_direction(parent.flex_direction, parent_flow);
    let backend_direction = physical_flex_cross_axis_direction(parent.flex_direction, physical_direction, parent_flow);
    let cross_size = match physical_direction {
        FlexDirection::Row | FlexDirection::RowReverse => subject.height,
        FlexDirection::Column | FlexDirection::ColumnReverse => subject.width,
    };
    let value = match effective_flex_child_alignment(parent, subject, cross_size) {
        Some(value) => value,
        None => {
            style.align_self = None;
            return;
        },
    };
    let lowered = match value {
        CssAlignment::SelfStart | CssAlignment::SelfEnd => {
            let backend_cross_start = backend_flex_cross_start(physical_direction, backend_direction);
            let desired = subject_side_on_axis(subject_flow, backend_cross_start, value == CssAlignment::SelfStart);
            if desired == backend_cross_start {
                CssAlignment::Start
            } else {
                CssAlignment::End
            }
        },
        value => physical_flex_cross_alignment(parent, value, parent.flex_direction, physical_direction, parent_flow),
    };
    style.align_self = Some(align_items(lowered));
}

/// CSS `grid-auto-flow`.
#[derive(Clone, Copy, Debug, PartialEq, Eq, Structural)]
pub enum CssGridAutoFlow {
    Row,
    Column,
    RowDense,
    ColumnDense,
}

/// The backend's grid auto-placement flow.
#[derive(Clone, Copy, Debug, PartialEq, Eq, Structural)]
pub enum GridAutoFlow {
    Row,
    Column,
    RowDense,
    ColumnDense,
}

pub fn grid_auto_flow(value: CssGridAutoFlow) -> (flow: GridAutoFlow)
    ensures
        flow == (match value {
            CssGridAutoFlow::Row => GridAutoFlow::Row,
            CssGridAutoFlow::Column => GridAutoFlow::Column,
            CssGridAutoFlow::RowDense => GridAutoFlow::RowDense,
            CssGridAutoFlow::ColumnDense => GridAutoFlow::ColumnDense,
        }),
{
    match value {
        CssGridAutoFlow::Row => GridAutoFlow::Row,
        CssGridAutoFlow::Column => GridAutoFlow::Column,
        CssGridAutoFlow::RowDense => GridAutoFlow::RowDense,
        CssGridAutoFlow::ColumnDense => GridAutoFlow::ColumnDense,
    }
}

/// CSS grid line placement: `auto`, a line number, or a span.
#[derive(Clone, Copy, Debug, PartialEq, Eq, Structural)]
pub enum CssGridPlacement {
    Auto,
    Line(i16),
    Span(u16),
}

/// The backend's grid line placement.
#[derive(Clone, Copy, Debug, PartialEq, Eq, Structural)]
pub enum GridPlacement {
    Auto,
    Line(i16),
    Span(u16),
}

pub fn grid_placement(value: CssGridPlacement) -> (placement: GridPlacement)
    ensures
        placement == (match value {
            CssGridPlacement::Auto => GridPlacement::Auto,
            CssGridPlacement::Line(line) => GridPlacement::Line(line),
            CssGridPlacement::Span(span) => GridPlacement::Span(span),
        }),
{
    match value {
        CssGridPlacement::Auto => GridPlacement::Auto,
        CssGridPlacement::Line(value) => GridPlacement::Line(value),
        CssGridPlacement::Span(value) => GridPlacement::Span(value),
    }
}

/// CSS `overflow-x`/`overflow-y`.
#[derive(Clone, Copy, Debug, PartialEq, Eq, Structural)]
pub enum CssOverflow {
    Visible,
    Hidden,
    Clip,
    Scroll,
    Auto,
}

/// The backend's overflow behaviour.
#[derive(Clone, Copy, Debug, PartialEq, Eq, Structural)]
pub enum Overflow {
    Visible,
    Hidden,
    Clip,
    Scroll,
}

/// `auto` and `scroll` both make a scroll container for the backend.
pub fn overflow(value: CssOverflow) -> (backend: Overflow)
    ensures
        backend == (match value {
            CssOverflow::Visible => Overflow::Visible,
            CssOverflow::Hidden => Overflow::Hidden,
            CssOverflow::Clip => Overflow::Clip,
            CssOverflow::Scroll | CssOverflow::Auto => Overflow::Scroll,
        }),
{
    match value {
        CssOverflow::Visible => Overflow::Visible,
        CssOverflow::Hidden => Overflow::Hidden,
        CssOverflow::Clip => Overflow::Clip,
        CssOverflow::Scroll | CssOverflow::Auto => Overflow::Scroll,
    }
}

} // verus!

verus! {

/// Identity of a generated CSS box.
pub type BoxId = u64;

/// Identity of a DOM node.
pub type NodeId = u64;

/// What generated a CSS box.
#[derive(Clone, Copy, Debug, PartialEq, Eq, Structural)]
pub enum BoxOrigin {
    Element(NodeId),
    Text(NodeId),
    /// A `::before`/`::after` box, naming its originating element.
    Pseudo(NodeId),
    /// An anonymous box, naming the element it was generated inside, if any.
    Anonymous(Option<NodeId>),
}

/// Only an element-originated box owns the corresponding computed style;
/// text, pseudo and anonymous boxes only name an owner for provenance.
pub fn element_origin_node(origin: BoxOrigin) -> (node: Option<NodeId>)
    ensures
        node == (match origin {
            BoxOrigin::Element(n) => Some(n),
            _ => None,
        }),
{
    match origin {
        BoxOrigin::Element(node) => Some(node),
        BoxOrigin::Text(_) | BoxOrigin::Pseudo(_) | BoxOrigin::Anonymous(_) => None,
    }
}

/// The sources of a scratch layout node: only a node generated by exactly
/// one box has an unambiguous subject writing mode for CSS `self-*`.
pub trait DirectBoxSource {
    spec fn spec_direct_box(&self) -> Option<BoxId>;

    fn direct_box(&self) -> (direct: Option<BoxId>)
        ensures
            direct == self.spec_direct_box(),
    ;
}

impl DirectBoxSource for Option<BoxId> {
    open spec fn spec_direct_box(&self) -> Option<BoxId> {
        *self
    }

    fn direct_box(&self) -> (direct: Option<BoxId>) {
        *self
    }
}

impl DirectBoxSource for Vec<BoxId> {
    open spec fn spec_direct_box(&self) -> Option<BoxId> {
        if self@.len() == 1 {
            Some(self@[0])
        } else {
            None
        }
    }

    fn direct_box(&self) -> (direct: Option<BoxId>) {
        if self.len() == 1 {
            Some(self[0])
        } else {
            None
        }
    }
}

/// The opaque tag the layout backend carries for the `calc()` slot at
/// `index`: non-zero and a multiple of eight, as the backend's tagged
/// dimension requires.
pub open spec fn spec_calc_tag(index: int) -> int {
    (index + 1) * 8
}

/// The slot a tag names, or `usize::MAX` for a tag below eight, which names
/// no slot.
pub open spec fn spec_calc_tag_index(tag: int) -> int {
    if tag / 8 == 0 {
        usize::MAX as int
    } else {
        tag / 8 - 1
    }
}

/// Encode a scratch slot index as the tag handed to the backend.
pub fn calc_tag(index: usize) -> (tag: usize)
    requires
        spec_calc_tag(index as int) <= usize::MAX,
    ensures
        tag == spec_calc_tag(index as int),
{
    (index + 1) * 8
}

/// Decode a tag handed back by the backend into the slot index it names.
pub fn calc_tag_index(tag: usize) -> (index: usize)
    ensures
        index == spec_calc_tag_index(tag as int),
{
    let slot = tag / 8;
    if slot == 0 {
        usize::MAX
    } else {
        slot - 1
    }
}

/// The entry a tag resolves to in a scratch holding `slots`.
pub open spec fn scratch_entry<T>(slots: Seq<T>, tag: int) -> Option<T> {
    let index = spec_calc_tag_index(tag);
    if 0 <= index < slots.len() {
        Some(slots[index])
    } else {
        None
    }
}

/// The per-pass store of `calc()` lengths that the backend refers to by tag.
pub struct CalcScratch<T> {
    slots: Vec<T>,
}

impl<T> View for CalcScratch<T> {
    type V = Seq<T>;

    closed spec fn view(&self) -> Seq<T> {
        self.slots@
    }
}

impl<T: Copy> CalcScratch<T> {
    /// An empty scratch.
    pub fn new() -> (scratch: Self)
        ensures
            scratch@ == Seq::<T>::empty(),
    {
        CalcScratch { slots: Vec::new() }
    }

    /// The number of parked values.
    pub fn len(&self) -> (count: usize)
        ensures
            count == self@.len(),
    {
        self.slots.len()
    }

    /// Park a value and return the tag that resolves back to it.
    pub fn calc_slot(&mut self, value: T) -> (tag: usize)
        requires
            spec_calc_tag(old(self)@.len() as int) <= usize::MAX,
        ensures
            final(self)@ == old(self)@.push(value),
            tag == spec_calc_tag(old(self)@.len() as int),
    {
        let index = self.slots.len();
        self.slots.push(value);
        calc_tag(index)
    }

    /// The value a tag resolves to, if it names a parked slot.
    pub fn resolve(&self, tag: usize) -> (entry: Option<T>)
        ensures
            entry == scratch_entry(self@, tag as int),
    {
        let index = calc_tag_index(tag);
        if index < self.slots.len() {
            Some(self.slots[index])
        } else {
            None
        }
    }

    /// Drop every slot of the previous pass.
    pub fn reset_calc_scratch(&mut self)
        ensures
            final(self)@ == Seq::<T>::empty(),
    {
        self.slots.clear();
    }
}

} // verus!

verus! {

/// The container of a flex or grid static-position provider.
#[derive(Clone, Copy, Debug)]
pub enum StaticPositionContainer {
    /// A flex container, with its computed style and flow when it is an
    /// element.
    Flex(Option<(AlignmentStyle, FlowAxes)>),
    /// A grid container, with its flow.
    Grid(FlowAxes),
    /// Any other container.
    Other,
}

/// One child of a flex or grid container in the backend tree.
#[derive(Clone, Copy, Debug)]
pub struct StaticPositionChild {
    /// The child's backend self-alignment slots.
    pub slots: SelfAlignment,
    /// Whether the child is absolutely positioned or fixed.
    pub out_of_flow: bool,
    /// The flow and computed style of the child's direct box, when that box
    /// is an element's.
    pub element: Option<(FlowAxes, AlignmentStyle)>,
    /// The flow of the child's direct box and its node's `align-self` and
    /// `justify-self`, when the box has a node.
    pub subject: Option<(FlowAxes, CssAlignment, CssAlignment)>,
    /// Whether the container generates the child's containing block.
    pub contained_by_container: bool,
}

/// What the backend does for one such child.
#[derive(Clone, Copy, Debug, PartialEq, Eq, Structural)]
pub struct StaticPositionPlan {
    pub slots: SelfAlignment,
    /// The child takes its static position from the flex/grid provider.
    pub enable_provider: bool,
    /// The static position is aligned in the child's grid area rather than
    /// the grid's content box (CSS Grid §9.2).
    pub use_grid_area: bool,
}

/// The slots of a flex child after its parent's physical axes are known.
pub open spec fn flex_child_slots(
    slots: SelfAlignment,
    parent: AlignmentStyle,
    parent_flow: FlowAxes,
    subject_flow: FlowAxes,
    subject: AlignmentStyle,
) -> SelfAlignment {
    let physical_direction = flex_direction_starting_at(flex_start_side(parent.flex_direction, parent_flow));
    let backend_direction = cross_axis_direction(parent.flex_direction, physical_direction, parent_flow);
    SelfAlignment {
        align_self: flex_child_self_alignment(
            parent,
            parent_flow,
            subject_flow,
            subject,
            physical_direction,
            backend_direction,
        ),
        justify_self: slots.justify_self,
    }
}

/// The slots of an out-of-flow grid child: a vertical grid trades its
/// axes first, then the subject's own `self-*` values are repaired.
pub open spec fn grid_child_slots(
    slots: SelfAlignment,
    container_flow: FlowAxes,
    subject: Option<(FlowAxes, CssAlignment, CssAlignment)>,
) -> SelfAlignment {
    let traded = if !is_horizontal_side(container_flow.spec_inline_start()) {
        vertical_grid_static_alignment(slots, container_flow)
    } else {
        slots
    };
    match subject {
        Some((subject_flow, align_self, justify_self)) => grid_static_self_alignment(
            traded,
            container_flow,
            subject_flow,
            align_self,
            justify_self,
        ),
        None => traded,
    }
}

/// The plan for one child of a container in the backend tree.
pub open spec fn static_position_plan(container: StaticPositionContainer, child: StaticPositionChild) -> StaticPositionPlan {
    match container {
        StaticPositionContainer::Other => StaticPositionPlan {
            slots: child.slots,
            enable_provider: false,
            use_grid_area: false,
        },
        StaticPositionContainer::Flex(parent) => StaticPositionPlan {
            slots: match (parent, child.element) {
                (Some((style, flow)), Some((subject_flow, subject))) => flex_child_slots(
                    child.slots,
                    style,
                    flow,
                    subject_flow,
                    subject,
                ),
                _ => child.slots,
            },
            enable_provider: child.out_of_flow,
            use_grid_area: false,
        },
        StaticPositionContainer::Grid(flow) => StaticPositionPlan {
            slots: if child.out_of_flow {
                grid_child_slots(child.slots, flow, child.subject)
            } else {
                child.slots
            },
            enable_provider: child.out_of_flow,
            use_grid_area: child.out_of_flow && child.contained_by_container,
        },
    }
}

/// Prepare one child of a flex or grid container for the backend: a flex
/// child's `align-self` is projected onto the parent's physical axes, and
/// an absolutely positioned or fixed child takes its static position from
/// the container, with a grid child's self-alignment mapped onto the grid's
/// physical axes.
pub fn plan_static_position_child(container: StaticPositionContainer, child: StaticPositionChild) -> (plan: StaticPositionPlan)
    requires
        container matches StaticPositionContainer::Flex(Some((style, _))) ==> style.display
            == CssDisplay::Flex,
    ensures
        plan == static_position_plan(container, child),
{
    match container {
        StaticPositionContainer::Other => StaticPositionPlan {
            slots: child.slots,
            enable_provider: false,
            use_grid_area: false,
        },
        StaticPositionContainer::Flex(parent) => {
            let mut slots = child.slots;
            if let (Some((style, flow)), Some((subject_flow, subject))) = (parent, child.element) {
                map_flex_child_self_alignment(&mut slots, &style, flow, subject_flow, &subject);
            }
            StaticPositionPlan { slots, enable_provider: child.out_of_flow, use_grid_area: false }
        },
        StaticPositionContainer::Grid(flow) => {
            let mut slots = child.slots;
            if child.out_of_flow {
                if !flow.is_horizontal() {
                    map_vertical_grid_static_alignment(&mut slots, flow);
                }
                if let Some((subject_flow, align_self, justify_self)) = child.subject {
                    map_grid_static_self_alignment(&mut slots, flow, subject_flow, align_self, justify_self);
                }
            }
            StaticPositionPlan {
                slots,
                enable_provider: child.out_of_flow,
                use_grid_area: child.out_of_flow && child.contained_by_container,
            }
        },
    }
}

} // verus!

verus! {

/// The backend display of a box: tables and every other display are
/// formatted as blocks (their structure is committed before dispatch).
#[derive(Clone, Copy, Debug, PartialEq, Eq, Structural)]
pub enum BackendDisplay {
    DisplayNone,
    Flex,
    Grid,
    Block,
}

/// CSS `float`.
#[derive(Clone, Copy, Debug, PartialEq, Eq, Structural)]
pub enum CssFloat {
    NoFloat,
    Left,
    Right,
}

/// CSS `box-sizing`.
#[derive(Clone, Copy, Debug, PartialEq, Eq, Structural)]
pub enum BoxSizing {
    ContentBox,
    BorderBox,
}

/// CSS `container-type`.
#[derive(Clone, Copy, Debug, PartialEq, Eq, Structural)]
pub enum ContainerType {
    Normal,
    InlineSize,
    Size,
}

/// The keyword-valued computed properties of one element that the backend
/// style projection reads; lengths are projected apart.
#[derive(Clone, Copy, Debug)]
pub struct DiscreteStyle {
    pub alignment: AlignmentStyle,
    pub float: CssFloat,
    pub box_sizing: BoxSizing,
    pub overflow_x: CssOverflow,
    pub overflow_y: CssOverflow,
    pub container_type: ContainerType,
    pub vertical_writing_mode: bool,
    pub grid_auto_flow: CssGridAutoFlow,
    pub grid_column_start: CssGridPlacement,
    pub grid_column_end: CssGridPlacement,
    pub grid_row_start: CssGridPlacement,
    pub grid_row_end: CssGridPlacement,
}

/// The backend's positioning scheme.
#[derive(Clone, Copy, Debug, PartialEq, Eq, Structural)]
pub enum BackendPosition {
    Static,
    Relative,
    Absolute,
    Fixed,
    Sticky,
}

/// The keyword-valued part of a backend style.
#[derive(Clone, Copy, Debug, PartialEq, Eq, Structural)]
pub struct BackendStyle {
    pub display: BackendDisplay,
    /// Always `Relative`: the block formatter owns every CSS positioning
    /// category, so the backend lays every box out in flow.
    pub position: BackendPosition,
    /// Always true: every inset side is `auto`, so the backend produces the
    /// normal-flow rectangle and never a sticky or relative offset.
    pub inset_auto: bool,
    pub float: CssFloat,
    pub box_sizing: BoxSizing,
    pub overflow_x: Overflow,
    pub overflow_y: Overflow,
    /// Size containment in the width axis.
    pub contain_width: bool,
    /// Size containment in the height axis.
    pub contain_height: bool,
    pub flex_direction: FlexDirection,
    pub direction: TaffyDirection,
    pub flex_wrap: FlexWrap,
    pub align_items: AlignItems,
    pub align_self: Option<AlignItems>,
    pub justify_items: AlignItems,
    pub justify_self: Option<AlignItems>,
    pub align_content: AlignContent,
    pub justify_content: AlignContent,
    pub grid_auto_flow: GridAutoFlow,
    pub grid_column_start: GridPlacement,
    pub grid_column_end: GridPlacement,
    pub grid_row_start: GridPlacement,
    pub grid_row_end: GridPlacement,
}

pub open spec fn items_of(value: CssAlignment) -> AlignItems {
    AlignItems { keyword: align_items_keyword(value), safety: AlignmentSafety::Unsafe }
}

pub open spec fn content_of(value: CssAlignment) -> AlignContent {
    AlignContent { keyword: align_content_keyword(value), safety: AlignmentSafety::Unsafe }
}

/// The backend self-alignment of one axis (see `self_alignment`).
pub open spec fn backend_self_alignment(value: CssAlignment, size: SizeKind) -> Option<AlignItems> {
    if value == CssAlignment::Auto {
        if is_content_keyword(size) {
            Some(items_of(CssAlignment::Start))
        } else {
            None
        }
    } else {
        Some(items_of(value))
    }
}

/// The backend wrapping (see `physical_flex_wrap`).
pub open spec fn backend_wrap(computed: AlignmentStyle, physical_direction: FlexDirection, flow: FlowAxes) -> FlexWrap {
    if computed.flex_wrap == CssFlexWrap::NoWrap {
        FlexWrap::NoWrap
    } else if (computed.flex_wrap == CssFlexWrap::Wrap) != flips_cross_axis(
        computed.display,
        computed.flex_direction,
        physical_direction,
        flow,
    ) {
        FlexWrap::Wrap
    } else {
        FlexWrap::WrapReverse
    }
}

pub open spec fn backend_overflow(value: CssOverflow) -> Overflow {
    match value {
        CssOverflow::Visible => Overflow::Visible,
        CssOverflow::Hidden => Overflow::Hidden,
        CssOverflow::Clip => Overflow::Clip,
        CssOverflow::Scroll | CssOverflow::Auto => Overflow::Scroll,
    }
}

pub open spec fn backend_placement(value: CssGridPlacement) -> GridPlacement {
    match value {
        CssGridPlacement::Auto => GridPlacement::Auto,
        CssGridPlacement::Line(line) => GridPlacement::Line(line),
        CssGridPlacement::Span(span) => GridPlacement::Span(span),
    }
}

/// The keyword-valued backend style of an element laid out in `flow` (its
/// own writing mode and direction).
pub open spec fn backend_style_of(computed: DiscreteStyle, flow: FlowAxes) -> BackendStyle {
    let a = computed.alignment;
    let physical = flex_direction_starting_at(flex_start_side(a.flex_direction, flow));
    BackendStyle {
        display: match a.display {
            CssDisplay::DisplayNone => BackendDisplay::DisplayNone,
            CssDisplay::Flex => BackendDisplay::Flex,
            CssDisplay::Grid => BackendDisplay::Grid,
            _ => BackendDisplay::Block,
        },
        position: BackendPosition::Relative,
        inset_auto: true,
        float: computed.float,
        box_sizing: computed.box_sizing,
        overflow_x: backend_overflow(computed.overflow_x),
        overflow_y: backend_overflow(computed.overflow_y),
        contain_width: computed.container_type == ContainerType::Size || (computed.container_type
            == ContainerType::InlineSize && !computed.vertical_writing_mode),
        contain_height: computed.container_type == ContainerType::Size || (computed.container_type
            == ContainerType::InlineSize && computed.vertical_writing_mode),
        flex_direction: physical,
        direction: if a.display == CssDisplay::Flex {
            cross_axis_direction(a.flex_direction, physical, flow)
        } else {
            TaffyDirection::Ltr
        },
        flex_wrap: backend_wrap(a, physical, flow),
        align_items: items_of(cross_alignment(a, a.align_items, a.flex_direction, physical, flow)),
        align_self: backend_self_alignment(a.align_self, a.height),
        justify_items: items_of(a.justify_items),
        justify_self: backend_self_alignment(a.justify_self, a.width),
        align_content: content_of(cross_alignment(a, a.align_content, a.flex_direction, physical, flow)),
        justify_content: content_of(flex_justify_value(a, flow)),
        grid_auto_flow: match computed.grid_auto_flow {
            CssGridAutoFlow::Row => GridAutoFlow::Row,
            CssGridAutoFlow::Column => GridAutoFlow::Column,
            CssGridAutoFlow::RowDense => GridAutoFlow::RowDense,
            CssGridAutoFlow::ColumnDense => GridAutoFlow::ColumnDense,
        },
        grid_column_start: backend_placement(computed.grid_column_start),
        grid_column_end: backend_placement(computed.grid_column_end),
        grid_row_start: backend_placement(computed.grid_row_start),
        grid_row_end: backend_placement(computed.grid_row_end),
    }
}

/// Project an element's keyword-valued computed style onto the backend:
/// display, relative position with automatic insets for every element (the
/// block formatter owns positioning), float, box sizing, overflow and size containment, the physical
/// flex axes and wrapping, every alignment keyword, and grid flow and
/// placement. `flow` is the element's own writing mode and direction.
pub fn to_backend_style(computed: &DiscreteStyle, flow: FlowAxes) -> (style: BackendStyle)
    ensures
        style == backend_style_of(*computed, flow),
{
    let a = &computed.alignment;
    let display = match a.display {
        CssDisplay::DisplayNone => BackendDisplay::DisplayNone,
        CssDisplay::Flex => BackendDisplay::Flex,
        CssDisplay::Grid => BackendDisplay::Grid,
        _ => BackendDisplay::Block,
    };
    let flex_direction = physical_flex_direction(a.flex_direction, flow);
    let direction = if a.display == CssDisplay::Flex {
        physical_flex_cross_axis_direction(a.flex_direction, flex_direction, flow)
    } else {
        TaffyDirection::Ltr
    };
    let (contain_width, contain_height) = match computed.container_type {
        ContainerType::Normal => (false, false),
        ContainerType::InlineSize => if computed.vertical_writing_mode {
            (false, true)
        } else {
            (true, false)
        },
        ContainerType::Size => (true, true),
    };
    let align_items_value = physical_flex_cross_alignment(a, a.align_items, a.flex_direction, flex_direction, flow);
    let align_content_value = physical_flex_cross_alignment(a, a.align_content, a.flex_direction, flex_direction, flow);
    let style = BackendStyle {
        display,
        position: BackendPosition::Relative,
        inset_auto: true,
        float: computed.float,
        box_sizing: computed.box_sizing,
        overflow_x: overflow(computed.overflow_x),
        overflow_y: overflow(computed.overflow_y),
        contain_width,
        contain_height,
        flex_direction,
        direction,
        flex_wrap: physical_flex_wrap(a, flex_direction, flow),
        align_items: align_items(align_items_value),
        align_self: self_alignment(a.align_self, a.height),
        justify_items: align_items(a.justify_items),
        justify_self: self_alignment(a.justify_self, a.width),
        align_content: align_content(align_content_value),
        justify_content: physical_flex_justify_content(a, flow),
        grid_auto_flow: grid_auto_flow(computed.grid_auto_flow),
        grid_column_start: grid_placement(computed.grid_column_start),
        grid_column_end: grid_placement(computed.grid_column_end),
        grid_row_start: grid_placement(computed.grid_row_start),
        grid_row_end: grid_placement(computed.grid_row_end),
    };
    style
}

} // verus!

verus! {

/// The CSS flex direction running the other way along the same axis.
pub open spec fn reversed_direction(direction: CssFlexDirection) -> CssFlexDirection {
    match direction {
        CssFlexDirection::Row => CssFlexDirection::RowReverse,
        CssFlexDirection::RowReverse => CssFlexDirection::Row,
        CssFlexDirection::Column => CssFlexDirection::ColumnReverse,
        CssFlexDirection::ColumnReverse => CssFlexDirection::Column,
    }
}

/// Every backend style is positioned relatively with automatic insets,
/// whatever the element's own `position`: positioning, sticky offsets
/// included, belongs to the block formatter.
pub proof fn law_backend_style_is_relative_with_auto_insets(computed: DiscreteStyle, flow: FlowAxes)
    ensures
        backend_style_of(computed, flow).position == BackendPosition::Relative,
        backend_style_of(computed, flow).inset_auto,
{
}

/// Reversing a CSS flex direction makes its items start at the opposite
/// physical side, on the same physical axis.
pub proof fn law_reversed_flex_direction_starts_opposite(direction: CssFlexDirection, flow: FlowAxes)
    ensures
        flex_start_side(reversed_direction(direction), flow) == opposite(
            flex_start_side(direction, flow),
        ),
        is_horizontal_side(main_start_side(flex_direction_starting_at(flex_start_side(direction, flow))))
            == is_horizontal_side(logical_main_start(direction, flow)),
{
}

/// Reversing a self-alignment twice gives it back.
pub proof fn law_reverse_self_alignment_involution(alignment: Option<AlignItems>)
    ensures
        reversed_alignment(reversed_alignment(alignment)) == alignment,
{
}

/// Mirroring a cross-axis alignment twice gives it back, so a flipped
/// container maps alignments one to one.
pub proof fn law_mirrored_cross_alignment_involution(value: CssAlignment, wrap: CssFlexWrap)
    ensures
        mirrored_cross_alignment(mirrored_cross_alignment(value, wrap), wrap) == value,
{
}

/// On any physical axis, a subject's own start and end sides are opposite
/// sides of that axis.
pub proof fn law_subject_start_and_end_are_opposite(subject_flow: FlowAxes, axis_side: PhysicalSide)
    requires
        subject_flow.perpendicular(),
    ensures
        subject_side(subject_flow, axis_side, false) == opposite(
            subject_side(subject_flow, axis_side, true),
        ),
        is_horizontal_side(subject_side(subject_flow, axis_side, true)) == is_horizontal_side(
            axis_side,
        ),
{
}

/// Being on the same physical axis is an equivalence relation.
pub proof fn law_same_axis_is_equivalence(a: PhysicalSide, b: PhysicalSide, c: PhysicalSide)
    ensures
        is_horizontal_side(a) == is_horizontal_side(a),
        (is_horizontal_side(a) == is_horizontal_side(b)) == (is_horizontal_side(b)
            == is_horizontal_side(a)),
        is_horizontal_side(a) == is_horizontal_side(b) && is_horizontal_side(b)
            == is_horizontal_side(c) ==> is_horizontal_side(a) == is_horizontal_side(c),
        is_horizontal_side(a) == is_horizontal_side(opposite(a)),
        opposite(opposite(a)) == a,
{
}

/// The main and cross starts of a flex container are always on different
/// physical axes.
pub proof fn law_flex_main_and_cross_are_perpendicular(direction: CssFlexDirection, flow: FlowAxes)
    requires
        flow.perpendicular(),
    ensures
        is_horizontal_side(logical_main_start(direction, flow)) != is_horizontal_side(
            logical_cross_start(direction, flow),
        ),
{
}

/// Decoding the tag of a slot index gives the index back.
pub proof fn law_calc_tag_round_trip(index: int)
    requires
        0 <= index,
        spec_calc_tag(index) <= usize::MAX,
    ensures
        spec_calc_tag_index(spec_calc_tag(index)) == index,
{
}

/// A parked value is what its tag resolves to, and parking leaves every
/// earlier tag resolving as before.
pub proof fn law_calc_slot_resolves<T>(slots: Seq<T>, value: T, tag: int)
    ensures
        scratch_entry(slots.push(value), spec_calc_tag(slots.len() as int)) == Some(value),
        scratch_entry(slots, tag) is Some ==> scratch_entry(slots.push(value), tag) == scratch_entry(
            slots,
            tag,
        ),
{
}

/// After a reset no tag resolves.
pub proof fn law_reset_scratch_resolves_nothing<T>(tag: int)
    ensures
        scratch_entry(Seq::<T>::empty(), tag) is None,
{
}

} // verus!
