use std::collections::{HashMap, HashSet};

use genet_livery::retained::{
    DisplayInside, DisplayOutside, FloatSide, GeneratedBox, GeneratedBoxTree, PositioningScheme,
};
use genet_livery::taffy_style::BoxOrigin;

use genet_livery::tables::{
    clipped_cells, record_positioning_gap, table_positioning_gap, CssPosition,
    TablePositioningGap, TablePositioningGapRecord, html_cell_input, html_limited_span, supports_retained_sticky_table_part,
    supports_shared_positioned_table_part, table_cell_spans_collapsed_track,
    uses_zero_track_static_anchor, wrapper_children_in_caption_order, InternalTableRole,
    TableCell, TableCellInput, TableFragment, TableFragmentRole, TablePaintModel,
    TablePaintPlane, TablePartPaint, TableRowSpan, phase_of, TableTrackVisibility, WrapperChild,
};

#[test]
fn limited_spans_parse_trimmed_positive_integers() {
    assert_eq!(html_limited_span(None, 1000), 1);
    assert_eq!(html_limited_span(Some("0"), 1000), 1);
    assert_eq!(html_limited_span(Some(" 7 "), 1000), 7);
    assert_eq!(html_limited_span(Some("2000"), 1000), 1000);
    assert_eq!(html_limited_span(Some("+3"), 1000), 3);
    assert_eq!(html_limited_span(Some("-1"), 1000), 1);
    assert_eq!(html_limited_span(Some("3px"), 1000), 1);
    assert_eq!(html_limited_span(Some("\u{a0}5"), 1000), 5);
}

#[test]
fn cell_spans_follow_the_html_limits() {
    assert_eq!(
        html_cell_input(Some("3"), Some("0")),
        TableCellInput { column_span: 3, row_span: TableRowSpan::ToEndOfGroup }
    );
    assert_eq!(
        html_cell_input(None, Some("70000")),
        TableCellInput { column_span: 1, row_span: TableRowSpan::Count(65534) }
    );
    assert_eq!(
        html_cell_input(Some("x"), Some("x")),
        TableCellInput { column_span: 1, row_span: TableRowSpan::Count(1) }
    );
}

#[test]
fn table_part_capabilities() {
    assert!(supports_retained_sticky_table_part(InternalTableRole::Row));
    assert!(!supports_retained_sticky_table_part(InternalTableRole::Column));
    assert!(supports_shared_positioned_table_part(InternalTableRole::Cell));
    assert!(uses_zero_track_static_anchor(InternalTableRole::Row));
    assert!(!uses_zero_track_static_anchor(InternalTableRole::ColumnGroup));
}

#[test]
fn a_cell_straddling_a_collapsed_track_is_clipped() {
    let visibility = TableTrackVisibility {
        collapsed_columns: vec![false, true, false],
        collapsed_rows: vec![],
    };
    let cell = |column, column_span| TableCell {
        column,
        column_span,
        row: 0,
        row_span: 1,
        source: 9,
    };
    assert!(table_cell_spans_collapsed_track(&visibility, &cell(0, 2)));
    assert!(!table_cell_spans_collapsed_track(&visibility, &cell(1, 1)));
    assert!(!table_cell_spans_collapsed_track(&visibility, &cell(2, 1)));
    assert!(!table_cell_spans_collapsed_track(&visibility, &cell(0, 0)));
    assert!(table_cell_spans_collapsed_track(&visibility, &cell(1, 5)));
}

#[test]
fn bottom_captions_follow_the_grid_in_source_order() {
    let children = vec![
        WrapperChild { box_id: 1, below: true },
        WrapperChild { box_id: 2, below: false },
        WrapperChild { box_id: 3, below: true },
        WrapperChild { box_id: 4, below: false },
    ];
    assert_eq!(wrapper_children_in_caption_order(&children), vec![2, 4, 1, 3]);
}

fn model(grid: u64, cell: u64, separated: bool, collapsed: bool, clipped: &[u64]) -> TablePaintModel {
    TablePaintModel {
        fragments: vec![
            TableFragment { box_id: Some(grid), role: TableFragmentRole::Grid },
            TableFragment { box_id: None, role: TableFragmentRole::Column },
            TableFragment { box_id: Some(cell), role: TableFragmentRole::Cell },
        ],
        separated,
        collapsed_table: if collapsed { Some(grid) } else { None },
        clipped_cells: clipped.iter().copied().collect::<HashSet<u64>>(),
    }
}

#[test]
fn paint_models_manage_their_boxes_by_border_model() {
    let separated = model(10, 11, true, false, &[]);
    assert!(separated.is_separated());
    assert!(!separated.is_collapsed());
    assert!(separated.manages(11));
    assert!(!separated.manages(10));
    assert!(!separated.manages(12));
    let collapsed = model(20, 21, false, true, &[21]);
    assert!(collapsed.is_collapsed());
    assert_eq!(collapsed.collapsed_table(), Some(20));
    assert!(collapsed.manages(20));
    assert!(collapsed.clips_cell(21));
    assert!(!collapsed.clips_cell(20));
    assert_eq!(collapsed.fragments().len(), 3);
}

#[test]
fn merging_planes_prefers_the_incoming_table() {
    let mut plane = TablePaintPlane::new();
    plane.tables.insert(10, model(10, 11, true, false, &[]));
    let mut other = TablePaintPlane::new();
    other.tables.insert(10, model(10, 12, true, false, &[12]));
    other.tables.insert(20, model(20, 21, false, true, &[]));
    plane.merge(other);
    assert_eq!(plane.tables.len(), 2);
    assert!(plane.manages(12));
    assert!(!plane.manages(11));
    assert!(plane.manages(20));
    assert!(plane.clips_cell(12));
    assert!(!plane.clips_cell(21));
    assert!(plane.table(20).is_some());
    assert!(plane.table(30).is_none());
}

#[test]
fn duplicates_copy_every_part_of_a_model() {
    let original = model(20, 21, false, true, &[21]);
    let copy = original.duplicate();
    assert_eq!(copy.fragments, original.fragments);
    assert_eq!(copy.separated, original.separated);
    assert_eq!(copy.collapsed_table, original.collapsed_table);
    assert_eq!(copy.clipped_cells, original.clipped_cells);
}

/// 0 root, 1 first subtree root, 2 a table grid under it, 3 a grid outside it.
fn subtree_boxes() -> GeneratedBoxTree {
    let make = |parent: Option<u64>, children: Vec<u64>| GeneratedBox {
        origin: BoxOrigin::Anonymous(None),
        parent,
        children,
        positioning: PositioningScheme::Static,
        float: FloatSide::NoFloat,
        outside: Some(DisplayOutside::Block),
        inside: Some(DisplayInside::Flow),
        internal_table: None,
        formatting_context: None,
    };
    GeneratedBoxTree::from_parts(
        vec![make(None, vec![1, 3]), make(Some(0), vec![2]), make(Some(1), vec![]), make(Some(0), vec![])],
        HashMap::new(),
    )
    .unwrap()
}

#[test]
fn replacing_a_subtree_swaps_only_its_tables() {
    let boxes = subtree_boxes();
    let mut plane = TablePaintPlane::new();
    plane.tables.insert(2, model(2, 50, true, false, &[]));
    plane.tables.insert(3, model(3, 60, true, false, &[]));
    let mut fresh = TablePaintPlane::new();
    fresh.tables.insert(2, model(2, 70, true, false, &[70]));
    fresh.tables.insert(3, model(3, 80, true, false, &[]));
    plane.replace_subtree_from(&fresh, &boxes, &boxes, 1, 1);
    assert_eq!(plane.tables.len(), 2);
    assert!(plane.manages(70));
    assert!(!plane.manages(50));
    assert!(plane.manages(60));
    assert!(!plane.manages(80));
    assert!(plane.clips_cell(70));

    let mut emptied = TablePaintPlane::new();
    emptied.tables.insert(2, model(2, 50, true, false, &[]));
    emptied.replace_subtree_from(&TablePaintPlane::new(), &boxes, &boxes, 1, 1);
    assert!(emptied.tables.is_empty());
}

#[test]
fn positioning_gaps_of_table_parts() {
    assert_eq!(table_positioning_gap(CssPosition::Absolute, true, Some(InternalTableRole::Grid)), None);
    assert_eq!(
        table_positioning_gap(CssPosition::Absolute, false, Some(InternalTableRole::Cell)),
        Some(TablePositioningGap::Absolute)
    );
    assert_eq!(
        table_positioning_gap(CssPosition::Fixed, false, Some(InternalTableRole::Row)),
        Some(TablePositioningGap::Fixed)
    );
    assert_eq!(table_positioning_gap(CssPosition::Sticky, false, Some(InternalTableRole::Row)), None);
    assert_eq!(
        table_positioning_gap(CssPosition::Sticky, false, Some(InternalTableRole::Column)),
        Some(TablePositioningGap::Sticky)
    );
    assert_eq!(table_positioning_gap(CssPosition::Sticky, false, None), Some(TablePositioningGap::Sticky));
    assert_eq!(table_positioning_gap(CssPosition::Relative, false, Some(InternalTableRole::Cell)), None);

    let record = TablePositioningGapRecord { table: 1, part: 2, gap: TablePositioningGap::Fixed };
    let mut gaps = Vec::new();
    record_positioning_gap(&mut gaps, record);
    record_positioning_gap(&mut gaps, record);
    assert_eq!(gaps, vec![record]);
}

#[test]
fn clipped_cells_are_those_crossing_collapsed_tracks() {
    let visibility = TableTrackVisibility { collapsed_columns: vec![false, true], collapsed_rows: vec![true] };
    let cells = vec![
        TableCell { column: 0, column_span: 2, row: 1, row_span: 1, source: 5 },
        TableCell { column: 0, column_span: 1, row: 1, row_span: 1, source: 6 },
        TableCell { column: 0, column_span: 1, row: 0, row_span: 2, source: 7 },
        TableCell { column: 1, column_span: 1, row: 0, row_span: 1, source: 8 },
    ];
    let clipped = clipped_cells(&visibility, &cells);
    assert_eq!(clipped, [5u64, 7].into_iter().collect::<HashSet<u64>>());
}

fn layered(collapsed: bool) -> TablePaintModel {
    let roles = [
        TableFragmentRole::Grid,
        TableFragmentRole::RowGroup,
        TableFragmentRole::Row,
        TableFragmentRole::Cell,
        TableFragmentRole::Column,
        TableFragmentRole::Row,
        TableFragmentRole::Cell,
        TableFragmentRole::ColumnGroup,
    ];
    TablePaintModel {
        fragments: roles
            .iter()
            .enumerate()
            .map(|(i, role)| TableFragment { box_id: Some(i as u64), role: *role })
            .collect(),
        separated: !collapsed,
        collapsed_table: if collapsed { Some(0) } else { None },
        clipped_cells: HashSet::new(),
    }
}

#[test]
fn table_backgrounds_paint_layer_by_layer() {
    assert_eq!(layered(true).background_order(), vec![0, 7, 4, 1, 2, 5, 3, 6]);
    assert_eq!(layered(false).background_order(), vec![7, 4, 1, 2, 5, 3, 6]);
    assert_eq!(phase_of(TableFragmentRole::Grid, false), None);
    assert_eq!(phase_of(TableFragmentRole::Cell, false), Some(5));
}

#[test]
fn table_parts_paint_their_own_layers() {
    let separated = layered(false);
    let none = TablePartPaint { shadow: false, background: false, border: false };
    assert_eq!(
        separated.part_paint(TableFragmentRole::Grid, true, false),
        TablePartPaint { shadow: true, background: true, border: false }
    );
    assert_eq!(
        separated.part_paint(TableFragmentRole::Cell, true, false),
        TablePartPaint { shadow: false, background: true, border: true }
    );
    assert_eq!(separated.part_paint(TableFragmentRole::Cell, true, true), none);
    assert_eq!(
        separated.part_paint(TableFragmentRole::Row, true, true),
        TablePartPaint { shadow: false, background: true, border: false }
    );
    assert_eq!(separated.part_paint(TableFragmentRole::Row, false, false), none);
    let collapsed = layered(true);
    assert_eq!(
        collapsed.part_paint(TableFragmentRole::Cell, true, false),
        TablePartPaint { shadow: false, background: true, border: false }
    );
}
