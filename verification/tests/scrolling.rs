use genet_livery::document::DocumentTree;
use genet_livery::scrolling::{reveal_scrollports, sticky_scrollport_owner, 
    clips_content, is_scroll_container, scrollable_axes, scrolls_x, scrolls_y, OverflowStyle,
};
use genet_livery::taffy_style::CssOverflow;

fn style(x: CssOverflow, y: CssOverflow) -> OverflowStyle {
    OverflowStyle { overflow_x: x, overflow_y: y }
}

#[test]
fn auto_and_scroll_make_scroll_containers() {
    let both = style(CssOverflow::Auto, CssOverflow::Scroll);
    assert!(scrolls_x(&both) && scrolls_y(&both) && is_scroll_container(&both));
    let hidden = style(CssOverflow::Hidden, CssOverflow::Visible);
    assert!(!is_scroll_container(&hidden));
    assert!(clips_content(&hidden));
    let visible = style(CssOverflow::Visible, CssOverflow::Visible);
    assert!(!clips_content(&visible));
    assert!(clips_content(&style(CssOverflow::Visible, CssOverflow::Auto)));
}

#[test]
fn the_root_element_decides_the_viewport_axes() {
    assert_eq!(scrollable_axes(None), (true, true));
    assert_eq!(scrollable_axes(Some(style(CssOverflow::Hidden, CssOverflow::Auto))), (false, true));
    assert_eq!(scrollable_axes(Some(style(CssOverflow::Visible, CssOverflow::Clip))), (true, false));
}

fn nested_tree() -> DocumentTree {
    DocumentTree::from_parents(vec![None, Some(0), Some(1), Some(2), Some(3), Some(4)]).unwrap()
}

#[test]
fn scrolled_ancestors_reveal_innermost_first() {
    let tree = nested_tree();
    let scrolled = vec![false, false, true, false, true, false];
    assert_eq!(reveal_scrollports(&tree, &scrolled, 5), vec![4, 2]);
    assert_eq!(reveal_scrollports(&tree, &scrolled, 4), vec![2]);
    assert_eq!(reveal_scrollports(&tree, &scrolled, 1), Vec::<usize>::new());
}

#[test]
fn sticky_boxes_stick_to_the_nearest_scrollport_or_the_viewport() {
    let tree = nested_tree();
    let scrollports = vec![false, false, true, true, false, false];
    assert_eq!(sticky_scrollport_owner(&tree, &scrollports, 5), Some(3));
    assert_eq!(sticky_scrollport_owner(&tree, &scrollports, 3), Some(2));
    assert_eq!(sticky_scrollport_owner(&tree, &scrollports, 2), None);
}
