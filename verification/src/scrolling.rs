//! Which boxes scroll, and along which axes the document does.

use vstd::prelude::*;
use crate::taffy_style::CssOverflow;
use crate::document::DocumentTree;
use crate::document::flagged_ancestors;

verus! {

/// The two computed `overflow` longhands of a box.
#[derive(Clone, Copy, Debug, PartialEq, Eq, Structural)]
pub struct OverflowStyle {
    pub overflow_x: CssOverflow,
    pub overflow_y: CssOverflow,
}

/// `auto` and `scroll` make an axis scroll.
pub open spec fn scrolls(value: CssOverflow) -> bool {
    value == CssOverflow::Auto || value == CssOverflow::Scroll
}

fn axis_scrolls(value: CssOverflow) -> (scrolling: bool)
    ensures
        scrolling == scrolls(value),
{
    match value {
        CssOverflow::Auto | CssOverflow::Scroll => true,
        _ => false,
    }
}

/// Whether the box scrolls horizontally.
pub fn scrolls_x(style: &OverflowStyle) -> (scrolling: bool)
    ensures
        scrolling == scrolls(style.overflow_x),
{
    axis_scrolls(style.overflow_x)
}

/// Whether the box scrolls vertically.
pub fn scrolls_y(style: &OverflowStyle) -> (scrolling: bool)
    ensures
        scrolling == scrolls(style.overflow_y),
{
    axis_scrolls(style.overflow_y)
}

/// A scroll container scrolls along at least one axis.
pub fn is_scroll_container(style: &OverflowStyle) -> (container: bool)
    ensures
        container == (scrolls(style.overflow_x) || scrolls(style.overflow_y)),
{
    scrolls_x(style) || scrolls_y(style)
}

/// A box clips its content unless both axes are `visible`.
pub fn clips_content(style: &OverflowStyle) -> (clips: bool)
    ensures
        clips == (style.overflow_x != CssOverflow::Visible || style.overflow_y != CssOverflow::Visible),
{
    style.overflow_x != CssOverflow::Visible || style.overflow_y != CssOverflow::Visible
}

/// Every scroll container clips its content.
pub proof fn law_scroll_containers_clip(style: OverflowStyle)
    ensures
        scrolls(style.overflow_x) || scrolls(style.overflow_y) ==> style.overflow_x
            != CssOverflow::Visible || style.overflow_y != CssOverflow::Visible,
{
}

/// An axis scrolls exactly when its `overflow` is `auto` or `scroll`:
/// `visible`, `hidden` and `clip` never make a scroll container.
pub proof fn law_only_auto_and_scroll_scroll(style: OverflowStyle)
    ensures
        scrolls(style.overflow_x) <==> (style.overflow_x == CssOverflow::Auto || style.overflow_x
            == CssOverflow::Scroll),
        scrolls(style.overflow_y) <==> (style.overflow_y == CssOverflow::Auto || style.overflow_y
            == CssOverflow::Scroll),
        !scrolls(CssOverflow::Visible) && !scrolls(CssOverflow::Hidden) && !scrolls(CssOverflow::Clip),
        scrolls(CssOverflow::Auto) && scrolls(CssOverflow::Scroll),
        (style.overflow_x == CssOverflow::Clip && style.overflow_y == CssOverflow::Clip) ==> !(scrolls(
            style.overflow_x,
        ) || scrolls(style.overflow_y)),
{
}

/// An axis the viewport may scroll: anything but `hidden` or `clip` on the
/// root element.
pub open spec fn viewport_scrolls(value: CssOverflow) -> bool {
    !(value == CssOverflow::Hidden || value == CssOverflow::Clip)
}

/// The viewport scrolls an axis unless the root element's `overflow` on it
/// is `hidden` or `clip`: `visible`, `auto` and `scroll` all let it scroll.
pub proof fn law_viewport_scrolls_unless_hidden_or_clip()
    ensures
        viewport_scrolls(CssOverflow::Visible),
        viewport_scrolls(CssOverflow::Auto),
        viewport_scrolls(CssOverflow::Scroll),
        !viewport_scrolls(CssOverflow::Hidden),
        !viewport_scrolls(CssOverflow::Clip),
{
}

/// The axes along which the document scrolls, from the root element's
/// style; both when there is no root element or it has no style.
pub fn scrollable_axes(root: Option<OverflowStyle>) -> (axes: (bool, bool))
    ensures
        axes == (match root {
            Some(style) => (viewport_scrolls(style.overflow_x), viewport_scrolls(style.overflow_y)),
            None => (true, true),
        }),
{
    match root {
        Some(style) => (
            match style.overflow_x {
                CssOverflow::Hidden | CssOverflow::Clip => false,
                _ => true,
            },
            match style.overflow_y {
                CssOverflow::Hidden | CssOverflow::Clip => false,
                _ => true,
            },
        ),
        None => (true, true),
    }
}

} // verus!

verus! {

/// The nested scrollports that must move to reveal `node`: its ancestors
/// with a nonzero scroll offset (`scrolled[n]`), innermost first, so that
/// each outer scrollport sees the target where the inner ones left it.
pub fn reveal_scrollports(tree: &DocumentTree, scrolled: &Vec<bool>, node: usize) -> (scrollports: Vec<usize>)
    ensures
        scrollports@ == flagged_ancestors(*tree, scrolled@, node),
{
    let mut scrollports: Vec<usize> = Vec::new();
    let mut current = node;
    loop
        invariant
            scrollports@ + flagged_ancestors(*tree, scrolled@, current) == flagged_ancestors(*tree, scrolled@, node),
        decreases current,
    {
        match tree.parent(current) {
            Some(p) => {
                if p < scrolled.len() && scrolled[p] {
                    scrollports.push(p);
                    assert(scrollports@ + flagged_ancestors(*tree, scrolled@, p) =~= scrollports@.drop_last()
                        + (seq![p] + flagged_ancestors(*tree, scrolled@, p)));
                }
                current = p;
            },
            None => {
                assert(scrollports@ + flagged_ancestors(*tree, scrolled@, current) =~= scrollports@);
                return scrollports;
            },
        }
    }
}

/// The scrollport a sticky box sticks within: its nearest ancestor that is
/// a scroll container with a fragment (`scrollports[n]`); `None` stands for
/// the viewport.
pub fn sticky_scrollport_owner(tree: &DocumentTree, scrollports: &Vec<bool>, node: usize) -> (owner: Option<usize>)
    ensures
        owner == (if flagged_ancestors(*tree, scrollports@, node).len() > 0 {
            Some(flagged_ancestors(*tree, scrollports@, node)[0])
        } else {
            None
        }),
{
    let mut current = node;
    loop
        invariant
            flagged_ancestors(*tree, scrollports@, current) == flagged_ancestors(*tree, scrollports@, node),
        decreases current,
    {
        match tree.parent(current) {
            Some(p) => {
                if p < scrollports.len() && scrollports[p] {
                    return Some(p);
                }
                current = p;
            },
            None => return None,
        }
    }
}

} // verus!
