//! The primary-pointer text selection gesture: a press sets the anchor, each
//! move extends the range from the anchor to the text position under the
//! pointer, and the release ends the gesture, keeping the range only when
//! it still selects something. Text positions come from hit-testing the
//! retained text frame; a position is a text node and a byte offset in it.

use vstd::prelude::*;

verus! {

/// A position in the document's text: a text node and a byte offset.
#[derive(Clone, Copy, Debug, PartialEq, Eq, Structural)]
pub struct TextPosition {
    pub node: usize,
    pub offset: usize,
}

/// A selected range, from where the gesture started to where it is.
#[derive(Clone, Copy, Debug, PartialEq, Eq, Structural)]
pub struct TextRange {
    pub anchor_node: usize,
    pub anchor_offset: usize,
    pub focus_node: usize,
    pub focus_offset: usize,
}

pub open spec fn range_between(anchor: TextPosition, focus: TextPosition) -> TextRange {
    TextRange {
        anchor_node: anchor.node,
        anchor_offset: anchor.offset,
        focus_node: focus.node,
        focus_offset: focus.offset,
    }
}

/// Moving to `hit` changes the range: a gesture is in progress, there is a
/// text position under the pointer, and the range to it is new.
pub open spec fn extension_changes(g: SelectionGesture, hit: Option<TextPosition>) -> bool {
    g.anchor is Some && hit is Some && g.range != Some(range_between(g.anchor->0, hit->0))
}

/// The gesture after a move to `hit`.
pub open spec fn extended(g: SelectionGesture, hit: Option<TextPosition>) -> SelectionGesture {
    if extension_changes(g, hit) {
        SelectionGesture { anchor: g.anchor, range: Some(range_between(g.anchor->0, hit->0)) }
    } else {
        g
    }
}

/// The gesture after the release.
pub open spec fn finished(g: SelectionGesture, resolved: bool) -> SelectionGesture {
    SelectionGesture {
        anchor: None,
        range: if resolved {
            g.range
        } else {
            None
        },
    }
}

/// The state of the selection gesture: the anchor of a gesture in progress
/// and the current range.
#[derive(Clone, Copy, Debug, PartialEq, Eq, Structural)]
pub struct SelectionGesture {
    pub anchor: Option<TextPosition>,
    pub range: Option<TextRange>,
}

impl SelectionGesture {
    /// No gesture and no selection.
    pub fn new() -> (gesture: Self)
        ensures
            gesture.anchor is None,
            gesture.range is None,
    {
        SelectionGesture { anchor: None, range: None }
    }

    /// A press: the previous range is dropped and the gesture anchors at the
    /// text position under the pointer (`hit`), if there is one. Returns
    /// whether a gesture started.
    pub fn begin(&mut self, hit: Option<TextPosition>) -> (started: bool)
        ensures
            final(self).anchor == hit,
            final(self).range is None,
            started == hit is Some,
    {
        self.range = None;
        self.anchor = hit;
        hit.is_some()
    }

    /// A move: with a gesture in progress and a text position under the
    /// pointer, the range runs from the anchor to that position. Returns
    /// whether the range changed; without a gesture or a position nothing
    /// changes.
    pub fn extend(&mut self, hit: Option<TextPosition>) -> (changed: bool)
        ensures
            changed == extension_changes(*old(self), hit),
            *final(self) == extended(*old(self), hit),
    {
        let anchor = match self.anchor {
            Some(anchor) => anchor,
            None => return false,
        };
        let focus = match hit {
            Some(focus) => focus,
            None => return false,
        };
        let next = TextRange {
            anchor_node: anchor.node,
            anchor_offset: anchor.offset,
            focus_node: focus.node,
            focus_offset: focus.offset,
        };
        let same = match self.range {
            Some(current) => current == next,
            None => false,
        };
        if same {
            return false;
        }
        self.range = Some(next);
        true
    }

    /// The release, after the gesture's last extension: the anchor is
    /// dropped, and the range stays only when it resolves to a selection
    /// (`resolved`); a collapsed gesture clears it so that the release acts
    /// as an ordinary click. Returns whether a selection remains.
    pub fn finish(&mut self, resolved: bool) -> (selected: bool)
        ensures
            *final(self) == finished(*old(self), resolved),
            selected == resolved,
    {
        self.anchor = None;
        if resolved {
            true
        } else {
            self.range = None;
            false
        }
    }

    /// Replace the selection without a gesture (find, text directives): any
    /// gesture in progress ends.
    pub fn select_text_range(&mut self, range: Option<TextRange>)
        ensures
            final(self).anchor is None,
            final(self).range == range,
    {
        self.anchor = None;
        self.range = range;
    }

    /// The range to resolve into a selection, when both of its ends are
    /// still in the document (`anchor_live`, `focus_live`).
    pub fn live_range(&self, anchor_live: bool, focus_live: bool) -> (range: Option<TextRange>)
        ensures
            range == (if anchor_live && focus_live {
                self.range
            } else {
                None
            }),
    {
        if anchor_live && focus_live {
            self.range
        } else {
            None
        }
    }
}

/// Once a gesture has ended, by a release or by a selection set without a
/// gesture, moving the pointer changes nothing until the next press.
pub proof fn law_moves_after_the_gesture_change_nothing(gesture: SelectionGesture, resolved: bool, hit: Option<TextPosition>)
    ensures
        !extension_changes(finished(gesture, resolved), hit),
        extended(finished(gesture, resolved), hit) == finished(gesture, resolved),
{
}

/// A second move to the same position changes nothing.
pub proof fn law_extension_is_idempotent(gesture: SelectionGesture, hit: Option<TextPosition>)
    ensures
        !extension_changes(extended(gesture, hit), hit),
        extended(extended(gesture, hit), hit) == extended(gesture, hit),
{
}

/// A press followed by a move selects from where the press landed to where
/// the move landed.
pub proof fn law_press_then_move_selects_between(press: TextPosition, hit: TextPosition)
    ensures
        extended(SelectionGesture { anchor: Some(press), range: None }, Some(hit)).range == Some(
            range_between(press, hit),
        ),
{
}

/// A move during a gesture, with a text position under the pointer, leaves
/// the anchor where the press put it and focuses the range on that
/// position: the range's anchor fields are the anchor's node and offset,
/// its focus fields the position's node and offset.
pub proof fn law_move_focuses_on_the_hit(gesture: SelectionGesture, hit: TextPosition)
    requires
        gesture.anchor is Some,
    ensures
        extended(gesture, Some(hit)).anchor == gesture.anchor,
        extended(gesture, Some(hit)).range matches Some(range) && range.anchor_node == gesture.anchor->0.node
            && range.anchor_offset == gesture.anchor->0.offset && range.focus_node == hit.node
            && range.focus_offset == hit.offset,
{
}

/// A move changes the range exactly when a gesture is in progress, a text
/// position is under the pointer, and the range is not already the one from
/// the anchor to that position; otherwise the gesture is left as it was.
pub proof fn law_move_changes_only_a_different_range(gesture: SelectionGesture, hit: Option<TextPosition>)
    ensures
        extension_changes(gesture, hit) <==> (gesture.anchor is Some && hit is Some && gesture.range != Some(
            TextRange {
                anchor_node: gesture.anchor->0.node,
                anchor_offset: gesture.anchor->0.offset,
                focus_node: hit->0.node,
                focus_offset: hit->0.offset,
            },
        )),
        !extension_changes(gesture, hit) ==> extended(gesture, hit) == gesture,
        gesture.anchor is None || hit is None ==> extended(gesture, hit) == gesture,
{
}

/// The release always ends the gesture; the range survives it exactly when
/// it resolved to a selection.
pub proof fn law_release_keeps_only_resolved_ranges(gesture: SelectionGesture, resolved: bool)
    ensures
        finished(gesture, resolved).anchor is None,
        resolved ==> finished(gesture, resolved).range == gesture.range,
        !resolved ==> finished(gesture, resolved).range is None,
{
}

} // verus!
