use genet_livery::selection::{SelectionGesture, TextPosition, TextRange};

fn at(node: usize, offset: usize) -> Option<TextPosition> {
    Some(TextPosition { node, offset })
}

fn range(anchor: (usize, usize), focus: (usize, usize)) -> TextRange {
    TextRange {
        anchor_node: anchor.0,
        anchor_offset: anchor.1,
        focus_node: focus.0,
        focus_offset: focus.1,
    }
}

#[test]
fn a_drag_selects_from_the_press_to_the_pointer() {
    let mut gesture = SelectionGesture::new();
    assert!(gesture.begin(at(3, 2)));
    assert!(gesture.range.is_none());
    assert!(gesture.extend(at(5, 7)));
    assert_eq!(gesture.range, Some(range((3, 2), (5, 7))));
    // The same position again is no change; leaving the text is none either.
    assert!(!gesture.extend(at(5, 7)));
    assert!(!gesture.extend(None));
    assert_eq!(gesture.range, Some(range((3, 2), (5, 7))));
    assert!(gesture.finish(true));
    assert!(gesture.anchor.is_none());
    assert_eq!(gesture.range, Some(range((3, 2), (5, 7))));
    // After the release, moves change nothing.
    assert!(!gesture.extend(at(6, 0)));
    assert_eq!(gesture.range, Some(range((3, 2), (5, 7))));
}

#[test]
fn a_collapsed_gesture_clears_the_selection() {
    let mut gesture = SelectionGesture::new();
    assert!(gesture.begin(at(3, 2)));
    assert!(gesture.extend(at(3, 2)));
    assert!(!gesture.finish(false));
    assert!(gesture.range.is_none());
    assert!(!gesture.begin(None));
    assert!(!gesture.extend(at(3, 4)));
}

#[test]
fn a_selection_set_directly_ends_the_gesture() {
    let mut gesture = SelectionGesture::new();
    gesture.begin(at(1, 0));
    gesture.select_text_range(Some(range((8, 1), (9, 4))));
    assert!(gesture.anchor.is_none());
    assert!(!gesture.extend(at(9, 9)));
    assert_eq!(gesture.live_range(true, true), Some(range((8, 1), (9, 4))));
    assert_eq!(gesture.live_range(true, false), None);
    gesture.select_text_range(None);
    assert_eq!(gesture.live_range(true, true), None);
}
