use markdown::selection::Selection;

fn pressed_at(offset: usize) -> Selection {
    Selection { start: offset, end: offset, reversed: false, pending: true }
}

#[test]
fn selection_flip_forward_after_backward() {
    // Start at 10, drag the head to 5, then back to 15.
    let mut sel = pressed_at(10);
    sel.set_head(5);
    assert_eq!(sel.start, 5);
    assert_eq!(sel.end, 10);
    assert!(sel.reversed);
    sel.set_head(15);
    assert_eq!(sel.start, 10);
    assert_eq!(sel.end, 15);
    assert!(!sel.reversed);
    assert!(sel.pending);
}

#[test]
fn selection_backward_drag_reverses() {
    // Dragging from 10 to 5 alone yields a reversed selection.
    let mut sel = pressed_at(10);
    sel.set_head(5);
    assert_eq!(sel.start, 5);
    assert_eq!(sel.end, 10);
    assert!(sel.reversed);
}

#[test]
fn selection_tail_is_the_anchor() {
    let mut sel = pressed_at(10);
    assert_eq!(sel.tail(), 10);
    sel.set_head(3);
    assert_eq!(sel.tail(), 10);
    sel.set_head(20);
    assert_eq!(sel.tail(), 10);
    sel.set_head(10);
    assert_eq!(sel.tail(), 10);
    assert_eq!(sel.start, 10);
    assert_eq!(sel.end, 10);
}

#[test]
fn selection_default_is_empty() {
    let sel = Selection::default();
    assert_eq!(sel.start, 0);
    assert_eq!(sel.end, 0);
    assert!(!sel.reversed);
    assert!(!sel.pending);
}

#[test]
fn selection_head_onto_anchor_is_not_reversed() {
    let mut sel = pressed_at(7);
    sel.set_head(2);
    sel.set_head(7);
    assert_eq!(sel.start, 7);
    assert_eq!(sel.end, 7);
    assert!(!sel.reversed);
}
