use chain::nav::{NavInput, NavState};
use chain::taskoperation::TaskOperation;

#[test]
fn initial_selection() {
    let s = NavState::initial(0);
    assert_eq!(s.task_index, None);
    assert_eq!(s.prev_index, None);
    assert_eq!(s.scroll_pos, 0);

    let s = NavState::initial(3);
    assert_eq!(s.task_index, Some(0));
}

#[test]
fn moves_clamp_to_listing() {
    let s = NavState::initial(2);
    // Up from the top stays put and records nothing.
    let (s, op) = s.step(NavInput::MoveUp, 2, 10);
    assert!(op.is_none());
    assert_eq!(s.task_index, Some(0));
    assert_eq!(s.prev_index, None);
    // Down moves and records the prior row.
    let (s, op) = s.step(NavInput::MoveDown, 2, 10);
    assert!(op.is_none());
    assert_eq!(s.task_index, Some(1));
    assert_eq!(s.prev_index, Some(0));
    // Down from the bottom stays put.
    let (s, _) = s.step(NavInput::MoveDown, 2, 10);
    assert_eq!(s.task_index, Some(1));
}

#[test]
fn scrolls_to_keep_selection_visible() {
    let mut s = NavState::initial(5);
    // Two visible rows: moving down to row 2 scrolls by exactly one.
    for _ in 0..2 {
        let (next, _) = s.step(NavInput::MoveDown, 5, 2);
        s = next;
    }
    assert_eq!(s.task_index, Some(2));
    assert_eq!(s.scroll_pos, 1);
    // Moving back above the window scrolls up to the selection.
    for _ in 0..2 {
        let (next, _) = s.step(NavInput::MoveUp, 5, 2);
        s = next;
    }
    assert_eq!(s.task_index, Some(0));
    assert_eq!(s.scroll_pos, 0);
}

#[test]
fn complete_yields_operation_for_selection() {
    let s = NavState::initial(3);
    let (s, _) = s.step(NavInput::MoveDown, 3, 10);
    let (s, op) = s.step(NavInput::Complete, 3, 10);
    assert_eq!(s.task_index, Some(1));
    assert!(matches!(
        op,
        Some(TaskOperation::MarkComplete { task_index: 1, remark: None })
    ));
}

#[test]
fn complete_is_noop_on_empty_listing() {
    let s = NavState::initial(0);
    let (s, op) = s.step(NavInput::Complete, 0, 10);
    assert!(op.is_none());
    assert_eq!(s.task_index, None);
    assert_eq!(s.scroll_pos, 0);
}
