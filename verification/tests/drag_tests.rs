use gantt_core::engine::Engine;
use gantt_core::task::{StoreError, MINUTES_PER_DAY};

fn day(d: i64) -> i64 {
    d * MINUTES_PER_DAY
}

/// An engine at 10 pixels per day holding one task on days 0 through 5,
/// with the add's persistence write already consumed.
fn engine_with_one_task() -> Engine {
    let mut engine = Engine::new(10);
    engine
        .add_task("alpha".to_string(), day(0), day(5), "#111111".to_string())
        .unwrap();
    engine.take_pending_save();
    engine
}

#[test]
fn drag_commits_exactly_the_last_move_offset() {
    let mut engine = engine_with_one_task();
    engine.drag_start(1, 100);
    engine.drag_move(150);
    engine.drag_move(120);
    engine.drag_end().unwrap();
    let snap = engine.snapshot();
    // (120 - 100) / 10 = 2 days, not the intermediate 5.
    assert_eq!(snap[0].start, day(2));
    assert_eq!(snap[0].end, day(7));
    assert!(!snap[0].is_dragging);
    assert_eq!(snap[0].drag_offset_days, 0);
    // The commit queued exactly one persistence write.
    assert!(engine.take_pending_save().is_some());
    assert!(engine.take_pending_save().is_none());
}

#[test]
fn release_without_move_commits_nothing() {
    let mut engine = engine_with_one_task();
    engine.drag_start(1, 100);
    engine.drag_end().unwrap();
    let snap = engine.snapshot();
    assert_eq!(snap[0].start, day(0));
    assert_eq!(snap[0].end, day(5));
    assert!(!snap[0].is_dragging);
    // No store write happened, so nothing was queued for persistence.
    assert!(engine.take_pending_save().is_none());
}

#[test]
fn move_back_to_anchor_discards_the_drag() {
    let mut engine = engine_with_one_task();
    engine.drag_start(1, 100);
    engine.drag_move(150);
    engine.drag_move(100);
    engine.drag_end().unwrap();
    let snap = engine.snapshot();
    assert_eq!(snap[0].start, day(0));
    assert!(engine.take_pending_save().is_none());
}

#[test]
fn drag_preview_marks_the_task_without_touching_dates() {
    let mut engine = engine_with_one_task();
    engine.drag_start(1, 100);
    engine.drag_move(130);
    let snap = engine.snapshot();
    assert!(snap[0].is_dragging);
    assert_eq!(snap[0].drag_offset_days, 3);
    assert_eq!(snap[0].start, day(0));
    assert_eq!(snap[0].end, day(5));
    // Preview changes alone queue no persistence write.
    assert!(engine.take_pending_save().is_none());
}

#[test]
fn offsets_round_to_the_nearest_day_halves_away_from_zero() {
    let mut engine = engine_with_one_task();
    engine.drag_start(1, 0);
    engine.drag_move(14);
    assert_eq!(engine.snapshot()[0].drag_offset_days, 1);
    engine.drag_move(15);
    assert_eq!(engine.snapshot()[0].drag_offset_days, 2);
    engine.drag_move(-14);
    assert_eq!(engine.snapshot()[0].drag_offset_days, -1);
    engine.drag_move(-15);
    assert_eq!(engine.snapshot()[0].drag_offset_days, -2);
    engine.drag_move(-24);
    assert_eq!(engine.snapshot()[0].drag_offset_days, -2);
    engine.drag_end().unwrap();
}

#[test]
fn negative_offset_shifts_dates_backward() {
    let mut engine = engine_with_one_task();
    engine.drag_start(1, 100);
    engine.drag_move(70);
    engine.drag_end().unwrap();
    let snap = engine.snapshot();
    assert_eq!(snap[0].start, day(-3));
    assert_eq!(snap[0].end, day(2));
}

#[test]
fn new_press_force_completes_the_drag_in_progress() {
    let mut engine = engine_with_one_task();
    engine
        .add_task("beta".to_string(), day(10), day(12), "#222222".to_string())
        .unwrap();
    engine.take_pending_save();
    engine.drag_start(1, 100);
    engine.drag_move(140);
    // Pressing on the second task first commits the 4-day shift of task 1.
    engine.drag_start(2, 300);
    let snap = engine.snapshot();
    assert_eq!(snap[0].start, day(4));
    assert_eq!(snap[0].end, day(9));
    assert!(!snap[0].is_dragging);
    assert!(snap[1].is_dragging);
    assert_eq!(snap[1].start, day(10));
    engine.drag_end().unwrap();
}

#[test]
fn drag_commit_on_deleted_task_is_a_recovered_no_op() {
    let mut engine = engine_with_one_task();
    engine.drag_start(1, 100);
    engine.drag_move(150);
    engine.delete_task(1).unwrap();
    engine.take_pending_save();
    let r = engine.drag_end();
    assert_eq!(r.unwrap_err(), StoreError::NotFoundError);
    assert_eq!(engine.snapshot().len(), 0);
    assert!(engine.take_pending_save().is_none());
}

#[test]
fn moves_while_idle_are_ignored() {
    let mut engine = engine_with_one_task();
    engine.drag_move(500);
    engine.drag_end().unwrap();
    let snap = engine.snapshot();
    assert_eq!(snap[0].start, day(0));
    assert!(!snap[0].is_dragging);
}

#[test]
fn drag_that_would_overflow_the_timestamp_range_is_rejected() {
    let mut engine = Engine::new(10);
    engine
        .add_task("late".to_string(), i64::MAX - 10, i64::MAX - 5, "#111111".to_string())
        .unwrap();
    engine.take_pending_save();
    engine.drag_start(1, 0);
    engine.drag_move(100);
    let r = engine.drag_end();
    assert_eq!(r.unwrap_err(), StoreError::ValidationError);
    let snap = engine.snapshot();
    assert_eq!(snap[0].start, i64::MAX - 10);
    assert_eq!(snap[0].end, i64::MAX - 5);
    assert!(!snap[0].is_dragging);
    assert!(engine.take_pending_save().is_none());
}
