use gantt_core::codec::{decode_tasks, encode_tasks};
use gantt_core::engine::Engine;
use gantt_core::task::{initial_tasks, Task, MINUTES_PER_DAY};

fn day(d: i64) -> i64 {
    d * MINUTES_PER_DAY
}

#[test]
fn saved_snapshot_reloads_as_an_equal_sequence() {
    let mut engine = Engine::new(100);
    engine
        .add_task("first".to_string(), day(0), day(5), "#4CAF50".to_string())
        .unwrap();
    engine
        .add_task("second".to_string(), day(6), day(9), "#FF9800".to_string())
        .unwrap();
    let blob = engine.take_pending_save().unwrap();

    let reloaded = Engine::load_from(&blob, 100);
    let before = engine.snapshot();
    let after = reloaded.snapshot();
    assert_eq!(before.len(), after.len());
    for (b, a) in before.iter().zip(after.iter()) {
        assert_eq!(b.id, a.id);
        assert_eq!(b.name, a.name);
        assert_eq!(b.start, a.start);
        assert_eq!(b.end, a.end);
        assert_eq!(b.color, a.color);
        assert!(!a.is_dragging);
        assert_eq!(a.drag_offset_days, 0);
    }
}

#[test]
fn round_trip_keeps_awkward_text_and_extreme_dates() {
    let tasks = vec![
        Task::new(
            1,
            "newline\nand \"quotes\" and a comma, too".to_string(),
            i64::MIN,
            i64::MAX,
            "#000;DROP".to_string(),
        ),
        Task::new(7, "ünïcodé 日本語 🎉".to_string(), -day(40), -day(2), String::new()),
        Task::new(3, String::new(), 0, 0, "#FFFFFF".to_string()),
    ];
    let blob = encode_tasks(&tasks);
    let back = decode_tasks(&blob).unwrap();
    assert_eq!(back.len(), 3);
    for (b, a) in tasks.iter().zip(back.iter()) {
        assert_eq!(b.id, a.id);
        assert_eq!(b.name, a.name);
        assert_eq!(b.start, a.start);
        assert_eq!(b.end, a.end);
        assert_eq!(b.color, a.color);
    }
}

#[test]
fn round_trip_drops_transient_drag_state() {
    let mut engine = Engine::new(10);
    engine
        .add_task("alpha".to_string(), day(0), day(5), "#111111".to_string())
        .unwrap();
    engine.drag_start(1, 100);
    engine.drag_move(150);
    // The pending write was queued by the add; the preview did not touch it.
    let blob = engine.take_pending_save().unwrap();
    let reloaded = Engine::load_from(&blob, 10);
    let snap = reloaded.snapshot();
    assert!(!snap[0].is_dragging);
    assert_eq!(snap[0].drag_offset_days, 0);
    assert_eq!(snap[0].start, day(0));
}

#[test]
fn truncated_blob_fails_to_decode() {
    let mut blob = encode_tasks(&initial_tasks());
    blob.pop();
    assert!(decode_tasks(&blob).is_none());
}

#[test]
fn blob_with_trailing_garbage_fails_to_decode() {
    let mut blob = encode_tasks(&initial_tasks());
    blob.push('x');
    assert!(decode_tasks(&blob).is_none());
}

#[test]
fn empty_task_list_round_trips() {
    let blob = encode_tasks(&Vec::new());
    let back = decode_tasks(&blob).unwrap();
    assert!(back.is_empty());
}

#[test]
fn load_from_garbage_starts_empty() {
    let engine = Engine::load_from("not a chart blob at all", 100);
    assert_eq!(engine.snapshot().len(), 0);
}

#[test]
fn load_from_empty_text_starts_empty() {
    let engine = Engine::load_from("", 100);
    assert_eq!(engine.snapshot().len(), 0);
}

#[test]
fn load_rejects_blob_with_duplicate_ids() {
    let tasks = vec![
        Task::new(5, "a".to_string(), day(0), day(1), "#111111".to_string()),
        Task::new(5, "b".to_string(), day(0), day(1), "#222222".to_string()),
    ];
    let blob: String = encode_tasks(&tasks).into_iter().collect();
    let engine = Engine::load_from(&blob, 100);
    assert_eq!(engine.snapshot().len(), 0);
}

#[test]
fn a_newer_write_supersedes_an_older_one() {
    let mut engine = Engine::new(100);
    engine
        .add_task("first".to_string(), day(0), day(1), "#111111".to_string())
        .unwrap();
    engine
        .add_task("second".to_string(), day(2), day(3), "#222222".to_string())
        .unwrap();
    // Only the latest snapshot is waiting: it holds both tasks.
    let blob = engine.take_pending_save().unwrap();
    assert!(engine.take_pending_save().is_none());
    let reloaded = Engine::load_from(&blob, 100);
    assert_eq!(reloaded.snapshot().len(), 2);
}
