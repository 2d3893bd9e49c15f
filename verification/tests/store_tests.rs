use gantt_core::engine::Engine;
use gantt_core::store::TaskStore;
use gantt_core::task::{initial_tasks, StoreError, Task, MINUTES_PER_DAY};

fn day(d: i64) -> i64 {
    d * MINUTES_PER_DAY
}

#[test]
fn add_assigns_increasing_unique_ids() {
    let mut store = TaskStore::new();
    let a = store
        .add("alpha".to_string(), day(0), day(2), "#111111".to_string())
        .unwrap();
    let b = store
        .add("beta".to_string(), day(1), day(3), "#222222".to_string())
        .unwrap();
    let c = store
        .add("gamma".to_string(), day(2), day(2), "#333333".to_string())
        .unwrap();
    assert_eq!(a.id, 1);
    assert_eq!(b.id, 2);
    assert_eq!(c.id, 3);
    let ids: Vec<u64> = store.snapshot().iter().map(|t| t.id).collect();
    assert_eq!(ids, vec![1, 2, 3]);
}

#[test]
fn add_after_remove_exceeds_remaining_ids() {
    let mut store = TaskStore::new();
    store
        .add("alpha".to_string(), day(0), day(1), "#111111".to_string())
        .unwrap();
    store
        .add("beta".to_string(), day(0), day(1), "#222222".to_string())
        .unwrap();
    store.remove(1).unwrap();
    let c = store
        .add("gamma".to_string(), day(0), day(1), "#333333".to_string())
        .unwrap();
    assert_eq!(c.id, 3);
}

#[test]
fn add_with_inverted_range_fails_and_leaves_store_unchanged() {
    let mut store = TaskStore::new();
    store
        .add("alpha".to_string(), day(0), day(1), "#111111".to_string())
        .unwrap();
    let r = store.add("bad".to_string(), day(5), day(4), "#222222".to_string());
    assert_eq!(r.unwrap_err(), StoreError::ValidationError);
    assert_eq!(store.snapshot().len(), 1);
}

#[test]
fn add_accepts_equal_start_and_end() {
    let mut store = TaskStore::new();
    let t = store
        .add("point".to_string(), day(4), day(4), "#111111".to_string())
        .unwrap();
    assert_eq!(t.start, day(4));
    assert_eq!(t.end, day(4));
}

#[test]
fn reschedule_with_inverted_range_fails_atomically() {
    let mut store = TaskStore::new();
    store
        .add("alpha".to_string(), day(0), day(5), "#111111".to_string())
        .unwrap();
    let r = store.reschedule(1, day(9), day(3));
    assert_eq!(r.unwrap_err(), StoreError::ValidationError);
    let snap = store.snapshot();
    assert_eq!(snap[0].start, day(0));
    assert_eq!(snap[0].end, day(5));
}

#[test]
fn reschedule_updates_both_dates_and_nothing_else() {
    // A task spanning the 1st through the 6th of the chart's first month,
    // rescheduled to the 3rd through the 8th.
    let mut store = TaskStore::new();
    store
        .add("alpha".to_string(), day(0), day(5), "#4CAF50".to_string())
        .unwrap();
    store.reschedule(1, day(2), day(7)).unwrap();
    let snap = store.snapshot();
    assert_eq!(snap.len(), 1);
    assert_eq!(snap[0].id, 1);
    assert_eq!(snap[0].name, "alpha");
    assert_eq!(snap[0].color, "#4CAF50");
    assert_eq!(snap[0].start, day(2));
    assert_eq!(snap[0].end, day(7));
}

#[test]
fn remove_unknown_id_reports_not_found_and_keeps_tasks() {
    let mut store = TaskStore::new();
    store
        .add("alpha".to_string(), day(0), day(1), "#111111".to_string())
        .unwrap();
    let r = store.remove(99);
    assert_eq!(r.unwrap_err(), StoreError::NotFoundError);
    assert_eq!(store.snapshot().len(), 1);
}

#[test]
fn remove_keeps_order_of_remaining_tasks() {
    let mut store = TaskStore::new();
    store
        .add("alpha".to_string(), day(0), day(1), "#111111".to_string())
        .unwrap();
    store
        .add("beta".to_string(), day(1), day(2), "#222222".to_string())
        .unwrap();
    store
        .add("gamma".to_string(), day(2), day(3), "#333333".to_string())
        .unwrap();
    store.remove(2).unwrap();
    let names: Vec<String> = store.snapshot().iter().map(|t| t.name.clone()).collect();
    assert_eq!(names, vec!["alpha".to_string(), "gamma".to_string()]);
}

#[test]
fn rename_changes_only_the_named_task() {
    let mut store = TaskStore::new();
    store
        .add("alpha".to_string(), day(0), day(1), "#111111".to_string())
        .unwrap();
    store
        .add("beta".to_string(), day(1), day(2), "#222222".to_string())
        .unwrap();
    store.rename(2, "renamed".to_string()).unwrap();
    let snap = store.snapshot();
    assert_eq!(snap[0].name, "alpha");
    assert_eq!(snap[1].name, "renamed");
    assert_eq!(snap[1].start, day(1));
}

#[test]
fn rename_unknown_id_reports_not_found() {
    let mut store = TaskStore::new();
    let r = store.rename(7, "ghost".to_string());
    assert_eq!(r.unwrap_err(), StoreError::NotFoundError);
}

#[test]
fn snapshot_is_unaffected_by_later_mutations() {
    let mut store = TaskStore::new();
    store
        .add("alpha".to_string(), day(0), day(1), "#111111".to_string())
        .unwrap();
    let before = store.snapshot();
    store.rename(1, "changed".to_string()).unwrap();
    store.reschedule(1, day(3), day(4)).unwrap();
    assert_eq!(before[0].name, "alpha");
    assert_eq!(before[0].start, day(0));
}

#[test]
fn from_tasks_rejects_duplicate_ids() {
    let tasks = vec![
        Task::new(1, "a".to_string(), day(0), day(1), "#111111".to_string()),
        Task::new(1, "b".to_string(), day(0), day(1), "#222222".to_string()),
    ];
    let r = TaskStore::from_tasks(tasks);
    assert!(matches!(r, Err(StoreError::ValidationError)));
}

#[test]
fn from_tasks_rejects_inverted_range() {
    let tasks = vec![Task::new(
        1,
        "a".to_string(),
        day(2),
        day(1),
        "#111111".to_string(),
    )];
    let r = TaskStore::from_tasks(tasks);
    assert!(matches!(r, Err(StoreError::ValidationError)));
}

#[test]
fn initial_tasks_match_the_demo_chart() {
    let seed = initial_tasks();
    assert_eq!(seed.len(), 3);
    assert_eq!(seed[0].id, 1);
    assert_eq!(seed[0].name, "Task 1");
    assert_eq!(seed[0].start, 0);
    assert_eq!(seed[0].end, day(5));
    assert_eq!(seed[0].color, "#4CAF50");
    assert_eq!(seed[1].id, 2);
    assert_eq!(seed[1].start, day(6));
    assert_eq!(seed[1].end, day(9));
    assert_eq!(seed[2].id, 3);
    assert_eq!(seed[2].start, day(10));
    assert_eq!(seed[2].end, day(14));
    assert!(!seed[0].is_dragging);
    assert_eq!(seed[0].drag_offset_days, 0);
}

#[test]
fn engine_remove_on_singleton_store_with_wrong_id() {
    let mut engine = Engine::new(100);
    engine
        .add_task("only".to_string(), day(0), day(1), "#111111".to_string())
        .unwrap();
    let r = engine.delete_task(99);
    assert_eq!(r.unwrap_err(), StoreError::NotFoundError);
    assert_eq!(engine.snapshot().len(), 1);
}

#[test]
fn add_fails_once_the_id_space_is_exhausted() {
    let seed = vec![Task::new(
        u64::MAX,
        "last".to_string(),
        day(0),
        day(1),
        "#111111".to_string(),
    )];
    let mut store = TaskStore::from_tasks(seed).unwrap();
    let r = store.add("next".to_string(), day(0), day(1), "#222222".to_string());
    assert_eq!(r.unwrap_err(), StoreError::ValidationError);
    assert_eq!(store.snapshot().len(), 1);
}
