use gantt_core::engine::{Engine, UiIntent};
use gantt_core::task::{StoreError, MINUTES_PER_DAY};

fn day(d: i64) -> i64 {
    d * MINUTES_PER_DAY
}

#[test]
fn dispatch_routes_the_whole_intent_set() {
    let mut engine = Engine::new(10);
    engine
        .dispatch(UiIntent::AddTask {
            name: "alpha".to_string(),
            start: day(0),
            end: day(5),
            color: "#111111".to_string(),
        })
        .unwrap();
    engine
        .dispatch(UiIntent::RenameTask { id: 1, name: "renamed".to_string() })
        .unwrap();
    engine.dispatch(UiIntent::DragStart { id: 1, x: 100 }).unwrap();
    engine.dispatch(UiIntent::DragMove { x: 130 }).unwrap();
    engine.dispatch(UiIntent::DragEnd).unwrap();
    let snap = engine.snapshot();
    assert_eq!(snap[0].name, "renamed");
    assert_eq!(snap[0].start, day(3));
    assert_eq!(snap[0].end, day(8));
    engine.dispatch(UiIntent::DeleteTask { id: 1 }).unwrap();
    assert!(engine.snapshot().is_empty());
}

#[test]
fn dispatch_reports_command_errors() {
    let mut engine = Engine::new(10);
    let r = engine.dispatch(UiIntent::RenameTask { id: 4, name: "x".to_string() });
    assert_eq!(r.unwrap_err(), StoreError::NotFoundError);
    let r = engine.dispatch(UiIntent::AddTask {
        name: "bad".to_string(),
        start: day(2),
        end: day(1),
        color: "#111111".to_string(),
    });
    assert_eq!(r.unwrap_err(), StoreError::ValidationError);
}

#[test]
fn submitted_form_dates_become_minute_timestamps() {
    let mut engine = Engine::new(100);
    let t = engine
        .submit_task_form(
            "planned".to_string(),
            "2025-03-03T00:00",
            "2025-03-08T00:00",
        )
        .unwrap();
    assert_eq!(t.id, 1);
    assert_eq!(t.start, day(2));
    assert_eq!(t.end, day(7));
    assert_eq!(t.color, "#009688");
    let snap = engine.snapshot();
    assert_eq!(snap[0].start, day(2));
    assert_eq!(snap[0].end, day(7));
}

#[test]
fn submitted_form_keeps_the_time_of_day() {
    let mut engine = Engine::new(100);
    let t = engine
        .submit_task_form(
            "meeting".to_string(),
            "2025-03-01T12:30",
            "2025-03-01T14:45",
        )
        .unwrap();
    assert_eq!(t.start, 12 * 60 + 30);
    assert_eq!(t.end, 14 * 60 + 45);
}

#[test]
fn form_dates_before_the_epoch_are_negative() {
    let mut engine = Engine::new(100);
    let t = engine
        .submit_task_form(
            "early".to_string(),
            "2025-02-27T00:00",
            "2025-02-28T00:00",
        )
        .unwrap();
    assert_eq!(t.start, day(-2));
    assert_eq!(t.end, day(-1));
}

#[test]
fn unparseable_form_dates_are_rejected() {
    let mut engine = Engine::new(100);
    let r = engine.submit_task_form("bad".to_string(), "soon", "2025-03-08T00:00");
    assert_eq!(r.unwrap_err(), StoreError::ValidationError);
    let r = engine.submit_task_form("bad".to_string(), "2025-03-08T00:00", "later");
    assert_eq!(r.unwrap_err(), StoreError::ValidationError);
    assert!(engine.snapshot().is_empty());
}

#[test]
fn inverted_form_dates_are_rejected() {
    let mut engine = Engine::new(100);
    let r = engine.submit_task_form(
        "bad".to_string(),
        "2025-03-08T00:00",
        "2025-03-03T00:00",
    );
    assert_eq!(r.unwrap_err(), StoreError::ValidationError);
    assert!(engine.snapshot().is_empty());
}
