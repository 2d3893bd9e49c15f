use gantt_core::layout::{bar_geometry, clamp_window_position, Viewport};
use gantt_core::task::{Task, MINUTES_PER_DAY};

fn day(d: i64) -> i64 {
    d * MINUTES_PER_DAY
}

#[test]
fn bar_geometry_scales_days_by_the_zoom_factor() {
    let t = Task::new(1, "a".to_string(), day(2), day(7), "#111111".to_string());
    let g = bar_geometry(&t, 100).unwrap();
    assert_eq!(g.left_px, 200);
    assert_eq!(g.width_px, 500);
}

#[test]
fn bar_geometry_adds_the_drag_preview_offset() {
    let mut t = Task::new(1, "a".to_string(), day(2), day(7), "#111111".to_string());
    t.is_dragging = true;
    t.drag_offset_days = 3;
    let g = bar_geometry(&t, 100).unwrap();
    assert_eq!(g.left_px, 500);
    assert_eq!(g.width_px, 500);
    t.is_dragging = false;
    let g = bar_geometry(&t, 100).unwrap();
    assert_eq!(g.left_px, 200);
}

#[test]
fn bar_geometry_truncates_partial_days_toward_zero() {
    let t = Task::new(1, "a".to_string(), -2879, 1439, "#111111".to_string());
    let g = bar_geometry(&t, 10).unwrap();
    // -2879 minutes is one whole day before the epoch; the duration of
    // 4318 minutes covers two whole days.
    assert_eq!(g.left_px, -10);
    assert_eq!(g.width_px, 20);
}

#[test]
fn bar_geometry_reports_results_too_wide_for_pixels() {
    let t = Task::new(1, "a".to_string(), i64::MIN, i64::MAX, "#111111".to_string());
    assert!(bar_geometry(&t, 4_000_000_000).is_none());
}

#[test]
fn window_clamp_keeps_positions_inside_the_viewport() {
    // Fits: unchanged.
    assert_eq!(clamp_window_position(50, 60, 320, 300, 1000, 800), (50, 60));
    // Past the right and bottom edges: pulled back.
    assert_eq!(clamp_window_position(900, 700, 320, 300, 1000, 800), (680, 500));
    // Past the left and top edges: pinned to zero.
    assert_eq!(clamp_window_position(-20, -5, 320, 300, 1000, 800), (0, 0));
    // Window larger than the viewport: pinned to zero.
    assert_eq!(clamp_window_position(10, 10, 1200, 900, 1000, 800), (0, 0));
}

#[test]
fn wheel_with_control_steps_zoom_within_bounds() {
    let mut v = Viewport::new();
    assert_eq!(v.pixels_per_day(), 50);
    v.wheel(true, 1, 0);
    assert_eq!(v.pixels_per_day(), 55);
    v.wheel(true, -1, 0);
    assert_eq!(v.pixels_per_day(), 50);
    for _ in 0..20 {
        v.wheel(true, 1, 0);
    }
    assert_eq!(v.pixels_per_day(), 100);
    for _ in 0..30 {
        v.wheel(true, -1, 0);
    }
    assert_eq!(v.pixels_per_day(), 20);
}

#[test]
fn wheel_without_control_scrolls_and_never_goes_negative() {
    let mut v = Viewport::new();
    v.wheel(false, 0, 120);
    assert_eq!(v.scroll_offset(), 120);
    v.wheel(false, 0, -50);
    assert_eq!(v.scroll_offset(), 70);
    v.wheel(false, 0, -500);
    assert_eq!(v.scroll_offset(), 0);
    // Zoom is untouched by plain scrolling.
    assert_eq!(v.pixels_per_day(), 50);
}
