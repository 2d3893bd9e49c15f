//! Placement arithmetic for the chart surface: the zoom/scroll viewport,
//! the pixel geometry of task bars on the date grid, and the clamping of
//! the floating edit window into the visible area.

use vstd::prelude::*;

use crate::task::{Task, TaskView, MINUTES_PER_DAY};

verus! {

/// Smallest zoom level (pixels per day).
pub const ZOOM_MIN: i32 = 20;

/// Largest zoom level (pixels per day).
pub const ZOOM_MAX: i32 = 100;

/// Zoom change applied per wheel step.
pub const ZOOM_STEP: i32 = 5;

/// The whole-day index of a minute timestamp, truncated toward zero (the
/// day is counted only once all of its minutes have passed, in either
/// direction from the epoch).
pub open spec fn day_index(minutes: int) -> int {
    if minutes >= 0 {
        minutes / (MINUTES_PER_DAY as int)
    } else {
        -((-minutes) / (MINUTES_PER_DAY as int))
    }
}

/// Left pixel edge of a task bar: its start day scaled by the zoom factor,
/// shifted by the transient drag preview while the task is being dragged.
pub open spec fn bar_left(t: TaskView, pixels_per_day: int) -> int {
    day_index(t.start as int) * pixels_per_day + if t.is_dragging {
        t.drag_offset_days * pixels_per_day
    } else {
        0
    }
}

/// Pixel width of a task bar: the whole days of its duration scaled by the
/// zoom factor.
pub open spec fn bar_width(t: TaskView, pixels_per_day: int) -> int {
    day_index(t.end - t.start) * pixels_per_day
}

/// Pixel placement of one task bar.
#[derive(Clone, Copy, Debug, PartialEq, Eq, Structural)]
pub struct BarGeometry {
    pub left_px: i64,
    pub width_px: i64,
}

/// Scaling day counts bounded by the 64-bit range with a 32-bit zoom
/// factor stays far inside the 128-bit range.
proof fn lemma_bar_bounds(day: int, offset: int, dd: int, ppd: int)
    requires
        -0x8000_0000_0000_0000 <= day <= 0x7FFF_FFFF_FFFF_FFFF,
        -0x8000_0000_0000_0000 <= offset <= 0x7FFF_FFFF_FFFF_FFFF,
        0 <= dd <= 0x1_0000_0000_0000_0000,
        0 <= ppd <= 0xFFFF_FFFF,
    ensures
        -0x1_0000_0000_0000_0000_0000_0000 <= day * ppd <= 0x1_0000_0000_0000_0000_0000_0000,
        -0x1_0000_0000_0000_0000_0000_0000 <= offset * ppd
            <= 0x1_0000_0000_0000_0000_0000_0000,
        0 <= dd * ppd <= 0x1_0000_0000_0000_0000_0000_0000_0000,
{
    assert(-0x1_0000_0000_0000_0000_0000_0000 <= day * ppd
        <= 0x1_0000_0000_0000_0000_0000_0000) by (nonlinear_arith)
        requires
            -0x8000_0000_0000_0000 <= day <= 0x7FFF_FFFF_FFFF_FFFF,
            0 <= ppd <= 0xFFFF_FFFF,
    ;
    assert(-0x1_0000_0000_0000_0000_0000_0000 <= offset * ppd
        <= 0x1_0000_0000_0000_0000_0000_0000) by (nonlinear_arith)
        requires
            -0x8000_0000_0000_0000 <= offset <= 0x7FFF_FFFF_FFFF_FFFF,
            0 <= ppd <= 0xFFFF_FFFF,
    ;
    assert(0 <= dd * ppd <= 0x1_0000_0000_0000_0000_0000_0000_0000) by (nonlinear_arith)
        requires
            0 <= dd <= 0x1_0000_0000_0000_0000,
            0 <= ppd <= 0xFFFF_FFFF,
    ;
}

/// The whole-day index of `minutes`, truncated toward zero.
fn day_of_minutes(minutes: i64) -> (r: i64)
    ensures
        r == day_index(minutes as int),
{
    if minutes >= 0 {
        ((minutes as u64) / (MINUTES_PER_DAY as u64)) as i64
    } else {
        let mag: u64 = (-(minutes as i128)) as u64;
        -((mag / (MINUTES_PER_DAY as u64)) as i64)
    }
}

/// Compute the pixel placement of a task bar, or nothing when the result
/// would not fit the pixel coordinate range.
pub fn bar_geometry(t: &Task, pixels_per_day: u32) -> (r: Option<BarGeometry>)
    requires
        t@.start <= t@.end,
    ensures
        match r {
            Some(g) => {
                &&& g.left_px == bar_left(t@, pixels_per_day as int)
                &&& g.width_px == bar_width(t@, pixels_per_day as int)
            },
            None => !{
                &&& i64::MIN <= bar_left(t@, pixels_per_day as int) <= i64::MAX
                &&& i64::MIN <= bar_width(t@, pixels_per_day as int) <= i64::MAX
            },
        },
{
    let ppd = pixels_per_day as i128;
    let start_day = day_of_minutes(t.start) as i128;
    let drag: i128 = if t.is_dragging {
        t.drag_offset_days as i128
    } else {
        0
    };
    let duration: i128 = t.end as i128 - t.start as i128;
    proof {
        lemma_bar_bounds(start_day as int, drag as int, 0, ppd as int);
    }
    let left = start_day * ppd + drag * ppd;
    let duration_days = ((duration as u128) / (MINUTES_PER_DAY as u128)) as i128;
    proof {
        vstd::arithmetic::div_mod::lemma_div_nonincreasing(duration as int,
            MINUTES_PER_DAY as int);
        lemma_bar_bounds(0, 0, duration_days as int, ppd as int);
    }
    let width = duration_days * ppd;
    proof {
        assert(duration >= 0);
        assert(duration_days == day_index(t@.end - t@.start));
        assert(left == bar_left(t@, pixels_per_day as int));
        assert(width == bar_width(t@, pixels_per_day as int));
    }
    if left < i64::MIN as i128 || left > i64::MAX as i128 || width < i64::MIN as i128 || width
        > i64::MAX as i128 {
        None
    } else {
        Some(BarGeometry { left_px: left as i64, width_px: width as i64 })
    }
}

/// One axis of the floating-window clamp: pull the window edge back inside
/// the viewport limit, then keep the position nonnegative.
pub open spec fn clamp_axis(p: int, size: int, limit: int) -> int {
    let pulled = if p + size > limit {
        limit - size
    } else {
        p
    };
    if pulled < 0 {
        0
    } else {
        pulled
    }
}

/// Clamp the floating edit window so that it stays inside the viewport:
/// first against the right and bottom edges, then against the left and top.
pub fn clamp_window_position(x: i32, y: i32, win_w: i32, win_h: i32, view_w: i32, view_h: i32)
    -> (r: (i32, i32))
    ensures
        r.0 == clamp_axis(x as int, win_w as int, view_w as int),
        r.1 == clamp_axis(y as int, win_h as int, view_h as int),
{
    let cx = clamp_axis_exec(x, win_w, view_w);
    let cy = clamp_axis_exec(y, win_h, view_h);
    (cx, cy)
}

fn clamp_axis_exec(p: i32, size: i32, limit: i32) -> (r: i32)
    ensures
        r == clamp_axis(p as int, size as int, limit as int),
{
    let pulled: i64 = if p as i64 + size as i64 > limit as i64 {
        limit as i64 - size as i64
    } else {
        p as i64
    };
    if pulled < 0 {
        0
    } else {
        pulled as i32
    }
}

/// The zoom and horizontal scroll state of the chart surface.
///
/// The zoom level is the pixels-per-day scale factor, held between
/// [`ZOOM_MIN`] and [`ZOOM_MAX`]; the scroll offset never goes below zero.
pub struct Viewport {
    zoom: i32,
    scroll: i32,
}

impl Viewport {
    pub closed spec fn zoom(&self) -> int {
        self.zoom as int
    }

    pub closed spec fn scroll(&self) -> int {
        self.scroll as int
    }

    pub open spec fn wf(&self) -> bool {
        ZOOM_MIN <= self.zoom() <= ZOOM_MAX && self.scroll() >= 0
    }

    /// The default view: a 50 pixels-per-day zoom, no scroll.
    pub fn new() -> (r: Viewport)
        ensures
            r.wf(),
            r.zoom() == 50,
            r.scroll() == 0,
    {
        Viewport { zoom: 50, scroll: 0 }
    }

    /// Current zoom level, read as the pixels-per-day scale factor.
    pub fn pixels_per_day(&self) -> (r: u32)
        requires
            self.wf(),
        ensures
            r == self.zoom(),
            r >= 1,
    {
        self.zoom as u32
    }

    /// Current horizontal scroll offset in pixels.
    pub fn scroll_offset(&self) -> (r: i32)
        ensures
            r == self.scroll(),
    {
        self.scroll
    }

    /// Apply one wheel event. With the control key held the wheel zooms:
    /// scrolling up (negative vertical delta) zooms out by one step down to
    /// [`ZOOM_MIN`], scrolling down zooms in by one step up to [`ZOOM_MAX`].
    /// Without the control key the horizontal delta scrolls the surface,
    /// clamped so the offset stays nonnegative (and within the `i32`
    /// range).
    pub fn wheel(&mut self, ctrl: bool, delta_y: i32, delta_x: i32)
        requires
            old(self).wf(),
        ensures
            final(self).wf(),
            ctrl ==> final(self).scroll() == old(self).scroll(),
            (ctrl && delta_y < 0) ==> final(self).zoom() == if old(self).zoom() - ZOOM_STEP
                >= ZOOM_MIN {
                old(self).zoom() - ZOOM_STEP
            } else {
                ZOOM_MIN as int
            },
            (ctrl && delta_y >= 0) ==> final(self).zoom() == if old(self).zoom() + ZOOM_STEP
                <= ZOOM_MAX {
                old(self).zoom() + ZOOM_STEP
            } else {
                ZOOM_MAX as int
            },
            !ctrl ==> final(self).zoom() == old(self).zoom(),
            !ctrl ==> final(self).scroll() == {
                let moved = old(self).scroll() + delta_x;
                if moved < 0 {
                    0
                } else if moved > i32::MAX {
                    i32::MAX as int
                } else {
                    moved
                }
            },
    {
        if ctrl {
            if delta_y < 0 {
                let lowered = self.zoom - ZOOM_STEP;
                self.zoom = if lowered >= ZOOM_MIN {
                    lowered
                } else {
                    ZOOM_MIN
                };
            } else {
                let raised = self.zoom + ZOOM_STEP;
                self.zoom = if raised <= ZOOM_MAX {
                    raised
                } else {
                    ZOOM_MAX
                };
            }
        } else {
            let moved: i64 = self.scroll as i64 + delta_x as i64;
            self.scroll = if moved < 0 {
                0
            } else if moved > i32::MAX as i64 {
                i32::MAX
            } else {
                moved as i32
            };
        }
    }
}

} // verus!
