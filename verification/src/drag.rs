//! The drag-interaction controller: a two-state machine that converts a
//! pointer gesture (press, zero or more moves, release) on one task bar
//! into a single whole-day shift of that task's date range.
//!
//! The controller itself never touches the task store: it only tracks the
//! gesture and reports, on release, which task should be shifted and by how
//! many days. Committing the shift is the dispatcher's job.

use vstd::prelude::*;
use vstd::arithmetic::div_mod::lemma_div_nonincreasing;

verus! {

/// The gesture state: idle, or dragging one task.
///
/// While dragging, `anchor_x` is the pointer position at press time and
/// `offset_days` the day shift previewed by the latest move (zero until a
/// move arrives).
#[derive(Clone, Copy, Debug, PartialEq, Eq, Structural)]
pub enum DragState {
    Idle,
    Dragging { task_id: u64, anchor_x: i32, offset_days: i64 },
}

/// `delta / pixels_per_day`, rounded to the nearest whole number of days
/// with halves rounded away from zero.
pub open spec fn rounded_days(delta: int, pixels_per_day: int) -> int
    recommends
        pixels_per_day >= 1,
{
    if delta >= 0 {
        (delta + pixels_per_day / 2) / pixels_per_day
    } else {
        -(((-delta) + pixels_per_day / 2) / pixels_per_day)
    }
}

/// A preview offset a gesture can actually produce: pointer coordinates
/// are 32-bit, so a rounded day offset stays far below this bound, and
/// shifting by that many whole days cannot leave the 64-bit minute range.
pub open spec fn offset_in_range(d: DragState) -> bool {
    match d {
        DragState::Idle => true,
        DragState::Dragging { task_id: _, anchor_x: _, offset_days } => -0x10_0000_0000
            <= offset_days <= 0x10_0000_0000,
    }
}

/// The gesture state machine, configured with the horizontal scale factor
/// (pixels per day) in effect for the chart.
pub struct DragController {
    state: DragState,
    pixels_per_day: u32,
}

impl DragController {
    /// The configured scale factor is positive, so day offsets are
    /// defined, and any held preview offset is one a gesture can produce.
    pub open spec fn wf(&self) -> bool {
        self.scale() >= 1 && offset_in_range(self.state())
    }

    pub closed spec fn state(&self) -> DragState {
        self.state
    }

    pub closed spec fn scale(&self) -> int {
        self.pixels_per_day as int
    }

    /// An idle controller with the given scale factor.
    pub fn new(pixels_per_day: u32) -> (r: DragController)
        requires
            pixels_per_day >= 1,
        ensures
            r.wf(),
            r.state() == DragState::Idle,
            r.scale() == pixels_per_day,
    {
        DragController { state: DragState::Idle, pixels_per_day }
    }

    /// Whether a drag is in progress.
    pub fn is_dragging(&self) -> (r: bool)
        ensures
            r == !(self.state() == DragState::Idle),
    {
        match self.state {
            DragState::Idle => false,
            DragState::Dragging { .. } => true,
        }
    }

    /// Press on the bar of task `task_id` at pointer position `x`: start a
    /// drag with a zero preview offset. The controller must be idle; the
    /// dispatcher force-completes any drag already in progress first.
    pub fn pointer_down(&mut self, task_id: u64, x: i32)
        requires
            old(self).wf(),
            old(self).state() == DragState::Idle,
        ensures
            final(self).wf(),
            final(self).scale() == old(self).scale(),
            final(self).state() == (DragState::Dragging {
                task_id,
                anchor_x: x,
                offset_days: 0,
            }),
    {
        self.state = DragState::Dragging { task_id, anchor_x: x, offset_days: 0 };
    }

    /// Pointer moved to `x`: recompute the preview offset from the anchor,
    /// keeping only this latest value (earlier previews are superseded),
    /// and report the dragged task and its new offset. Ignored while idle.
    pub fn pointer_move(&mut self, x: i32) -> (r: Option<(u64, i64)>)
        requires
            old(self).wf(),
        ensures
            final(self).wf(),
            final(self).scale() == old(self).scale(),
            match old(self).state() {
                DragState::Idle => final(self).state() == DragState::Idle && r == None::<(
                    u64,
                    i64,
                )>,
                DragState::Dragging { task_id, anchor_x, offset_days: _ } => {
                    let off = rounded_days(x - anchor_x, old(self).scale()) as i64;
                    &&& final(self).state() == (DragState::Dragging {
                        task_id,
                        anchor_x,
                        offset_days: off,
                    })
                    &&& r == Some((task_id, off))
                },
            },
    {
        match self.state {
            DragState::Idle => None,
            DragState::Dragging { task_id, anchor_x, offset_days: _ } => {
                let delta: i64 = x as i64 - anchor_x as i64;
                let half: u64 = (self.pixels_per_day / 2) as u64;
                let ppd: u64 = self.pixels_per_day as u64;
                let offset: i64 = if delta >= 0 {
                    let mag = (delta as u64 + half) / ppd;
                    proof {
                        lemma_div_nonincreasing((delta as u64 + half) as int, ppd as int);
                    }
                    mag as i64
                } else {
                    let mag = ((-delta) as u64 + half) / ppd;
                    proof {
                        lemma_div_nonincreasing(((-delta) as u64 + half) as int, ppd as int);
                    }
                    -(mag as i64)
                };
                proof {
                    assert(offset == rounded_days(x - anchor_x, self.pixels_per_day as int));
                }
                self.state = DragState::Dragging { task_id, anchor_x, offset_days: offset };
                Some((task_id, offset))
            },
        }
    }

    /// Release the pointer: return to idle and report the gesture. Yields
    /// the dragged task's id and the final preview offset (which the
    /// dispatcher commits when nonzero and discards when zero), or nothing
    /// when the controller was already idle.
    pub fn pointer_up(&mut self) -> (r: Option<(u64, i64)>)
        requires
            old(self).wf(),
        ensures
            final(self).wf(),
            final(self).scale() == old(self).scale(),
            final(self).state() == DragState::Idle,
            match old(self).state() {
                DragState::Idle => r == None::<(u64, i64)>,
                DragState::Dragging { task_id, anchor_x: _, offset_days } => r == Some(
                    (task_id, offset_days),
                ),
            },
    {
        let r = match self.state {
            DragState::Idle => None,
            DragState::Dragging { task_id, anchor_x: _, offset_days } => Some(
                (task_id, offset_days),
            ),
        };
        self.state = DragState::Idle;
        r
    }
}

} // verus!
