//! The event dispatcher: one owned state object holding the task store,
//! the drag controller and the pending persistence write, consuming the
//! closed set of user intents. All chart state changes flow through
//! [`Engine::dispatch`] (or the named commands it forwards to), which keeps
//! three invariants: the store is well-formed, drag marks on tasks mirror
//! the controller state, and the pending write — a queue of depth one,
//! where a newer write supersedes an older one — always serializes the
//! current snapshot.

use vstd::prelude::*;
use vstd::string::StringExecFns;

use crate::codec::{
    chars_of_str, decode_tasks, encodable_task, encode_tasks, encoded_snapshot,
    decoded_snapshot, lemma_encoding_ignores_marks, lemma_save_load_round_trip,
    string_from_chars,
};
use crate::dates::{datetime_input_minutes, parse_datetime_input};
use crate::drag::{DragController, DragState, rounded_days};
use crate::store::{has_id, lemma_task_index, max_id, store_inv, task_index, TaskStore};
use crate::numeral::pow16;
use crate::task::{
    cleared, cleared_all, task_at_rest, task_dates_ok, StoreError, Task, TaskView,
    MINUTES_PER_DAY,
};

verus! {

/// The closed set of user intents the chart reacts to.
pub enum UiIntent {
    AddTask { name: String, start: i64, end: i64, color: String },
    RenameTask { id: u64, name: String },
    DeleteTask { id: u64 },
    DragStart { id: u64, x: i32 },
    DragMove { x: i32 },
    DragEnd,
}

/// The task list after the drag display fields of the task with `id` have
/// been set; without such a task, the list is unchanged.
pub open spec fn marked_tasks(s: Seq<TaskView>, id: u64, dragging: bool, off: i64) -> Seq<
    TaskView,
> {
    if has_id(s, id) {
        let k = task_index(s, id);
        s.update(k, TaskView { is_dragging: dragging, drag_offset_days: off, ..s[k] })
    } else {
        s
    }
}

/// Shifting both dates of `t` by `minutes` stays inside the timestamp
/// range.
pub open spec fn date_shift_ok(t: TaskView, minutes: int) -> bool {
    i64::MIN <= t.start + minutes <= i64::MAX && i64::MIN <= t.end + minutes <= i64::MAX
}

/// The task list after a drag of `off` days on the task with `id` ends:
/// the task's dates shift by `off` whole days and its transient fields
/// reset. A zero offset or a shift leaving the timestamp range only resets
/// the transient fields; without such a task nothing changes.
pub open spec fn committed_tasks(s: Seq<TaskView>, id: u64, off: int) -> Seq<TaskView> {
    if !has_id(s, id) {
        s
    } else {
        let k = task_index(s, id);
        let t = s[k];
        let m = off * (MINUTES_PER_DAY as int);
        if off != 0 && date_shift_ok(t, m) {
            s.update(
                k,
                TaskView {
                    start: (t.start + m) as i64,
                    end: (t.end + m) as i64,
                    is_dragging: false,
                    drag_offset_days: 0,
                    ..t
                },
            )
        } else {
            s.update(k, cleared(t))
        }
    }
}

/// Whether ending a drag of `off` days on the task with `id` writes to the
/// store (and so triggers persistence).
pub open spec fn commit_persists(s: Seq<TaskView>, id: u64, off: int) -> bool {
    off != 0 && has_id(s, id) && date_shift_ok(s[task_index(s, id)], off * (
    MINUTES_PER_DAY as int))
}

/// The result reported for ending a drag of `off` days on the task with
/// `id`: a vanished task is a recovered no-op reported as `NotFoundError`,
/// a shift leaving the timestamp range is rejected as `ValidationError`,
/// and a zero offset is a silent discard.
pub open spec fn commit_outcome(s: Seq<TaskView>, id: u64, off: int) -> Result<
    (),
    StoreError,
> {
    if off == 0 {
        Ok(())
    } else if !has_id(s, id) {
        Err(StoreError::NotFoundError)
    } else if date_shift_ok(s[task_index(s, id)], off * (MINUTES_PER_DAY as int)) {
        Ok(())
    } else {
        Err(StoreError::ValidationError)
    }
}

/// One task's share of [`marks_ok`]: while the controller is idle the task
/// is at rest; while task `task_id` is being dragged, every other task is
/// at rest and the dragged task, when marked, carries the controller's
/// current offset.
pub open spec fn marks_entry_ok(s: Seq<TaskView>, i: int, d: DragState) -> bool {
    match d {
        DragState::Idle => task_at_rest(s[i]),
        DragState::Dragging { task_id, anchor_x: _, offset_days } => {
            if s[i].id != task_id {
                task_at_rest(s[i])
            } else {
                task_at_rest(s[i]) || (s[i].is_dragging && s[i].drag_offset_days
                    == offset_days)
            }
        },
    }
}

/// Drag marks on tasks mirror the controller state.
pub open spec fn marks_ok(s: Seq<TaskView>, d: DragState) -> bool {
    forall|i: int| 0 <= i < s.len() ==> #[trigger] marks_entry_ok(s, i, d)
}

/// The chart state machine.
pub struct Engine {
    store: TaskStore,
    drag: DragController,
    pending_save: Option<String>,
}

impl Engine {
    /// The ordered task views held by the store.
    pub closed spec fn tasks(&self) -> Seq<TaskView> {
        self.store@
    }

    /// The drag controller's state.
    pub closed spec fn drag_state(&self) -> DragState {
        self.drag.state()
    }

    /// The configured pixels-per-day scale factor.
    pub closed spec fn scale(&self) -> int {
        self.drag.scale()
    }

    /// The blob waiting to be written by the host, if any.
    pub closed spec fn pending(&self) -> Option<Seq<char>> {
        match self.pending_save {
            Some(ref b) => Some(b@),
            None => None,
        }
    }

    /// The engine invariant: well-formed store and controller, drag marks
    /// mirroring the controller, and any pending write serializing the
    /// current snapshot.
    pub closed spec fn wf(&self) -> bool {
        &&& store_inv(self.tasks())
        &&& self.drag.wf()
        &&& marks_ok(self.tasks(), self.drag_state())
        &&& match self.pending() {
            Some(b) => b == encoded_snapshot(self.tasks()),
            None => true,
        }
    }

    /// An engine with no tasks, an idle controller at the given scale
    /// factor, and nothing to persist.
    pub fn new(pixels_per_day: u32) -> (r: Engine)
        requires
            pixels_per_day >= 1,
        ensures
            r.wf(),
            r.tasks() == Seq::<TaskView>::empty(),
            r.drag_state() == DragState::Idle,
            r.scale() == pixels_per_day,
            r.pending() is None,
    {
        Engine {
            store: TaskStore::new(),
            drag: DragController::new(pixels_per_day),
            pending_save: None,
        }
    }

    /// Start from a persisted blob: decode it and validate the store
    /// invariant. A blob that does not parse, or whose contents violate the
    /// invariant, yields an empty chart rather than a failed start.
    pub fn load_from(blob: &str, pixels_per_day: u32) -> (r: Engine)
        requires
            pixels_per_day >= 1,
        ensures
            r.wf(),
            r.tasks() == (match decoded_snapshot(blob@) {
                Some(ts) => if store_inv(ts) {
                    ts
                } else {
                    Seq::<TaskView>::empty()
                },
                None => Seq::<TaskView>::empty(),
            }),
            r.drag_state() == DragState::Idle,
            r.scale() == pixels_per_day,
            r.pending() is None,
    {
        let chars = chars_of_str(blob);
        match decode_tasks(chars.as_slice()) {
            Some(ts) => match TaskStore::from_tasks(ts) {
                Ok(store) => {
                    let r = Engine {
                        store,
                        drag: DragController::new(pixels_per_day),
                        pending_save: None,
                    };
                    proof {
                        assert forall|i: int| 0 <= i < r.tasks().len() implies marks_entry_ok(
                            r.tasks(),
                            i,
                            DragState::Idle,
                        ) by {
                            assert(r.tasks()[i] == ts@[i]@);
                            assert(task_at_rest(ts@[i]@));
                        }
                    }
                    r
                },
                Err(_) => Engine::new(pixels_per_day),
            },
            None => Engine::new(pixels_per_day),
        }
    }

    /// Hand the pending blob to the host for writing, leaving the queue
    /// empty. The host treats the write as fire-and-forget: a failure is
    /// reported as a `PersistenceError` without touching the chart state.
    pub fn take_pending_save(&mut self) -> (r: Option<String>)
        requires
            old(self).wf(),
        ensures
            final(self).wf(),
            final(self).tasks() == old(self).tasks(),
            final(self).drag_state() == old(self).drag_state(),
            final(self).scale() == old(self).scale(),
            final(self).pending() is None,
            match r {
                Some(b) => old(self).pending() == Some(b@),
                None => old(self).pending() is None,
            },
    {
        let r = self.pending_save.take();
        r
    }

    /// Re-serialize the current snapshot into the depth-one write queue,
    /// superseding any blob still waiting there.
    fn refresh_pending(&mut self)
        ensures
            final(self).tasks() == old(self).tasks(),
            final(self).drag_state() == old(self).drag_state(),
            final(self).scale() == old(self).scale(),
            final(self).pending() == Some(encoded_snapshot(old(self).tasks())),
            final(self).store == old(self).store,
            final(self).drag == old(self).drag,
    {
        let snap = self.store.snapshot();
        let chars = encode_tasks(&snap);
        self.pending_save = Some(string_from_chars(chars));
    }

    /// Add a task: see [`TaskStore::add`]. On success the new snapshot is
    /// queued for persistence; on failure nothing changes.
    pub fn add_task(&mut self, name: String, start: i64, end: i64, color: String) -> (r:
        Result<Task, StoreError>)
        requires
            old(self).wf(),
        ensures
            final(self).wf(),
            final(self).drag_state() == old(self).drag_state(),
            final(self).scale() == old(self).scale(),
            match r {
                Ok(t) => {
                    &&& start <= end
                    &&& max_id(old(self).tasks()) < u64::MAX
                    &&& t@ == (TaskView {
                        id: (max_id(old(self).tasks()) + 1) as u64,
                        name: name@,
                        start,
                        end,
                        color: color@,
                        is_dragging: false,
                        drag_offset_days: 0,
                    })
                    &&& final(self).tasks() == old(self).tasks().push(t@)
                    &&& final(self).pending() == Some(encoded_snapshot(final(self).tasks()))
                },
                Err(e) => {
                    &&& e == StoreError::ValidationError
                    &&& (start > end || max_id(old(self).tasks()) == u64::MAX)
                    &&& final(self).tasks() == old(self).tasks()
                    &&& final(self).pending() == old(self).pending()
                },
            },
    {
        let r = self.store.add(name, start, end, color);
        match r {
            Ok(t) => {
                self.refresh_pending();
                proof {
                    let s = old(self).tasks();
                    let sp = self.tasks();
                    let d = old(self).drag_state();
                    assert forall|i: int| 0 <= i < sp.len() implies marks_entry_ok(
                        sp,
                        i,
                        d,
                    ) by {
                        if i < s.len() {
                            assert(marks_entry_ok(s, i, d));
                            assert(sp[i] == s[i]);
                        } else {
                            assert(task_at_rest(sp[i]));
                        }
                    }
                }
                Ok(t)
            },
            Err(e) => Err(e),
        }
    }

    /// Rename a task: see [`TaskStore::rename`]. On success the new
    /// snapshot is queued for persistence; on failure nothing changes.
    pub fn rename_task(&mut self, id: u64, name: String) -> (r: Result<(), StoreError>)
        requires
            old(self).wf(),
        ensures
            final(self).wf(),
            final(self).drag_state() == old(self).drag_state(),
            final(self).scale() == old(self).scale(),
            match r {
                Ok(()) => {
                    &&& has_id(old(self).tasks(), id)
                    &&& {
                        let k = task_index(old(self).tasks(), id);
                        final(self).tasks() == old(self).tasks().update(
                            k,
                            TaskView { name: name@, ..old(self).tasks()[k] },
                        )
                    }
                    &&& final(self).pending() == Some(encoded_snapshot(final(self).tasks()))
                },
                Err(e) => {
                    &&& e == StoreError::NotFoundError
                    &&& !has_id(old(self).tasks(), id)
                    &&& final(self).tasks() == old(self).tasks()
                    &&& final(self).pending() == old(self).pending()
                },
            },
    {
        let r = self.store.rename(id, name);
        match r {
            Ok(()) => {
                self.refresh_pending();
                proof {
                    let s = old(self).tasks();
                    let sp = self.tasks();
                    lemma_task_index(s, id);
                    let k = task_index(s, id);
                    let d = old(self).drag_state();
                    assert forall|i: int| 0 <= i < sp.len() implies marks_entry_ok(
                        sp,
                        i,
                        d,
                    ) by {
                        assert(marks_entry_ok(s, i, d));
                        if i != k {
                            assert(sp[i] == s[i]);
                        } else {
                            assert(sp[i].id == s[i].id);
                            assert(sp[i].is_dragging == s[i].is_dragging);
                            assert(sp[i].drag_offset_days == s[i].drag_offset_days);
                        }
                    }
                }
                Ok(())
            },
            Err(e) => Err(e),
        }
    }

    /// Delete a task: see [`TaskStore::remove`]. On success the new
    /// snapshot is queued for persistence; on failure nothing changes.
    pub fn delete_task(&mut self, id: u64) -> (r: Result<(), StoreError>)
        requires
            old(self).wf(),
        ensures
            final(self).wf(),
            final(self).drag_state() == old(self).drag_state(),
            final(self).scale() == old(self).scale(),
            match r {
                Ok(()) => {
                    &&& has_id(old(self).tasks(), id)
                    &&& final(self).tasks() == old(self).tasks().remove(
                        task_index(old(self).tasks(), id),
                    )
                    &&& final(self).pending() == Some(encoded_snapshot(final(self).tasks()))
                },
                Err(e) => {
                    &&& e == StoreError::NotFoundError
                    &&& !has_id(old(self).tasks(), id)
                    &&& final(self).tasks() == old(self).tasks()
                    &&& final(self).pending() == old(self).pending()
                },
            },
    {
        let r = self.store.remove(id);
        match r {
            Ok(()) => {
                self.refresh_pending();
                proof {
                    let s = old(self).tasks();
                    let sp = self.tasks();
                    lemma_task_index(s, id);
                    let k = task_index(s, id);
                    let d = old(self).drag_state();
                    assert forall|i: int| 0 <= i < sp.len() implies marks_entry_ok(
                        sp,
                        i,
                        d,
                    ) by {
                        let pi = if i < k {
                            i
                        } else {
                            i + 1
                        };
                        assert(marks_entry_ok(s, pi, d));
                        assert(sp[i] == s[pi]);
                    }
                }
                Ok(())
            },
            Err(e) => Err(e),
        }
    }

    /// Reschedule a task: see [`TaskStore::reschedule`]. On success the new
    /// snapshot is queued for persistence; on failure nothing changes.
    pub fn reschedule_task(&mut self, id: u64, new_start: i64, new_end: i64) -> (r: Result<
        (),
        StoreError,
    >)
        requires
            old(self).wf(),
        ensures
            final(self).wf(),
            final(self).drag_state() == old(self).drag_state(),
            final(self).scale() == old(self).scale(),
            match r {
                Ok(()) => {
                    &&& new_start <= new_end
                    &&& has_id(old(self).tasks(), id)
                    &&& {
                        let k = task_index(old(self).tasks(), id);
                        final(self).tasks() == old(self).tasks().update(
                            k,
                            TaskView {
                                start: new_start,
                                end: new_end,
                                ..old(self).tasks()[k]
                            },
                        )
                    }
                    &&& final(self).pending() == Some(encoded_snapshot(final(self).tasks()))
                },
                Err(e) => {
                    &&& final(self).tasks() == old(self).tasks()
                    &&& final(self).pending() == old(self).pending()
                    &&& (e == StoreError::ValidationError <==> new_start > new_end)
                    &&& (e == StoreError::NotFoundError <==> (new_start <= new_end && !has_id(
                        old(self).tasks(),
                        id,
                    )))
                },
            },
    {
        let r = self.store.reschedule(id, new_start, new_end);
        match r {
            Ok(()) => {
                self.refresh_pending();
                proof {
                    let s = old(self).tasks();
                    let sp = self.tasks();
                    lemma_task_index(s, id);
                    let k = task_index(s, id);
                    let d = old(self).drag_state();
                    assert forall|i: int| 0 <= i < sp.len() implies marks_entry_ok(
                        sp,
                        i,
                        d,
                    ) by {
                        assert(marks_entry_ok(s, i, d));
                        if i != k {
                            assert(sp[i] == s[i]);
                        } else {
                            assert(sp[i].id == s[i].id);
                            assert(sp[i].is_dragging == s[i].is_dragging);
                            assert(sp[i].drag_offset_days == s[i].drag_offset_days);
                        }
                    }
                }
                Ok(())
            },
            Err(e) => Err(e),
        }
    }

    /// Press on the bar of task `id` at pointer position `x`. Any drag
    /// already in progress is force-completed first, exactly as a release
    /// would complete it; then a fresh drag starts on task `id` with a zero
    /// preview offset, and the task (when present) is marked as being
    /// dragged for rendering.
    pub fn drag_start(&mut self, id: u64, x: i32)
        requires
            old(self).wf(),
        ensures
            final(self).wf(),
            final(self).scale() == old(self).scale(),
            final(self).drag_state() == (DragState::Dragging {
                task_id: id,
                anchor_x: x,
                offset_days: 0,
            }),
            match old(self).drag_state() {
                DragState::Idle => {
                    &&& final(self).tasks() == marked_tasks(old(self).tasks(), id, true, 0)
                    &&& final(self).pending() == old(self).pending()
                },
                DragState::Dragging { task_id, anchor_x: _, offset_days } => {
                    let committed = committed_tasks(
                        old(self).tasks(),
                        task_id,
                        offset_days as int,
                    );
                    &&& final(self).tasks() == marked_tasks(committed, id, true, 0)
                    &&& final(self).pending() == (if commit_persists(
                        old(self).tasks(),
                        task_id,
                        offset_days as int,
                    ) {
                        Some(encoded_snapshot(committed))
                    } else {
                        old(self).pending()
                    })
                },
            },
    {
        if self.drag.is_dragging() {
            let _ = self.drag_end();
        }
        let ghost mid = *self;
        self.drag.pointer_down(id, x);
        proof {
            lemma_task_index(mid.tasks(), id);
        }
        let found = self.store.set_drag_mark(id, true, 0);
        proof {
            let s = mid.tasks();
            let sp = self.tasks();
            let d = self.drag_state();
            let k = task_index(s, id);
            assert forall|i: int| 0 <= i < sp.len() implies marks_entry_ok(sp, i, d) by {
                assert(marks_entry_ok(s, i, DragState::Idle));
                if found && i == k {
                } else {
                    assert(sp[i] == s[i]);
                }
            }
            if found {
                assert forall|i: int, j: int| 0 <= i < j < sp.len() implies sp[i].id
                    != sp[j].id by {
                    assert(s[i].id != s[j].id);
                }
            }
            match self.pending() {
                Some(b) => {
                    lemma_encoding_ignores_marks(s, sp);
                },
                None => {},
            }
        }
    }

    /// Pointer moved to `x` during a drag: recompute the preview offset
    /// from the anchor, keep only this latest value, and mirror it onto the
    /// dragged task's transient display fields. The persisted dates are
    /// untouched; the event is ignored while no drag is in progress.
    pub fn drag_move(&mut self, x: i32)
        requires
            old(self).wf(),
        ensures
            final(self).wf(),
            final(self).scale() == old(self).scale(),
            match old(self).drag_state() {
                DragState::Idle => {
                    &&& final(self).drag_state() == DragState::Idle
                    &&& final(self).tasks() == old(self).tasks()
                    &&& final(self).pending() == old(self).pending()
                },
                DragState::Dragging { task_id, anchor_x, offset_days: _ } => {
                    let off = rounded_days(x - anchor_x, old(self).scale()) as i64;
                    &&& final(self).drag_state() == (DragState::Dragging {
                        task_id,
                        anchor_x,
                        offset_days: off,
                    })
                    &&& final(self).tasks() == marked_tasks(old(self).tasks(), task_id, true,
                        off,
                    )
                    &&& final(self).pending() == old(self).pending()
                },
            },
    {
        match self.drag.pointer_move(x) {
            None => {},
            Some((tid, off)) => {
                proof {
                    lemma_task_index(old(self).tasks(), tid);
                }
                let found = self.store.set_drag_mark(tid, true, off);
                proof {
                    let s = old(self).tasks();
                    let sp = self.tasks();
                    let d = self.drag_state();
                    let k = task_index(s, tid);
                    assert forall|i: int| 0 <= i < sp.len() implies marks_entry_ok(
                        sp,
                        i,
                        d,
                    ) by {
                        assert(marks_entry_ok(s, i, old(self).drag_state()));
                        if found && i == k {
                        } else {
                            assert(sp[i] == s[i]);
                        }
                    }
                    if found {
                        assert forall|i: int, j: int| 0 <= i < j < sp.len() implies sp[i].id
                            != sp[j].id by {
                            assert(s[i].id != s[j].id);
                        }
                    }
                    match self.pending() {
                        Some(b) => {
                            lemma_encoding_ignores_marks(s, sp);
                        },
                        None => {},
                    }
                }
            },
        }
    }

    /// Release the pointer: complete the drag. With a nonzero preview
    /// offset the dragged task's dates shift by that many whole days, which
    /// queues the new snapshot for persistence; a zero offset discards the
    /// gesture without touching the store. Either way the task's transient
    /// fields reset and the controller returns to idle. A task deleted
    /// mid-drag is reported as `NotFoundError` and the command is a no-op;
    /// a shift that would leave the timestamp range is rejected as
    /// `ValidationError`, leaving the dates unchanged.
    pub fn drag_end(&mut self) -> (r: Result<(), StoreError>)
        requires
            old(self).wf(),
        ensures
            final(self).wf(),
            final(self).scale() == old(self).scale(),
            final(self).drag_state() == DragState::Idle,
            match old(self).drag_state() {
                DragState::Idle => {
                    &&& r == Ok::<(), StoreError>(())
                    &&& final(self).tasks() == old(self).tasks()
                    &&& final(self).pending() == old(self).pending()
                },
                DragState::Dragging { task_id, anchor_x: _, offset_days } => {
                    &&& final(self).tasks() == committed_tasks(
                        old(self).tasks(),
                        task_id,
                        offset_days as int,
                    )
                    &&& r == commit_outcome(old(self).tasks(), task_id, offset_days as int)
                    &&& final(self).pending() == (if commit_persists(
                        old(self).tasks(),
                        task_id,
                        offset_days as int,
                    ) {
                        Some(encoded_snapshot(final(self).tasks()))
                    } else {
                        old(self).pending()
                    })
                },
            },
    {
        match self.drag.pointer_up() {
            None => Ok(()),
            Some((tid, off)) => {
                let ghost s = old(self).tasks();
                proof {
                    lemma_task_index(s, tid);
                }
                let ghost k = task_index(s, tid);
                let found = self.store.set_drag_mark(tid, false, 0);
                let ghost sc = self.tasks();
                proof {
                    if found {
                        assert(sc =~= s.update(k, cleared(s[k])));
                        assert forall|i: int, j: int| 0 <= i < j < sc.len() implies sc[i].id
                            != sc[j].id by {
                            assert(s[i].id != s[j].id);
                        }
                        assert forall|i: int| 0 <= i < sc.len() implies task_at_rest(
                            #[trigger] sc[i],
                        ) by {
                            assert(marks_entry_ok(s, i, old(self).drag_state()));
                            if i != k {
                                assert(sc[i] == s[i]);
                            }
                        }
                    } else {
                        assert forall|i: int| 0 <= i < sc.len() implies task_at_rest(
                            #[trigger] sc[i],
                        ) by {
                            assert(marks_entry_ok(s, i, old(self).drag_state()));
                        }
                    }
                    assert forall|i: int| 0 <= i < sc.len() implies marks_entry_ok(
                        sc,
                        i,
                        DragState::Idle,
                    ) by {
                        assert(task_at_rest(sc[i]));
                    }
                }
                if off == 0 {
                    proof {
                        match self.pending() {
                            Some(b) => {
                                lemma_encoding_ignores_marks(s, sc);
                            },
                            None => {},
                        }
                    }
                    return Ok(());
                }
                if !found {
                    proof {
                        match self.pending() {
                            Some(b) => {
                                lemma_encoding_ignores_marks(s, sc);
                            },
                            None => {},
                        }
                    }
                    return Err(StoreError::NotFoundError);
                }
                proof {
                    assert(sc[k].id == tid);
                    assert(has_id(sc, tid));
                    assert(task_index(sc, tid) == k) by {
                        lemma_task_index(sc, tid);
                        let k2 = task_index(sc, tid);
                        if k2 < k {
                            assert(sc[k2] == s[k2]);
                            assert(s[k2].id != s[k].id);
                            assert(false);
                        }
                        if k2 > k {
                            assert(sc[k].id != tid);
                            assert(false);
                        }
                    }
                    assert(task_dates_ok(s[k]));
                }
                let (cur_start, cur_end) = match self.store.get(tid) {
                    Some(t) => (t.start, t.end),
                    None => {
                        proof {
                            assert(false);
                        }
                        return Err(StoreError::NotFoundError);
                    },
                };
                let minutes = off * MINUTES_PER_DAY;
                proof {
                    assert(cur_start == s[k].start && cur_end == s[k].end);
                }
                match (cur_start.checked_add(minutes), cur_end.checked_add(minutes)) {
                    (Some(new_start), Some(new_end)) => {
                        let rr = self.store.reschedule(tid, new_start, new_end);
                        proof {
                            assert(rr is Ok);
                            let sp = self.tasks();
                            assert(sp =~= committed_tasks(s, tid, off as int));
                            assert forall|i: int| 0 <= i < sp.len() implies marks_entry_ok(
                                sp,
                                i,
                                DragState::Idle,
                            ) by {
                                if i != k {
                                    assert(sp[i] == sc[i]);
                                    assert(task_at_rest(sc[i]));
                                }
                            }
                        }
                        self.refresh_pending();
                        Ok(())
                    },
                    _ => {
                        proof {
                            match self.pending() {
                                Some(b) => {
                                    lemma_encoding_ignores_marks(s, sc);
                                },
                                None => {},
                            }
                        }
                        Err(StoreError::ValidationError)
                    },
                }
            },
        }
    }

    /// Submit the add-task form: parse both date entries and add the task
    /// with the chart's standard color for new bars. Unparseable date text
    /// is rejected as `ValidationError` with the store untouched — exactly
    /// as a parsed range with `start > end` is.
    pub fn submit_task_form(&mut self, name: String, start_text: &str, end_text: &str) -> (r:
        Result<Task, StoreError>)
        requires
            old(self).wf(),
        ensures
            final(self).wf(),
            final(self).drag_state() == old(self).drag_state(),
            final(self).scale() == old(self).scale(),
            match (datetime_input_minutes(start_text@), datetime_input_minutes(end_text@)) {
                (Some(start), Some(end)) => match r {
                    Ok(t) => {
                        &&& start <= end
                        &&& max_id(old(self).tasks()) < u64::MAX
                        &&& t@ == (TaskView {
                            id: (max_id(old(self).tasks()) + 1) as u64,
                            name: name@,
                            start,
                            end,
                            color: "#009688"@,
                            is_dragging: false,
                            drag_offset_days: 0,
                        })
                        &&& final(self).tasks() == old(self).tasks().push(t@)
                        &&& final(self).pending() == Some(
                            encoded_snapshot(final(self).tasks()),
                        )
                    },
                    Err(e) => {
                        &&& e == StoreError::ValidationError
                        &&& (start > end || max_id(old(self).tasks()) == u64::MAX)
                        &&& final(self).tasks() == old(self).tasks()
                        &&& final(self).pending() == old(self).pending()
                    },
                },
                _ => {
                    &&& r == Err::<Task, StoreError>(StoreError::ValidationError)
                    &&& final(self).tasks() == old(self).tasks()
                    &&& final(self).pending() == old(self).pending()
                },
            },
    {
        match (parse_datetime_input(start_text), parse_datetime_input(end_text)) {
            (Some(start), Some(end)) => self.add_task(
                name,
                start,
                end,
                String::from_str("#009688"),
            ),
            _ => Err(StoreError::ValidationError),
        }
    }

    /// Consume one user intent, routing it to the command it names. The
    /// effect and result of each intent are exactly those of the
    /// corresponding command; the task returned by an add is dropped here.
    pub fn dispatch(&mut self, intent: UiIntent) -> (r: Result<(), StoreError>)
        requires
            old(self).wf(),
        ensures
            final(self).wf(),
            final(self).scale() == old(self).scale(),
            match intent {
                UiIntent::AddTask { name, start, end, color } => {
                    &&& final(self).drag_state() == old(self).drag_state()
                    &&& match r {
                        Ok(()) => {
                            &&& start <= end
                            &&& max_id(old(self).tasks()) < u64::MAX
                            &&& final(self).tasks() == old(self).tasks().push(
                                TaskView {
                                    id: (max_id(old(self).tasks()) + 1) as u64,
                                    name: name@,
                                    start,
                                    end,
                                    color: color@,
                                    is_dragging: false,
                                    drag_offset_days: 0,
                                },
                            )
                            &&& final(self).pending() == Some(
                                encoded_snapshot(final(self).tasks()),
                            )
                        },
                        Err(e) => {
                            &&& e == StoreError::ValidationError
                            &&& (start > end || max_id(old(self).tasks()) == u64::MAX)
                            &&& final(self).tasks() == old(self).tasks()
                            &&& final(self).pending() == old(self).pending()
                        },
                    }
                },
                UiIntent::RenameTask { id, name } => {
                    &&& final(self).drag_state() == old(self).drag_state()
                    &&& match r {
                        Ok(()) => {
                            &&& has_id(old(self).tasks(), id)
                            &&& {
                                let k = task_index(old(self).tasks(), id);
                                final(self).tasks() == old(self).tasks().update(
                                    k,
                                    TaskView { name: name@, ..old(self).tasks()[k] },
                                )
                            }
                            &&& final(self).pending() == Some(
                                encoded_snapshot(final(self).tasks()),
                            )
                        },
                        Err(e) => {
                            &&& e == StoreError::NotFoundError
                            &&& !has_id(old(self).tasks(), id)
                            &&& final(self).tasks() == old(self).tasks()
                            &&& final(self).pending() == old(self).pending()
                        },
                    }
                },
                UiIntent::DeleteTask { id } => {
                    &&& final(self).drag_state() == old(self).drag_state()
                    &&& match r {
                        Ok(()) => {
                            &&& has_id(old(self).tasks(), id)
                            &&& final(self).tasks() == old(self).tasks().remove(
                                task_index(old(self).tasks(), id),
                            )
                            &&& final(self).pending() == Some(
                                encoded_snapshot(final(self).tasks()),
                            )
                        },
                        Err(e) => {
                            &&& e == StoreError::NotFoundError
                            &&& !has_id(old(self).tasks(), id)
                            &&& final(self).tasks() == old(self).tasks()
                            &&& final(self).pending() == old(self).pending()
                        },
                    }
                },
                UiIntent::DragStart { id, x } => {
                    &&& r == Ok::<(), StoreError>(())
                    &&& final(self).drag_state() == (DragState::Dragging {
                        task_id: id,
                        anchor_x: x,
                        offset_days: 0,
                    })
                    &&& match old(self).drag_state() {
                        DragState::Idle => {
                            &&& final(self).tasks() == marked_tasks(
                                old(self).tasks(),
                                id,
                                true,
                                0,
                            )
                            &&& final(self).pending() == old(self).pending()
                        },
                        DragState::Dragging { task_id, anchor_x: _, offset_days } => {
                            let committed = committed_tasks(
                                old(self).tasks(),
                                task_id,
                                offset_days as int,
                            );
                            &&& final(self).tasks() == marked_tasks(committed, id, true, 0)
                            &&& final(self).pending() == (if commit_persists(
                                old(self).tasks(),
                                task_id,
                                offset_days as int,
                            ) {
                                Some(encoded_snapshot(committed))
                            } else {
                                old(self).pending()
                            })
                        },
                    }
                },
                UiIntent::DragMove { x } => {
                    &&& r == Ok::<(), StoreError>(())
                    &&& match old(self).drag_state() {
                        DragState::Idle => {
                            &&& final(self).drag_state() == DragState::Idle
                            &&& final(self).tasks() == old(self).tasks()
                            &&& final(self).pending() == old(self).pending()
                        },
                        DragState::Dragging { task_id, anchor_x, offset_days: _ } => {
                            let off = rounded_days(
                                x - anchor_x,
                                old(self).scale(),
                            ) as i64;
                            &&& final(self).drag_state() == (DragState::Dragging {
                                task_id,
                                anchor_x,
                                offset_days: off,
                            })
                            &&& final(self).tasks() == marked_tasks(
                                old(self).tasks(),
                                task_id,
                                true,
                                off,
                            )
                            &&& final(self).pending() == old(self).pending()
                        },
                    }
                },
                UiIntent::DragEnd => {
                    &&& final(self).drag_state() == DragState::Idle
                    &&& match old(self).drag_state() {
                        DragState::Idle => {
                            &&& r == Ok::<(), StoreError>(())
                            &&& final(self).tasks() == old(self).tasks()
                            &&& final(self).pending() == old(self).pending()
                        },
                        DragState::Dragging { task_id, anchor_x: _, offset_days } => {
                            &&& final(self).tasks() == committed_tasks(
                                old(self).tasks(),
                                task_id,
                                offset_days as int,
                            )
                            &&& r == commit_outcome(
                                old(self).tasks(),
                                task_id,
                                offset_days as int,
                            )
                            &&& final(self).pending() == (if commit_persists(
                                old(self).tasks(),
                                task_id,
                                offset_days as int,
                            ) {
                                Some(encoded_snapshot(final(self).tasks()))
                            } else {
                                old(self).pending()
                            })
                        },
                    }
                },
            },
    {
        match intent {
            UiIntent::AddTask { name, start, end, color } => {
                match self.add_task(name, start, end, color) {
                    Ok(_) => Ok(()),
                    Err(e) => Err(e),
                }
            },
            UiIntent::RenameTask { id, name } => self.rename_task(id, name),
            UiIntent::DeleteTask { id } => self.delete_task(id),
            UiIntent::DragStart { id, x } => {
                self.drag_start(id, x);
                Ok(())
            },
            UiIntent::DragMove { x } => {
                self.drag_move(x);
                Ok(())
            },
            UiIntent::DragEnd => self.drag_end(),
        }
    }

    /// A read-only copy of the task list: see [`TaskStore::snapshot`].
    pub fn snapshot(&self) -> (r: Vec<Task>)
        ensures
            r@.len() == self.tasks().len(),
            forall|i: int| 0 <= i < r@.len() ==> (#[trigger] r@[i])@ == self.tasks()[i],
    {
        self.store.snapshot()
    }
}

/// The persistence round trip of the chart: decoding the saved blob of a
/// well-formed task list yields the same ordered sequence of tasks with
/// their transient drag fields reset, and the reloaded sequence satisfies
/// the store invariant again — so a restart accepts exactly what was
/// saved. The length bounds hold of every snapshot that exists in memory.
pub proof fn lemma_persisted_chart_reloads(s: Seq<TaskView>)
    requires
        store_inv(s),
        s.len() < pow16(16),
        forall|i: int| 0 <= i < s.len() ==> encodable_task(#[trigger] s[i]),
    ensures
        decoded_snapshot(encoded_snapshot(s)) == Some(cleared_all(s)),
        store_inv(cleared_all(s)),
{
    lemma_save_load_round_trip(s);
    let c = cleared_all(s);
    assert forall|i: int| 0 <= i < c.len() implies task_dates_ok(#[trigger] c[i]) by {
        assert(c[i] == cleared(s[i]));
        assert(task_dates_ok(s[i]));
    }
    assert forall|i: int, j: int| 0 <= i < j < c.len() implies c[i].id != c[j].id by {
        assert(c[i] == cleared(s[i]));
        assert(c[j] == cleared(s[j]));
        assert(s[i].id != s[j].id);
    }
}

} // verus!
