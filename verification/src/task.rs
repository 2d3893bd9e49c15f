//! The task record: a scheduled item on the chart, plus the error kinds
//! shared by every command of the library.

use vstd::prelude::*;
use vstd::string::StringExecFns;

verus! {

/// Minutes in one calendar day; timestamps are minutes since the chart epoch.
pub const MINUTES_PER_DAY: i64 = 1440;

/// The error kinds of the library, as surfaced to the host shell.
///
/// `ValidationError` rejects a proposed date range with `start > end` or an
/// unparseable date entry; `NotFoundError` reports a command that names a
/// task id no longer present; `PersistenceError` is reserved for the host's
/// save/load collaborator and is never produced by the in-memory logic.
#[derive(Clone, Copy, Debug, PartialEq, Eq, Structural)]
pub enum StoreError {
    ValidationError,
    NotFoundError,
    PersistenceError,
}

/// A scheduled item on the chart.
///
/// `start` and `end` are minutes since the chart epoch, with the invariant
/// `start <= end` maintained by every store command. `is_dragging` and
/// `drag_offset_days` are transient display fields: they exist only while
/// the drag controller holds the task and are never persisted.
#[derive(Debug)]
pub struct Task {
    pub id: u64,
    pub name: String,
    pub start: i64,
    pub end: i64,
    pub color: String,
    pub is_dragging: bool,
    pub drag_offset_days: i64,
}

/// The mathematical model of a [`Task`]: the same fields with text as
/// character sequences.
pub struct TaskView {
    pub id: u64,
    pub name: Seq<char>,
    pub start: i64,
    pub end: i64,
    pub color: Seq<char>,
    pub is_dragging: bool,
    pub drag_offset_days: i64,
}

impl View for Task {
    type V = TaskView;

    open spec fn view(&self) -> TaskView {
        TaskView {
            id: self.id,
            name: self.name@,
            start: self.start,
            end: self.end,
            color: self.color@,
            is_dragging: self.is_dragging,
            drag_offset_days: self.drag_offset_days,
        }
    }
}

/// The models of a task sequence, in order.
pub open spec fn views_of(s: Seq<Task>) -> Seq<TaskView> {
    s.map_values(|t: Task| t@)
}

/// A task's date range is well-formed when it does not end before it starts.
pub open spec fn task_dates_ok(t: TaskView) -> bool {
    t.start <= t.end
}

/// The transient drag fields are at their neutral values.
pub open spec fn task_at_rest(t: TaskView) -> bool {
    !t.is_dragging && t.drag_offset_days == 0
}

/// The same task with its transient drag fields reset to neutral values.
pub open spec fn cleared(t: TaskView) -> TaskView {
    TaskView { is_dragging: false, drag_offset_days: 0, ..t }
}

/// Every task of the sequence with its transient drag fields reset.
pub open spec fn cleared_all(s: Seq<TaskView>) -> Seq<TaskView> {
    s.map_values(|t: TaskView| cleared(t))
}

impl Clone for Task {
    /// An exact copy: the clone has the same model as the original.
    fn clone(&self) -> (r: Self)
        ensures
            r@ == self@,
    {
        Task {
            id: self.id,
            name: self.name.clone(),
            start: self.start,
            end: self.end,
            color: self.color.clone(),
            is_dragging: self.is_dragging,
            drag_offset_days: self.drag_offset_days,
        }
    }
}

impl Task {
    /// Construct a task with neutral transient fields.
    pub fn new(id: u64, name: String, start: i64, end: i64, color: String) -> (r: Task)
        ensures
            r@ == (TaskView {
                id,
                name: name@,
                start,
                end,
                color: color@,
                is_dragging: false,
                drag_offset_days: 0,
            }),
    {
        Task { id, name, start, end, color, is_dragging: false, drag_offset_days: 0 }
    }
}

/// The demo chart that a fresh installation shows: three tasks laid out in
/// the first two weeks after the chart epoch.
pub fn initial_tasks() -> (r: Vec<Task>)
    ensures
        r@.len() == 3,
        r@[0]@ == (TaskView {
            id: 1,
            name: "Task 1"@,
            start: 0,
            end: (5 * MINUTES_PER_DAY) as i64,
            color: "#4CAF50"@,
            is_dragging: false,
            drag_offset_days: 0,
        }),
        r@[1]@ == (TaskView {
            id: 2,
            name: "Task 2"@,
            start: (6 * MINUTES_PER_DAY) as i64,
            end: (9 * MINUTES_PER_DAY) as i64,
            color: "#FF9800"@,
            is_dragging: false,
            drag_offset_days: 0,
        }),
        r@[2]@ == (TaskView {
            id: 3,
            name: "Task 3"@,
            start: (10 * MINUTES_PER_DAY) as i64,
            end: (14 * MINUTES_PER_DAY) as i64,
            color: "#673AB7"@,
            is_dragging: false,
            drag_offset_days: 0,
        }),
{
    let mut r: Vec<Task> = Vec::new();
    r.push(
        Task::new(
            1,
            String::from_str("Task 1"),
            0,
            5 * MINUTES_PER_DAY,
            String::from_str("#4CAF50"),
        ),
    );
    r.push(
        Task::new(
            2,
            String::from_str("Task 2"),
            6 * MINUTES_PER_DAY,
            9 * MINUTES_PER_DAY,
            String::from_str("#FF9800"),
        ),
    );
    r.push(
        Task::new(
            3,
            String::from_str("Task 3"),
            10 * MINUTES_PER_DAY,
            14 * MINUTES_PER_DAY,
            String::from_str("#673AB7"),
        ),
    );
    r
}

} // verus!
