//! The task store: the ordered collection of tasks and the single source of
//! truth for what is rendered. All mutation goes through the explicit
//! commands below; consumers receive cloned snapshots, never mutable access.

use vstd::prelude::*;

use crate::task::{task_dates_ok, views_of, StoreError, Task, TaskView};

verus! {

/// Every task's date range is well-formed and task ids are pairwise distinct.
pub open spec fn store_inv(s: Seq<TaskView>) -> bool {
    &&& forall|i: int| 0 <= i < s.len() ==> task_dates_ok(#[trigger] s[i])
    &&& forall|i: int, j: int| 0 <= i < j < s.len() ==> s[i].id != s[j].id
}

/// Some task in `s` carries the id `id`.
pub open spec fn has_id(s: Seq<TaskView>, id: u64) -> bool {
    exists|i: int| 0 <= i < s.len() && s[i].id == id
}

/// Index of the first task carrying `id`, or -1 when no task does.
pub open spec fn task_index(s: Seq<TaskView>, id: u64) -> int
    decreases s.len(),
{
    if s.len() == 0 {
        -1
    } else if s[0].id == id {
        0
    } else {
        let rest = task_index(s.drop_first(), id);
        if rest == -1 {
            -1
        } else {
            rest + 1
        }
    }
}

/// The largest id among the tasks of `s`, or 0 when `s` is empty.
pub open spec fn max_id(s: Seq<TaskView>) -> int
    decreases s.len(),
{
    if s.len() == 0 {
        0
    } else {
        let rest = max_id(s.drop_last());
        if s.last().id > rest {
            s.last().id as int
        } else {
            rest
        }
    }
}

/// `task_index` finds exactly the first position holding `id`: it returns a
/// valid position with that id when one exists and -1 otherwise, and no
/// earlier position holds the id.
pub proof fn lemma_task_index(s: Seq<TaskView>, id: u64)
    ensures
        has_id(s, id) ==> {
            let k = task_index(s, id);
            &&& 0 <= k < s.len()
            &&& s[k].id == id
            &&& forall|j: int| 0 <= j < k ==> s[j].id != id
        },
        !has_id(s, id) ==> task_index(s, id) == -1,
    decreases s.len(),
{
    if s.len() > 0 && s[0].id != id {
        let rest = s.drop_first();
        lemma_task_index(rest, id);
        assert(forall|i: int| 0 <= i < rest.len() ==> #[trigger] rest[i] == s[i + 1]);
        if has_id(s, id) {
            let w = choose|i: int| 0 <= i < s.len() && s[i].id == id;
            assert(rest[w - 1].id == id);
            assert(has_id(rest, id));
            let k = task_index(rest, id) + 1;
            assert(s[k].id == rest[k - 1].id);
            assert forall|j: int| 0 <= j < k implies s[j].id != id by {
                if j > 0 {
                    assert(rest[j - 1].id != id);
                }
            }
        } else {
            if has_id(rest, id) {
                let w = choose|i: int| 0 <= i < rest.len() && rest[i].id == id;
                assert(s[w + 1].id == id);
                assert(false);
            }
        }
    }
}

/// No id in `s` exceeds `max_id(s)`.
pub proof fn lemma_max_id_bound(s: Seq<TaskView>)
    ensures
        forall|i: int| 0 <= i < s.len() ==> #[trigger] s[i].id <= max_id(s),
        max_id(s) >= 0,
    decreases s.len(),
{
    if s.len() > 0 {
        lemma_max_id_bound(s.drop_last());
        assert(forall|i: int| 0 <= i < s.len() - 1 ==> s[i] == s.drop_last()[i]);
    }
}

/// A task added to a well-formed store receives `max_id + 1`, an id strictly
/// greater than every previously assigned id — in particular a fresh one —
/// and the store stays well-formed.
pub proof fn lemma_fresh_id(s: Seq<TaskView>, t: TaskView)
    requires
        store_inv(s),
        max_id(s) < u64::MAX,
        t.id == max_id(s) + 1,
        task_dates_ok(t),
    ensures
        forall|i: int| 0 <= i < s.len() ==> #[trigger] s[i].id < t.id,
        !has_id(s, t.id),
        store_inv(s.push(t)),
{
    lemma_max_id_bound(s);
    assert(forall|i: int| 0 <= i < s.len() ==> s.push(t)[i] == s[i]);
}

/// The ordered collection of tasks.
pub struct TaskStore {
    tasks: Vec<Task>,
}

impl View for TaskStore {
    type V = Seq<TaskView>;

    closed spec fn view(&self) -> Seq<TaskView> {
        views_of(self.tasks@)
    }
}

impl TaskStore {
    /// The store's invariant: see [`store_inv`].
    pub open spec fn wf(&self) -> bool {
        store_inv(self@)
    }

    /// An empty store.
    pub fn new() -> (r: TaskStore)
        ensures
            r@ == Seq::<TaskView>::empty(),
            r.wf(),
    {
        let r = TaskStore { tasks: Vec::new() };
        proof {
            assert(r@ =~= Seq::<TaskView>::empty());
        }
        r
    }

    /// Number of tasks held.
    pub fn len(&self) -> (r: usize)
        ensures
            r == self@.len(),
    {
        self.tasks.len()
    }

    /// Position of the task with id `id`, if any.
    fn find(&self, id: u64) -> (r: Option<usize>)
        ensures
            match r {
                Some(k) => k == task_index(self@, id) && k < self@.len() && self@[k as int].id
                    == id,
                None => !has_id(self@, id) && task_index(self@, id) == -1,
            },
    {
        proof {
            lemma_task_index(self@, id);
        }
        let n = self.tasks.len();
        let mut k: usize = 0;
        while k < n
            invariant
                n == self@.len(),
                0 <= k <= n,
                forall|j: int| 0 <= j < k ==> self@[j].id != id,
            decreases n - k,
        {
            if self.tasks[k].id == id {
                proof {
                    lemma_task_index(self@, id);
                    assert(self@[k as int].id == id);
                    assert(has_id(self@, id));
                    let ki = task_index(self@, id);
                    if ki < k as int {
                        assert(self@[ki].id != id);
                        assert(false);
                    }
                    if ki > k as int {
                        assert(self@[k as int].id != id);
                        assert(false);
                    }
                }
                return Some(k);
            }
            k += 1;
        }
        None
    }

    /// The largest id currently assigned, or 0 when the store is empty.
    fn current_max_id(&self) -> (r: u64)
        ensures
            r == max_id(self@),
    {
        let n = self.tasks.len();
        let mut m: u64 = 0;
        let mut k: usize = 0;
        proof {
            lemma_max_id_bound(self@);
        }
        while k < n
            invariant
                n == self@.len(),
                0 <= k <= n,
                m == max_id(self@.take(k as int)),
            decreases n - k,
        {
            proof {
                lemma_max_id_bound(self@.take(k as int));
                assert(self@.take(k as int + 1).drop_last() =~= self@.take(k as int));
                assert(self@.take(k as int + 1).last() == self@[k as int]);
            }
            if self.tasks[k].id > m {
                m = self.tasks[k].id;
            }
            k += 1;
        }
        proof {
            assert(self@.take(n as int) =~= self@);
        }
        m
    }

    /// Add a new task at the end of the collection.
    ///
    /// Fails with `ValidationError` when the proposed range has
    /// `start > end`, or when the id space is exhausted because some task
    /// already carries `u64::MAX`; the store is unchanged on failure.
    /// On success the new task receives id `max_id + 1` (1 on an empty
    /// store), neutral transient fields, and the given dates and texts, and
    /// the returned task is an exact copy of the stored one.
    pub fn add(&mut self, name: String, start: i64, end: i64, color: String) -> (r: Result<
        Task,
        StoreError,
    >)
        requires
            old(self).wf(),
        ensures
            final(self).wf(),
            match r {
                Ok(t) => {
                    &&& start <= end
                    &&& max_id(old(self)@) < u64::MAX
                    &&& t@ == (TaskView {
                        id: (max_id(old(self)@) + 1) as u64,
                        name: name@,
                        start,
                        end,
                        color: color@,
                        is_dragging: false,
                        drag_offset_days: 0,
                    })
                    &&& final(self)@ == old(self)@.push(t@)
                },
                Err(e) => {
                    &&& e == StoreError::ValidationError
                    &&& (start > end || max_id(old(self)@) == u64::MAX)
                    &&& final(self)@ == old(self)@
                },
            },
    {
        if start > end {
            return Err(StoreError::ValidationError);
        }
        let m = self.current_max_id();
        proof {
            lemma_max_id_bound(self@);
        }
        if m == u64::MAX {
            return Err(StoreError::ValidationError);
        }
        let t = Task::new(m + 1, name, start, end, color);
        let copy = t.clone();
        let ghost prior = self@;
        self.tasks.push(t);
        proof {
            assert(self@ =~= prior.push(copy@));
            lemma_fresh_id(prior, copy@);
        }
        Ok(copy)
    }

    /// Change the display name of the task with id `id`.
    ///
    /// Fails with `NotFoundError` when no task carries the id; otherwise
    /// only that task's name changes.
    pub fn rename(&mut self, id: u64, new_name: String) -> (r: Result<(), StoreError>)
        requires
            old(self).wf(),
        ensures
            final(self).wf(),
            match r {
                Ok(()) => {
                    &&& has_id(old(self)@, id)
                    &&& {
                        let k = task_index(old(self)@, id);
                        final(self)@ == old(self)@.update(
                            k,
                            TaskView { name: new_name@, ..old(self)@[k] },
                        )
                    }
                },
                Err(e) => {
                    &&& e == StoreError::NotFoundError
                    &&& !has_id(old(self)@, id)
                    &&& final(self)@ == old(self)@
                },
            },
    {
        let ghost prior = self@;
        match self.find(id) {
            Some(k) => {
                self.tasks[k].name = new_name;
                proof {
                    let ki = k as int;
                    assert(self@ =~= prior.update(
                        ki,
                        TaskView { name: new_name@, ..prior[ki] },
                    ));
                    assert forall|i: int, j: int| 0 <= i < j < self@.len() implies self@[i].id
                        != self@[j].id by {
                        assert(prior[i].id != prior[j].id);
                    }
                }
                Ok(())
            },
            None => Err(StoreError::NotFoundError),
        }
    }

    /// Remove the task with id `id`, keeping the order of the others and
    /// never renumbering remaining ids.
    ///
    /// Fails with `NotFoundError` when no task carries the id.
    pub fn remove(&mut self, id: u64) -> (r: Result<(), StoreError>)
        requires
            old(self).wf(),
        ensures
            final(self).wf(),
            match r {
                Ok(()) => {
                    &&& has_id(old(self)@, id)
                    &&& final(self)@ == old(self)@.remove(task_index(old(self)@, id))
                },
                Err(e) => {
                    &&& e == StoreError::NotFoundError
                    &&& !has_id(old(self)@, id)
                    &&& final(self)@ == old(self)@
                },
            },
    {
        let ghost prior = self@;
        match self.find(id) {
            Some(k) => {
                let _ = self.tasks.remove(k);
                proof {
                    let ki = k as int;
                    assert(self@ =~= prior.remove(ki));
                    assert forall|i: int, j: int| 0 <= i < j < self@.len() implies self@[i].id
                        != self@[j].id by {
                        let pi = if i < ki {
                            i
                        } else {
                            i + 1
                        };
                        let pj = if j < ki {
                            j
                        } else {
                            j + 1
                        };
                        assert(prior[pi].id != prior[pj].id);
                    }
                }
                Ok(())
            },
            None => Err(StoreError::NotFoundError),
        }
    }

    /// Replace both dates of the task with id `id` atomically: on any
    /// failure neither date has changed.
    ///
    /// Fails with `ValidationError` when `new_start > new_end`, and
    /// otherwise with `NotFoundError` when no task carries the id.
    pub fn reschedule(&mut self, id: u64, new_start: i64, new_end: i64) -> (r: Result<
        (),
        StoreError,
    >)
        requires
            old(self).wf(),
        ensures
            final(self).wf(),
            match r {
                Ok(()) => {
                    &&& new_start <= new_end
                    &&& has_id(old(self)@, id)
                    &&& {
                        let k = task_index(old(self)@, id);
                        final(self)@ == old(self)@.update(
                            k,
                            TaskView { start: new_start, end: new_end, ..old(self)@[k] },
                        )
                    }
                },
                Err(e) => {
                    &&& final(self)@ == old(self)@
                    &&& (e == StoreError::ValidationError || e == StoreError::NotFoundError)
                    &&& (e == StoreError::ValidationError <==> new_start > new_end)
                    &&& (e == StoreError::NotFoundError <==> (new_start <= new_end && !has_id(
                        old(self)@,
                        id,
                    )))
                },
            },
    {
        if new_start > new_end {
            return Err(StoreError::ValidationError);
        }
        let ghost prior = self@;
        match self.find(id) {
            Some(k) => {
                self.tasks[k].start = new_start;
                self.tasks[k].end = new_end;
                proof {
                    let ki = k as int;
                    assert(self@ =~= prior.update(
                        ki,
                        TaskView { start: new_start, end: new_end, ..prior[ki] },
                    ));
                    assert forall|i: int, j: int| 0 <= i < j < self@.len() implies self@[i].id
                        != self@[j].id by {
                        assert(prior[i].id != prior[j].id);
                    }
                }
                Ok(())
            },
            None => Err(StoreError::NotFoundError),
        }
    }

    /// A read-only copy of the whole collection, in order. Later mutations
    /// of the store cannot affect the returned tasks.
    pub fn snapshot(&self) -> (r: Vec<Task>)
        ensures
            views_of(r@) == self@,
            r@.len() == self@.len(),
            forall|i: int| 0 <= i < r@.len() ==> (#[trigger] r@[i])@ == self@[i],
    {
        let n = self.tasks.len();
        let mut out: Vec<Task> = Vec::new();
        let mut k: usize = 0;
        while k < n
            invariant
                n == self@.len(),
                0 <= k <= n,
                out@.len() == k,
                forall|i: int| 0 <= i < k ==> (#[trigger] out@[i])@ == self@[i],
            decreases n - k,
        {
            out.push(self.tasks[k].clone());
            k += 1;
        }
        proof {
            assert(views_of(out@) =~= self@);
        }
        out
    }

    /// A borrowed look at the task with id `id`, if present.
    pub fn get(&self, id: u64) -> (r: Option<&Task>)
        ensures
            match r {
                Some(t) => has_id(self@, id) && t@ == self@[task_index(self@, id)],
                None => !has_id(self@, id),
            },
    {
        match self.find(id) {
            Some(k) => Some(&self.tasks[k]),
            None => None,
        }
    }

    /// Set the transient drag display fields of the task with id `id`,
    /// leaving its persisted fields untouched. Returns whether the task was
    /// found; an unknown id leaves the store unchanged.
    pub(crate) fn set_drag_mark(&mut self, id: u64, dragging: bool, offset_days: i64) -> (r:
        bool)
        requires
            old(self).wf(),
        ensures
            final(self).wf(),
            r == has_id(old(self)@, id),
            r ==> {
                let k = task_index(old(self)@, id);
                final(self)@ == old(self)@.update(
                    k,
                    TaskView {
                        is_dragging: dragging,
                        drag_offset_days: offset_days,
                        ..old(self)@[k]
                    },
                )
            },
            !r ==> final(self)@ == old(self)@,
    {
        let ghost prior = self@;
        match self.find(id) {
            Some(k) => {
                self.tasks[k].is_dragging = dragging;
                self.tasks[k].drag_offset_days = offset_days;
                proof {
                    let ki = k as int;
                    assert(self@ =~= prior.update(
                        ki,
                        TaskView {
                            is_dragging: dragging,
                            drag_offset_days: offset_days,
                            ..prior[ki]
                        },
                    ));
                    assert forall|i: int, j: int| 0 <= i < j < self@.len() implies self@[i].id
                        != self@[j].id by {
                        assert(prior[i].id != prior[j].id);
                    }
                }
                true
            },
            None => false,
        }
    }

    /// Build a store from an explicit task list, validating the store
    /// invariant: every range must have `start <= end` and ids must be
    /// pairwise distinct.
    pub fn from_tasks(tasks: Vec<Task>) -> (r: Result<TaskStore, StoreError>)
        ensures
            match r {
                Ok(s) => {
                    &&& s@ == views_of(tasks@)
                    &&& s.wf()
                },
                Err(e) => {
                    &&& e == StoreError::ValidationError
                    &&& !store_inv(views_of(tasks@))
                },
            },
    {
        let n = tasks.len();
        let ghost v = views_of(tasks@);
        let mut k: usize = 0;
        while k < n
            invariant
                n == tasks@.len(),
                v == views_of(tasks@),
                0 <= k <= n,
                forall|i: int| 0 <= i < k ==> task_dates_ok(#[trigger] v[i]),
                forall|i: int, j: int| 0 <= i < j < k ==> v[i].id != v[j].id,
            decreases n - k,
        {
            if tasks[k].start > tasks[k].end {
                proof {
                    assert(v[k as int] == tasks@[k as int]@);
                    assert(!task_dates_ok(v[k as int]));
                }
                return Err(StoreError::ValidationError);
            }
            let mut j: usize = 0;
            while j < k
                invariant
                    n == tasks@.len(),
                    v == views_of(tasks@),
                    0 <= j <= k < n,
                    forall|i: int| 0 <= i < j ==> v[i].id != v[k as int].id,
                decreases k - j,
            {
                if tasks[j].id == tasks[k].id {
                    proof {
                        assert(v[j as int] == tasks@[j as int]@);
                        assert(v[k as int] == tasks@[k as int]@);
                        assert(v[j as int].id == v[k as int].id);
                    }
                    return Err(StoreError::ValidationError);
                }
                j += 1;
            }
            k += 1;
        }
        Ok(TaskStore { tasks })
    }
}

} // verus!
