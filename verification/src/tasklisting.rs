//! The ordered task listing and its operation handling.

use vstd::prelude::*;

use crate::clock::Moment;
use crate::task::{Task, TaskError, TaskV, RemarkV};
use crate::taskoperation::TaskOperation;

verus! {

/// The user's tasks in priority order: index 0 is the next thing to do.
pub struct TaskListing {
    pub all_tasks: Vec<Task>,
}

impl View for TaskListing {
    type V = Seq<TaskV>;

    open spec fn view(&self) -> Seq<TaskV> {
        self.all_tasks@.map_values(|t: Task| t@)
    }
}

/// The listing after moving the task at `from` so that it sits at `to`:
/// list-splice semantics, every task strictly between the two slots shifts
/// by one toward `from`'s old position.
pub open spec fn reorder_seq(s: Seq<TaskV>, from: int, to: int) -> Seq<TaskV> {
    s.remove(from).insert(to, s[from])
}

/// What one operation does to a listing, given the moment `now` at which it
/// is handled: either the new listing or the error that leaves the listing
/// unchanged.
pub open spec fn apply_op(pre: Seq<TaskV>, op: TaskOperation, now: Moment) -> Result<
    Seq<TaskV>,
    TaskError,
> {
    match op {
        TaskOperation::Add { description } => {
            if description@.len() == 0 {
                Err(TaskError::MissingDescription)
            } else {
                Ok(pre.push(TaskV::new_v(description@, now.utc_seconds)))
            }
        },
        TaskOperation::MarkComplete { task_index, remark } => {
            if task_index >= pre.len() {
                Err(TaskError::NotFound)
            } else if pre[task_index as int].completed_on(now.local_day as int) {
                Err(TaskError::AlreadyCompleted)
            } else {
                Ok(
                    pre.update(
                        task_index as int,
                        TaskV {
                            completions: pre[task_index as int].completions.push(
                                TaskV::completion_at(now, remark),
                            ),
                            ..pre[task_index as int]
                        },
                    ),
                )
            }
        },
        TaskOperation::AddRemark { task_index, remark } => {
            if task_index >= pre.len() {
                Err(TaskError::NotFound)
            } else {
                Ok(
                    pre.update(
                        task_index as int,
                        TaskV {
                            remarks: pre[task_index as int].remarks.push(
                                RemarkV { datetime: now.utc_seconds, text: remark@ },
                            ),
                            ..pre[task_index as int]
                        },
                    ),
                )
            }
        },
        TaskOperation::Reorder { from, to } => {
            if from >= pre.len() || to >= pre.len() {
                Err(TaskError::NotFound)
            } else if from == to {
                Err(TaskError::RedundantMove)
            } else {
                Ok(reorder_seq(pre, from as int, to as int))
            }
        },
    }
}

impl TaskListing {
    /// Every task in the listing is well formed.
    pub open spec fn wf(self) -> bool {
        forall|i: int| 0 <= i < self@.len() ==> (#[trigger] self@[i]).wf()
    }

    /// Create a new, empty task listing.
    pub fn new() -> (r: TaskListing)
        ensures
            r@ =~= Seq::<TaskV>::empty(),
            r.wf(),
    {
        TaskListing { all_tasks: Vec::new() }
    }

    /// Push a new task onto the end of the listing.
    pub fn push(&mut self, task: Task)
        ensures
            final(self)@ == old(self)@.push(task@),
            old(self).wf() && task@.wf() ==> final(self).wf(),
    {
        self.all_tasks.push(task);
        proof {
            assert(self@ =~= old(self)@.push(self.all_tasks@.last()@));
        }
    }

    /// The total number of tasks in the listing.
    pub fn total_tasks(&self) -> (n: usize)
        ensures
            n == self@.len(),
    {
        self.all_tasks.len()
    }

    /// The tasks, in priority order.
    pub fn task_iter(&self) -> (r: &Vec<Task>)
        ensures
            r@.map_values(|t: Task| t@) == self@,
    {
        &self.all_tasks
    }

    /// Get a reference to a task by its current index, or `None` when the
    /// index is out of bounds.
    pub fn task_from_index(&self, index: usize) -> (r: Option<&Task>)
        ensures
            match r {
                Some(t) => index < self@.len() && t@ == self@[index as int],
                None => index >= self@.len(),
            },
    {
        if index >= self.all_tasks.len() {
            return None;
        }
        Some(&self.all_tasks[index])
    }

    /// Move a task from one index to another.  Every task whose index lay
    /// between the two slots shifts by one toward `from`'s old position;
    /// fails with `NotFound` when either index is out of bounds and with
    /// `RedundantMove` when the two are equal.
    pub fn move_task(&mut self, from: usize, to: usize) -> (r: Result<(), TaskError>)
        ensures
            match r {
                Ok(()) => from < old(self)@.len() && to < old(self)@.len() && from != to
                    && final(self)@ == reorder_seq(old(self)@, from as int, to as int),
                Err(e) => final(self)@ == old(self)@ && ((e == TaskError::NotFound && (from
                    >= old(self)@.len() || to >= old(self)@.len())) || (e
                    == TaskError::RedundantMove && from < old(self)@.len() && to < old(
                    self,
                )@.len() && from == to)),
            },
            old(self).wf() ==> final(self).wf(),
    {
        if from >= self.all_tasks.len() || to >= self.all_tasks.len() {
            return Err(TaskError::NotFound);
        }
        if from == to {
            return Err(TaskError::RedundantMove);
        }
        let element_moving = self.all_tasks.remove(from);
        self.all_tasks.insert(to, element_moving);
        proof {
            assert(final(self)@ =~= reorder_seq(old(self)@, from as int, to as int));
            assert forall|i: int| 0 <= i < final(self)@.len() implies (
            #[trigger] final(self)@[i]).wf() || !old(self).wf() by {
                if old(self).wf() {
                    assert(final(self)@[i] == old(self)@[if i == to {
                        from as int
                    } else if i < to && i < from {
                        i
                    } else if i < to {
                        i + 1
                    } else if i <= from {
                        i - 1
                    } else {
                        i
                    }]);
                }
            }
        }
        Ok(())
    }

    /// Handle an operation at an explicitly given moment.  On success the
    /// listing is updated in place; on failure it is left unchanged, with
    /// no partial mutation.  The outcome is exactly [`apply_op`] of the old
    /// listing, the operation and the moment.
    pub fn handle_operation_at(&mut self, op: &TaskOperation, now: &Moment) -> (r: Result<
        (),
        TaskError,
    >)
        requires
            now.wf(),
        ensures
            match apply_op(old(self)@, *op, *now) {
                Ok(s) => r is Ok && final(self)@ == s,
                Err(e) => r == Err::<(), TaskError>(e) && final(self)@ == old(self)@,
            },
            old(self).wf() ==> final(self).wf(),
    {
        match op {
            TaskOperation::Add { description } => {
                if description.as_str().unicode_len() == 0 {
                    return Err(TaskError::MissingDescription);
                }
                let new_task = Task::new(description.clone(), now.utc_seconds);
                self.push(new_task);
            },
            TaskOperation::MarkComplete { task_index, remark } => {
                if *task_index >= self.all_tasks.len() {
                    return Err(TaskError::NotFound);
                }
                let mut matching_task = self.all_tasks.remove(*task_index);
                let res = matching_task.mark_complete(remark, now);
                self.all_tasks.insert(*task_index, matching_task);
                proof {
                    lemma_map_values_remove_insert(
                        old(self).all_tasks@,
                        self.all_tasks@,
                        *task_index as int,
                    );
                }
                if let Err(e) = res {
                    return Err(e);
                }
            },
            TaskOperation::AddRemark { task_index, remark } => {
                if *task_index >= self.all_tasks.len() {
                    return Err(TaskError::NotFound);
                }
                let mut matching_task = self.all_tasks.remove(*task_index);
                let res = matching_task.add_remark(remark.clone(), now);
                self.all_tasks.insert(*task_index, matching_task);
                proof {
                    lemma_map_values_remove_insert(
                        old(self).all_tasks@,
                        self.all_tasks@,
                        *task_index as int,
                    );
                }
                if let Err(e) = res {
                    return Err(e);
                }
            },
            TaskOperation::Reorder { from, to } => {
                let r = self.move_task(*from, *to);
                if let Err(e) = r {
                    return Err(e);
                }
            },
        }
        Ok(())
    }

    /// Handle an operation at the moment the wall clock reports.  The
    /// outcome is [`apply_op`] at some well-formed moment; which moment
    /// cannot be promised, since the clock moves between calls.
    pub fn handle_operation(&mut self, op: &TaskOperation) -> (r: Result<(), TaskError>)
        ensures
            exists|now: Moment|
                #![auto]
                now.wf() && match apply_op(old(self)@, *op, now) {
                    Ok(s) => r is Ok && final(self)@ == s,
                    Err(e) => r == Err::<(), TaskError>(e) && final(self)@ == old(self)@,
                },
            old(self).wf() ==> final(self).wf(),
    {
        let now = Moment::now();
        let r = self.handle_operation_at(op, &now);
        r
    }
}

/// Law: adding a task with a non-empty description always succeeds and
/// grows the listing by exactly one, appending a fresh task (revision 0,
/// no completions, no remarks) behind the unchanged existing tasks; adding
/// with an empty description always fails with `MissingDescription`.
pub proof fn lemma_add_operation(pre: Seq<TaskV>, description: String, now: Moment)
    ensures
        description@.len() > 0 ==> (apply_op(
            pre,
            TaskOperation::Add { description },
            now,
        ) matches Ok(s) && s.len() == pre.len() + 1 && s[pre.len() as int] == TaskV::new_v(
            description@,
            now.utc_seconds,
        ) && s.take(pre.len() as int) == pre),
        description@.len() == 0 ==> apply_op(pre, TaskOperation::Add { description }, now)
            == Err::<Seq<TaskV>, TaskError>(TaskError::MissingDescription),
{
    if description@.len() > 0 {
        let s = pre.push(TaskV::new_v(description@, now.utc_seconds));
        assert(s.take(pre.len() as int) =~= pre);
    }
}

/// Law: reordering from an index to the same index never succeeds: it
/// fails with `NotFound` when the index is out of bounds (in particular on
/// an empty listing, where `NotFound` wins) and with `RedundantMove`
/// otherwise, whatever the listing holds.
pub proof fn lemma_reorder_same_index(pre: Seq<TaskV>, index: usize, now: Moment)
    ensures
        apply_op(pre, TaskOperation::Reorder { from: index, to: index }, now) == Err::<
            Seq<TaskV>,
            TaskError,
        >(
            if index >= pre.len() {
                TaskError::NotFound
            } else {
                TaskError::RedundantMove
            },
        ),
{
}

/// Law: a reorder is undone by the inverse reorder.  Moving a task from
/// `from` to `to` and then, with no mutation in between, from `to` back to
/// `from` restores the original listing exactly.
pub proof fn lemma_reorder_round_trip(
    pre: Seq<TaskV>,
    from: usize,
    to: usize,
    m1: Moment,
    m2: Moment,
)
    requires
        from < pre.len(),
        to < pre.len(),
        from != to,
    ensures
        apply_op(pre, TaskOperation::Reorder { from, to }, m1) matches Ok(s1) && apply_op(
            s1,
            TaskOperation::Reorder { from: to, to: from },
            m2,
        ) == Ok::<Seq<TaskV>, TaskError>(pre),
{
    let s1 = reorder_seq(pre, from as int, to as int);
    assert(s1.len() == pre.len());
    assert(s1[to as int] == pre[from as int]);
    let s2 = reorder_seq(s1, to as int, from as int);
    assert(s1.remove(to as int) =~= pre.remove(from as int));
    assert(s2 =~= pre);
}

/// Law: marking the same task complete twice within the same local day:
/// the first application succeeds and appends exactly one completion to
/// that task; the second fails with `AlreadyCompleted`, so the task's
/// completion count stays at its incremented value.
pub proof fn lemma_mark_complete_twice(
    pre: Seq<TaskV>,
    index: usize,
    remark1: Option<String>,
    remark2: Option<String>,
    m1: Moment,
    m2: Moment,
)
    requires
        index < pre.len(),
        !pre[index as int].completed_on(m1.local_day as int),
        m2.local_day == m1.local_day,
    ensures
        apply_op(
            pre,
            TaskOperation::MarkComplete { task_index: index, remark: remark1 },
            m1,
        ) matches Ok(s1) && s1[index as int].completions.len() == pre[
            index as int
        ].completions.len() + 1 && apply_op(
            s1,
            TaskOperation::MarkComplete { task_index: index, remark: remark2 },
            m2,
        ) == Err::<Seq<TaskV>, TaskError>(TaskError::AlreadyCompleted),
{
    let s1 = apply_op(
        pre,
        TaskOperation::MarkComplete { task_index: index, remark: remark1 },
        m1,
    )->Ok_0;
    let cs = s1[index as int].completions;
    assert(cs[cs.len() - 1].local_day == m2.local_day);
    assert(s1[index as int].completed_on(m2.local_day as int));
}

/// At most one completion per local calendar day.
pub open spec fn days_unique(t: TaskV) -> bool {
    forall|i: int, j: int|
        0 <= i < j < t.completions.len() ==> (#[trigger] t.completions[i]).local_day != (
        #[trigger] t.completions[j]).local_day
}

/// Law: operation handling enforces the one-completion-per-day invariant.
/// If every task of the listing has at most one completion per local day,
/// the same holds after any operation: in particular a `MarkComplete` only
/// succeeds when the target has no completion for the day yet, so the day
/// it appends stays unique.
pub proof fn lemma_one_completion_per_day(
    pre: Seq<TaskV>,
    op: TaskOperation,
    now: Moment,
)
    requires
        forall|k: int| 0 <= k < pre.len() ==> days_unique(#[trigger] pre[k]),
    ensures
        apply_op(pre, op, now) matches Ok(s) ==> forall|k: int|
            0 <= k < s.len() ==> days_unique(#[trigger] s[k]),
{
    match apply_op(pre, op, now) {
        Ok(s) => {
            match op {
                TaskOperation::Add { description } => {
                    assert forall|k: int| 0 <= k < s.len() implies days_unique(
                        #[trigger] s[k],
                    ) by {
                        if k < pre.len() {
                            assert(days_unique(pre[k]));
                        }
                    }
                },
                TaskOperation::MarkComplete { task_index, remark } => {
                    assert forall|k: int| 0 <= k < s.len() implies days_unique(
                        #[trigger] s[k],
                    ) by {
                        assert(days_unique(pre[k]));
                        if k == task_index {
                            let cs = s[k].completions;
                            assert forall|i: int, j: int|
                                0 <= i < j < cs.len() implies (#[trigger] cs[i]).local_day != (
                            #[trigger] cs[j]).local_day by {
                                if j == cs.len() - 1 {
                                    assert(!pre[k].completed_on(now.local_day as int));
                                    assert(pre[k].completions[i].local_day as int
                                        != now.local_day as int);
                                }
                            }
                        }
                    }
                },
                TaskOperation::AddRemark { task_index, remark } => {
                    assert forall|k: int| 0 <= k < s.len() implies days_unique(
                        #[trigger] s[k],
                    ) by {
                        assert(days_unique(pre[k]));
                        assert(s[k].completions == pre[k].completions);
                    }
                },
                TaskOperation::Reorder { from, to } => {
                    assert forall|k: int| 0 <= k < s.len() implies days_unique(
                        #[trigger] s[k],
                    ) by {
                        assert(s[k] == pre[if k == to {
                            from as int
                        } else if k < to && k < from {
                            k
                        } else if k < to {
                            k + 1
                        } else if k <= from {
                            k - 1
                        } else {
                            k
                        }]);
                        assert(days_unique(s[k]));
                    }
                },
            }
        },
        Err(e) => {},
    }
}

/// Law: addressing the slot one past the end — `MarkComplete` or
/// `AddRemark` with a task index equal to the listing's length — always
/// fails with `NotFound`, on a listing of any size including zero.
pub proof fn lemma_index_one_past_end(
    pre: Seq<TaskV>,
    index: usize,
    remark: Option<String>,
    text: String,
    now: Moment,
)
    requires
        index == pre.len(),
    ensures
        apply_op(pre, TaskOperation::MarkComplete { task_index: index, remark }, now) == Err::<
            Seq<TaskV>,
            TaskError,
        >(TaskError::NotFound),
        apply_op(pre, TaskOperation::AddRemark { task_index: index, remark: text }, now) == Err::<
            Seq<TaskV>,
            TaskError,
        >(TaskError::NotFound),
{
}

/// After removing the task at `i` and re-inserting a task at the same
/// place, the listing's model is the old model with slot `i` replaced.
proof fn lemma_map_values_remove_insert(pre: Seq<Task>, post: Seq<Task>, i: int)
    requires
        0 <= i < pre.len(),
        post == pre.remove(i).insert(i, post[i]),
        pre.len() == post.len(),
    ensures
        post.map_values(|t: Task| t@) == pre.map_values(|t: Task| t@).update(i, post[i]@),
{
    assert(post.map_values(|t: Task| t@) =~= pre.map_values(|t: Task| t@).update(i, post[i]@));
}

} // verus!

