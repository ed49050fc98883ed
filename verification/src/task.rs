//! The data model: tasks, their revision history, completions and remarks.

use vstd::prelude::*;

use crate::clock::{Moment, MAX_DAY};

verus! {

/// Errors for operations on tasks and task listings.
#[derive(Clone, Copy, Debug, PartialEq, Eq, Structural)]
pub enum TaskError {
    /// User tried to add a task with an empty description
    MissingDescription,
    /// User tried to complete a task that was already completed for today
    AlreadyCompleted,
    /// User tried to do something to a task that didn't exist
    NotFound,
    /// User tried to move a task to an index it's already at
    RedundantMove,
    /// Failed to store a task listing to durable storage
    StoreFailed,
}

impl TaskError {
    /// A short human-readable account of the error.
    pub fn description(&self) -> (r: &'static str)
        ensures
            match self {
                TaskError::MissingDescription => r@ == "Can't add a task without a description"@,
                TaskError::AlreadyCompleted => r@ == "Task was already completed"@,
                TaskError::NotFound => r@ == "Couldn't find task"@,
                TaskError::RedundantMove => r@ == "Can't move task to its own index"@,
                TaskError::StoreFailed => r@ == "Can't store task data to disk"@,
            },
    {
        match self {
            TaskError::MissingDescription => "Can't add a task without a description",
            TaskError::AlreadyCompleted => "Task was already completed",
            TaskError::NotFound => "Couldn't find task",
            TaskError::RedundantMove => "Can't move task to its own index",
            TaskError::StoreFailed => "Can't store task data to disk",
        }
    }
}

/// A remark on some task.  It is used in two ways: attached to a
/// [`Completion`] when the task is completed with a remark, or attached to
/// the [`Task`] itself on some given day.
pub struct Remark {
    /// Seconds since the UTC epoch at which the remark was made
    pub datetime: u64,
    /// The remark itself
    pub remark: String,
}

/// Mathematical model of a [`Remark`].
pub struct RemarkV {
    pub datetime: u64,
    pub text: Seq<char>,
}

impl View for Remark {
    type V = RemarkV;

    open spec fn view(&self) -> RemarkV {
        RemarkV { datetime: self.datetime, text: self.remark@ }
    }
}

/// A [`Task`] being completed on a particular day.
pub struct Completion {
    /// Seconds since the UTC epoch at which this completion was recorded
    pub datetime: u64,
    /// The local calendar day the completion fell on, as a day number
    /// (January 1 of year 1 is day 1)
    pub local_day: u32,
    /// Local hour of day at which the completion was recorded, 0 to 23
    pub hour: u32,
    /// Local minute of the hour, 0 to 59
    pub minute: u32,
    /// Optional remark made when marking the task as complete
    pub remark: Option<Remark>,
}

/// Mathematical model of a [`Completion`].
pub struct CompletionV {
    pub datetime: u64,
    pub local_day: u32,
    pub hour: u32,
    pub minute: u32,
    pub remark: Option<RemarkV>,
}

impl View for Completion {
    type V = CompletionV;

    open spec fn view(&self) -> CompletionV {
        CompletionV {
            datetime: self.datetime,
            local_day: self.local_day,
            hour: self.hour,
            minute: self.minute,
            remark: match self.remark {
                Some(r) => Some(r@),
                None => None,
            },
        }
    }
}

impl Completion {
    /// The recorded time of day is valid and the day number in range.
    pub open spec fn wf(self) -> bool {
        self@.wf()
    }
}

impl CompletionV {
    pub open spec fn wf(self) -> bool {
        &&& self.hour < 24
        &&& self.minute < 60
        &&& self.local_day <= MAX_DAY
    }
}

/// The state of a task at some point in time: the user can revise the
/// description, and each revision is kept.
pub struct TaskDetails {
    /// Seconds since the UTC epoch at which these details were set
    pub revised: u64,
    /// A monotonically increasing revision ID, starting at 0
    pub revision_id: u64,
    /// A description of the task
    pub description: String,
    /// `None` if the time of day doesn't matter, else the time of day by
    /// which the item needs to be completed
    pub sync_time: Option<u32>,
}

/// Mathematical model of a [`TaskDetails`].
pub struct DetailsV {
    pub revised: u64,
    pub revision_id: u64,
    pub description: Seq<char>,
    pub sync_time: Option<u32>,
}

impl View for TaskDetails {
    type V = DetailsV;

    open spec fn view(&self) -> DetailsV {
        DetailsV {
            revised: self.revised,
            revision_id: self.revision_id,
            description: self.description@,
            sync_time: self.sync_time,
        }
    }
}

impl TaskDetails {
    /// Get a reference to the description string for these details.
    pub fn description(&self) -> (r: &String)
        ensures
            r@ == self@.description,
    {
        &self.description
    }
}

/// A task: a history of revisions to its details (newest first), the days
/// on which it was completed, and freeform remarks.
pub struct Task {
    /// A record of revisions made to the details, most recent revision
    /// first
    pub detail_history: Vec<TaskDetails>,
    /// A record of completions, in the order they were recorded
    pub completions: Vec<Completion>,
    /// A record of remarks made on the task, most recent last
    pub remarks: Vec<Remark>,
}

/// Mathematical model of a [`Task`].
pub struct TaskV {
    pub details: Seq<DetailsV>,
    pub completions: Seq<CompletionV>,
    pub remarks: Seq<RemarkV>,
}

impl View for Task {
    type V = TaskV;

    open spec fn view(&self) -> TaskV {
        TaskV {
            details: self.detail_history@.map_values(|d: TaskDetails| d@),
            completions: self.completions@.map_values(|c: Completion| c@),
            remarks: self.remarks@.map_values(|r: Remark| r@),
        }
    }
}

impl TaskV {
    /// A task always has at least one revision; revision IDs strictly
    /// decrease from the most recent entry on, and every completion is
    /// well formed.
    pub open spec fn wf(self) -> bool {
        &&& self.details.len() >= 1
        &&& forall|i: int, j: int|
            0 <= i < j < self.details.len() ==> self.details[i].revision_id
                > self.details[j].revision_id
        &&& forall|i: int| 0 <= i < self.completions.len() ==> (#[trigger] self.completions[i]).wf()
    }

    /// True if a completion exists for the given local calendar day.
    pub open spec fn completed_on(self, day: int) -> bool {
        exists|i: int|
            0 <= i < self.completions.len() && (#[trigger] self.completions[i]).local_day as int
                == day
    }

    /// The model of a freshly created task: one revision, no completions,
    /// no remarks.
    pub open spec fn new_v(description: Seq<char>, now_utc: u64) -> TaskV {
        TaskV {
            details: seq![
                DetailsV { revised: now_utc, revision_id: 0, description, sync_time: None },
            ],
            completions: Seq::empty(),
            remarks: Seq::empty(),
        }
    }

    /// The completion recorded for a `MarkComplete` at moment `now` with the
    /// given optional remark text.
    pub open spec fn completion_at(now: Moment, remark: Option<String>) -> CompletionV {
        CompletionV {
            datetime: now.utc_seconds,
            local_day: now.local_day,
            hour: now.hour,
            minute: now.minute,
            remark: match remark {
                Some(s) => Some(RemarkV { datetime: now.utc_seconds, text: s@ }),
                None => None,
            },
        }
    }
}

/// The first completion in `s` that fell on local day `day`, if any.
pub open spec fn find_completion(s: Seq<CompletionV>, day: int) -> Option<CompletionV>
    decreases s.len(),
{
    if s.len() == 0 {
        None
    } else if s[0].local_day as int == day {
        Some(s[0])
    } else {
        find_completion(s.drop_first(), day)
    }
}

/// `find_completion` succeeds exactly when some completion fell on `day`,
/// and then yields a completion of that day.
pub proof fn lemma_find_completion(s: Seq<CompletionV>, day: int)
    ensures
        (find_completion(s, day) is Some) <==> exists|i: int|
            0 <= i < s.len() && (#[trigger] s[i]).local_day as int == day,
        find_completion(s, day) matches Some(c) ==> c.local_day as int == day && exists|i: int|
            0 <= i < s.len() && s[i] == c,
    decreases s.len(),
{
    if s.len() != 0 {
        if s[0].local_day as int == day {
            assert(s[0].local_day as int == day);
        } else {
            lemma_find_completion(s.drop_first(), day);
            if find_completion(s.drop_first(), day) is Some {
                let i = choose|i: int|
                    0 <= i < s.drop_first().len() && (#[trigger] s.drop_first()[i]).local_day
                        as int == day;
                assert(s[i + 1].local_day as int == day);
            }
            if exists|i: int| 0 <= i < s.len() && (#[trigger] s[i]).local_day as int == day {
                let i = choose|i: int|
                    0 <= i < s.len() && (#[trigger] s[i]).local_day as int == day;
                assert(s.drop_first()[i - 1].local_day as int == day);
            }
            if find_completion(s.drop_first(), day) is Some {
                let c = find_completion(s.drop_first(), day)->Some_0;
                let i = choose|i: int| 0 <= i < s.drop_first().len() && s.drop_first()[i] == c;
                assert(s[i + 1] == c);
            }
        }
    }
}

impl Default for Task {
    /// An empty shell of a task: no revisions, completions or remarks.
    fn default() -> (t: Task)
        ensures
            t@.details.len() == 0,
            t@.completions.len() == 0,
            t@.remarks.len() == 0,
    {
        Task { detail_history: Vec::new(), completions: Vec::new(), remarks: Vec::new() }
    }
}

impl Task {
    /// Create a new task with revision 0 of its details, recorded at
    /// `now_utc` seconds since the UTC epoch.
    pub fn new(description: String, now_utc: u64) -> (t: Task)
        ensures
            t@ == TaskV::new_v(description@, now_utc),
            t@.wf(),
    {
        let details = TaskDetails {
            revised: now_utc,
            revision_id: 0,
            description,
            sync_time: None,
        };
        let mut detail_history = Vec::new();
        detail_history.push(details);
        let t = Task { detail_history, completions: Vec::new(), remarks: Vec::new() };
        proof {
            assert(t@.details =~= TaskV::new_v(t.detail_history[0].description@,
                now_utc).details);
            assert(t@.completions =~= Seq::<CompletionV>::empty());
            assert(t@.remarks =~= Seq::<RemarkV>::empty());
        }
        t
    }

    /// Get the current details: the most recent revision.
    pub fn details(&self) -> (r: Option<&TaskDetails>)
        ensures
            match r {
                Some(d) => self@.details.len() > 0 && d@ == self@.details[0],
                None => self@.details.len() == 0,
            },
    {
        if self.detail_history.len() == 0 {
            None
        } else {
            Some(&self.detail_history[0])
        }
    }

    /// The current description of the task.
    pub fn description(&self) -> (r: &String)
        requires
            self@.wf(),
        ensures
            r@ == self@.details[0].description,
    {
        &self.detail_history[0].description
    }

    /// Seconds since the UTC epoch at which the task was first created: the
    /// `revised` time of its oldest revision.
    pub fn created(&self) -> (r: Option<u64>)
        ensures
            match r {
                Some(ts) => self@.details.len() > 0 && ts == self@.details.last().revised,
                None => self@.details.len() == 0,
            },
    {
        if self.detail_history.len() == 0 {
            None
        } else {
            Some(self.detail_history[self.detail_history.len() - 1].revised)
        }
    }

    /// Whether the task already existed on the given UTC calendar day
    /// (seconds since the UTC epoch, divided by 86,400): true when the day
    /// is not earlier than the UTC day the task was created on.
    pub fn existed_on(&self, utc_day: u64) -> (r: bool)
        requires
            self@.wf(),
        ensures
            r == (self@.details.last().revised / 86400 <= utc_day),
    {
        let created = self.detail_history[self.detail_history.len() - 1].revised;
        created / 86400 <= utc_day
    }

    /// Returns true if the task was completed on the given local day.
    pub fn completed_on(&self, day: u32) -> (r: bool)
        ensures
            r == self@.completed_on(day as int),
    {
        let mut i: usize = 0;
        while i < self.completions.len()
            invariant
                i <= self.completions.len(),
                forall|j: int| 0 <= j < i ==> (#[trigger] self@.completions[j]).local_day != day,

            decreases self.completions.len() - i,
        {
            if self.completions[i].local_day == day {
                assert(self@.completions[i as int].local_day == day);
                return true;
            }
            i += 1;
        }
        false
    }

    /// The first completion recorded for the given local day `today`, if
    /// the task was completed that day; `None` otherwise.
    pub fn completed_today(&self, today: u32) -> (r: Option<&Completion>)
        ensures
            match r {
                Some(c) => find_completion(self@.completions, today as int) == Some(c@),
                None => find_completion(self@.completions, today as int) is None,
            },
            (r is Some) == self@.completed_on(today as int),
    {
        proof {
            lemma_find_completion(self@.completions, today as int);
            assert(self@.completions.skip(0) =~= self@.completions);
        }
        let mut i: usize = 0;
        while i < self.completions.len()
            invariant
                i <= self.completions.len(),
                forall|j: int| 0 <= j < i ==> (#[trigger] self@.completions[j]).local_day
                    != today,
                find_completion(self@.completions, today as int) == find_completion(
                    self@.completions.skip(i as int),
                    today as int,
                ),
            decreases self.completions.len() - i,
        {
            proof {
                let rest = self@.completions.skip(i as int);
                assert(rest.len() > 0 && rest[0] == self@.completions[i as int]);
                assert(rest.drop_first() =~= self@.completions.skip(i as int + 1));
            }
            if self.completions[i].local_day == today {
                assert(self@.completions[i as int].local_day == today);
                return Some(&self.completions[i]);
            }
            i += 1;
        }
        proof {
            assert(self@.completions.skip(i as int) =~= Seq::<CompletionV>::empty());
        }
        None
    }

    /// Add a freeform remark to the task (not associated with a completion).
    pub fn add_remark(&mut self, remark: String, now: &Moment) -> (r: Result<(), TaskError>)
        ensures
            r is Ok,
            final(self)@ == (TaskV {
                remarks: old(self)@.remarks.push(
                    RemarkV { datetime: now.utc_seconds, text: remark@ },
                ),
                ..old(self)@
            }),
            old(self)@.wf() ==> final(self)@.wf(),
    {
        self.remarks.push(Remark { datetime: now.utc_seconds, remark });
        proof {
            assert(self@.remarks =~= old(self)@.remarks.push(self.remarks@.last()@));
            assert(self@.details =~= old(self)@.details);
            assert(self@.completions =~= old(self)@.completions);
        }
        Ok(())
    }

    /// Mark the task as complete for the local day of `now`.  Fails with
    /// `AlreadyCompleted`, changing nothing, if a completion for that day
    /// already exists; otherwise appends a completion recorded at `now`
    /// carrying the optional remark.
    pub fn mark_complete(&mut self, remark: &Option<String>, now: &Moment) -> (r: Result<
        (),
        TaskError,
    >)
        requires
            now.wf(),
        ensures
            match r {
                Ok(()) => !old(self)@.completed_on(now.local_day as int) && final(self)@ == (TaskV {
                    completions: old(self)@.completions.push(
                        TaskV::completion_at(*now, *remark),
                    ),
                    ..old(self)@
                }),
                Err(e) => e == TaskError::AlreadyCompleted && old(self)@.completed_on(
                    now.local_day as int,
                ) && final(self)@ == old(self)@,
            },
            old(self)@.wf() ==> final(self)@.wf(),
    {
        if self.completed_today(now.local_day).is_some() {
            return Err(TaskError::AlreadyCompleted);
        }
        let rem: Option<Remark> = match remark {
            Some(text) => Some(Remark { datetime: now.utc_seconds, remark: text.clone() }),
            None => None,
        };
        self.completions.push(
            Completion {
                datetime: now.utc_seconds,
                local_day: now.local_day,
                hour: now.hour,
                minute: now.minute,
                remark: rem,
            },
        );
        proof {
            assert(self@.completions =~= old(self)@.completions.push(
                TaskV::completion_at(*now, *remark),
            ));
            assert(self@.details =~= old(self)@.details);
            assert(self@.remarks =~= old(self)@.remarks);
        }
        Ok(())
    }

    /// The number of recorded completions.
    pub fn total_completions(&self) -> (n: usize)
        ensures
            n == self@.completions.len(),
    {
        self.completions.len()
    }
}

} // verus!
