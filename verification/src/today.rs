//! The "today" checklist: one row per task with checkbox, index,
//! description, completion time and a marker on the next task to do.

use vstd::prelude::*;

use crate::task::{find_completion, TaskV};
use crate::tasklisting::TaskListing;
use crate::textfmt::{
    compute_field_width, dec_str, field_width, left_aligned, push_char, push_left_aligned,
    push_spaces, push_two_digit, two_digit_str, u64_to_string, lemma_dec_str_len, MAX_FIELD,
};

verus! {

/// The checkbox cell: done or not done today, four characters wide.
pub open spec fn checkbox(t: TaskV, today: int) -> Seq<char> {
    if t.completed_on(today) {
        seq!['[', 'x', ']', ' ']
    } else {
        seq!['[', ' ', ']', ' ']
    }
}

/// The completion-time cell, five characters: `HH:MM` local time of the
/// first completion recorded for `today`, or a placeholder when the task is
/// not completed today.
pub open spec fn time_cell(t: TaskV, today: int) -> Seq<char> {
    match find_completion(t.completions, today) {
        Some(c) => two_digit_str(c.hour as int) + seq![':'] + two_digit_str(c.minute as int),
        None => seq!['-', '-', ':', '-', '-'],
    }
}

/// Whether row `i` carries the "(next)" marker: the first task in listing
/// order that is not completed today.
pub open spec fn is_next(s: Seq<TaskV>, today: int, i: int) -> bool {
    &&& !s[i].completed_on(today)
    &&& forall|j: int| 0 <= j < i ==> (#[trigger] s[j]).completed_on(today)
}

/// The character count of the longest current description in the listing.
pub open spec fn max_desc_len(s: Seq<TaskV>) -> nat
    decreases s.len(),
{
    if s.len() == 0 {
        0nat
    } else if max_desc_len(s.drop_last()) > s.last().details[0].description.len() {
        max_desc_len(s.drop_last())
    } else {
        s.last().details[0].description.len()
    }
}

/// One row of the today view.
pub open spec fn today_row(
    t: TaskV,
    n: nat,
    today: int,
    id_width: nat,
    desc_width: nat,
    next: bool,
) -> Seq<char> {
    checkbox(t, today) + left_aligned(dec_str(n), id_width) + left_aligned(
        t.details[0].description,
        desc_width,
    ) + left_aligned(time_cell(t, today), field_width(5)) + if next {
        seq!['(', 'n', 'e', 'x', 't', ')']
    } else {
        Seq::<char>::empty()
    }
}

impl TaskListing {
    /// The character count of the longest description in the listing.
    pub fn max_description_len(&self) -> (r: usize)
        requires
            self.wf(),
        ensures
            r == max_desc_len(self@),
    {
        let mut m: usize = 0;
        let mut i: usize = 0;
        proof {
            assert(self@.take(0) =~= Seq::<TaskV>::empty());
        }
        while i < self.all_tasks.len()
            invariant
                self.wf(),
                i <= self@.len(),
                self@.len() == self.all_tasks.len(),
                m == max_desc_len(self@.take(i as int)),
            decreases self.all_tasks.len() - i,
        {
            proof {
                assert(self@[i as int].wf());
            }
            let len = self.all_tasks[i].description().as_str().unicode_len();
            if len > m {
                m = len;
            }
            proof {
                assert(self@.take(i + 1).drop_last() =~= self@.take(i as int));
                assert(self@.take(i + 1).last() == self@[i as int]);
            }
            i += 1;
        }
        proof {
            assert(self@.take(self@.len() as int) =~= self@);
        }
        m
    }

    /// Render the today view: one row per task in listing order, with a
    /// done/not-done checkbox for `today`, the task's index, its
    /// description, the local time it was completed today (or a
    /// placeholder), and the "(next)" marker on the first task not yet
    /// completed today.  Column widths grow in steps of the indent unit to
    /// fit the longest value.
    pub fn list_for_today(&self, today: u32) -> (rows: Vec<String>)
        requires
            self.wf(),
            max_desc_len(self@) <= MAX_FIELD,
        ensures
            rows@.len() == self@.len(),
            forall|i: int|
                0 <= i < self@.len() ==> rows@[i]@ == today_row(
                    self@[i],
                    i as nat,
                    today as int,
                    field_width(dec_str(self@.len()).len()),
                    field_width(max_desc_len(self@)),
                    is_next(self@, today as int, i),
                ),
    {
        let ghost id_w = field_width(dec_str(self@.len()).len());
        let ghost desc_w = field_width(max_desc_len(self@));
        let count = self.all_tasks.len();
        let count_str = u64_to_string(count as u64);
        proof {
            lemma_dec_str_len(count as nat);
        }
        let id_width = compute_field_width(count_str.as_str().unicode_len());
        let desc_width = compute_field_width(self.max_description_len());
        let mut rows: Vec<String> = Vec::new();
        let mut next_marked = false;
        let mut n: usize = 0;
        while n < count
            invariant
                self.wf(),
                max_desc_len(self@) <= MAX_FIELD,
                count == self@.len(),
                count == self.all_tasks.len(),
                id_width == id_w,
                desc_w == field_width(max_desc_len(self@)),
                desc_width == desc_w,
                n <= count,
                rows@.len() == n,
                next_marked == exists|j: int|
                    0 <= j < n && !(#[trigger] self@[j]).completed_on(today as int),
                forall|i: int|
                    0 <= i < n ==> rows@[i]@ == today_row(
                        self@[i],
                        i as nat,
                        today as int,
                        id_w,
                        desc_w,
                        is_next(self@, today as int, i),
                    ),
            decreases count - n,
        {
            proof {
                assert(self@[n as int].wf());
            }
            let task = &self.all_tasks[n];
            let mut row = String::new();
            let done = task.completed_today(today);
            if done.is_some() {
                push_char(&mut row, '[');
                push_char(&mut row, 'x');
                push_char(&mut row, ']');
                push_char(&mut row, ' ');
            } else {
                push_char(&mut row, '[');
                push_char(&mut row, ' ');
                push_char(&mut row, ']');
                push_char(&mut row, ' ');
            }
            proof {
                assert(row@ =~= checkbox(self@[n as int], today as int));
            }
            let n_str = u64_to_string(n as u64);
            push_left_aligned(&mut row, n_str.as_str(), id_width);
            push_left_aligned(&mut row, task.description().as_str(), desc_width);
            let ghost row_before_time = row@;
            match done {
                Some(c) => {
                    proof {
                        crate::task::lemma_find_completion(
                            self@[n as int].completions,
                            today as int,
                        );
                    }
                    push_two_digit(&mut row, c.hour);
                    push_char(&mut row, ':');
                    push_two_digit(&mut row, c.minute);
                    push_spaces(&mut row, 3);
                },
                None => {
                    push_char(&mut row, '-');
                    push_char(&mut row, '-');
                    push_char(&mut row, ':');
                    push_char(&mut row, '-');
                    push_char(&mut row, '-');
                    push_spaces(&mut row, 3);
                },
            }
            proof {
                assert(row@ =~= row_before_time + left_aligned(
                    time_cell(self@[n as int], today as int),
                    field_width(5),
                ));
            }
            let next_here = !next_marked && done.is_none();
            if next_here {
                next_marked = true;
                push_char(&mut row, '(');
                push_char(&mut row, 'n');
                push_char(&mut row, 'e');
                push_char(&mut row, 'x');
                push_char(&mut row, 't');
                push_char(&mut row, ')');
            }
            proof {
                assert(next_here == is_next(self@, today as int, n as int));
                assert(row@ =~= today_row(
                    self@[n as int],
                    n as nat,
                    today as int,
                    id_w,
                    desc_w,
                    is_next(self@, today as int, n as int),
                ));
            }
            rows.push(row);
            n += 1;
        }
        rows
    }
}

} // verus!
