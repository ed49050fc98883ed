//! The history view: a calendar grid of per-task per-day status symbols
//! with a streak overlay, over an inclusive range of local days.

use vstd::prelude::*;

use crate::clock::{day_of_month, day_of_month_of, MAX_DAY};
use crate::task::TaskV;
use crate::tasklisting::TaskListing;
use crate::textfmt::{
    compute_field_width, dec_str, field_width, left_aligned, push_char, push_left_aligned,
    push_spaces, push_two_digit, two_digit_str, u64_to_string, lemma_dec_str_len, spaces,
    MAX_FIELD,
};
use crate::today::max_desc_len;

verus! {

/// One header cell: a bar, the day of month as two digits, and padding to
/// the five-character column.
pub open spec fn header_cells(day: int, end: int) -> Seq<char>
    decreases end + 1 - day,
{
    if day > end {
        Seq::<char>::empty()
    } else {
        seq!['|'] + two_digit_str(day_of_month_of(day)) + spaces(2) + header_cells(day + 1, end)
    }
}

/// The header row: blank space over the index and description columns,
/// then one labelled cell per day of the range.
pub open spec fn history_header(start: int, end: int, id_width: nat, desc_width: nat) -> Seq<
    char,
> {
    spaces(id_width) + spaces(desc_width) + header_cells(start, end)
}

/// The cells of one task's row, derived day by day from left to right with
/// two pieces of carried state: whether any day so far in the window was
/// completed, and whether the previous day was.
///
/// A day strictly after `today` renders blank.  A completed day renders
/// the done marker and sets both flags.  `today` itself, when not
/// completed, renders the pending marker and carries the flags through.  A
/// past day that is not completed renders the missed marker once any
/// earlier day in the window was completed, and blank before the first
/// completion.  Between two adjacent columns a streak connector appears
/// exactly when the left day is a completion other than `today`.
pub open spec fn row_cells(
    t: TaskV,
    day: int,
    end: int,
    today: int,
    any_done: bool,
    last_complete: bool,
) -> Seq<char>
    decreases end + 1 - day,
{
    if day > end {
        Seq::<char>::empty()
    } else if day > today {
        seq!['|', ' ', ' ', ' ', ' '] + row_cells(t, day + 1, end, today, any_done, last_complete)
    } else {
        let completed = t.completed_on(day);
        let sym = if completed {
            'o'
        } else if day == today {
            '?'
        } else if any_done {
            'x'
        } else {
            ' '
        };
        let any2 = any_done || completed;
        let last2 = if completed {
            true
        } else if day == today {
            last_complete
        } else {
            false
        };
        let conn = if day == end {
            Seq::<char>::empty()
        } else if last2 && day != today {
            seq!['-', 'o', '-']
        } else {
            spaces(3)
        };
        seq!['|', sym] + conn + row_cells(t, day + 1, end, today, any2, last2)
    }
}

/// One task's full row: index and description columns, then the cells.
pub open spec fn history_row(
    t: TaskV,
    n: nat,
    start: int,
    end: int,
    today: int,
    id_width: nat,
    desc_width: nat,
) -> Seq<char> {
    left_aligned(dec_str(n), id_width) + left_aligned(t.details[0].description, desc_width)
        + row_cells(t, start, end, today, false, false)
}

/// Law: over the single-day range consisting of `today` alone, a task
/// completed today renders exactly the bar and the done marker, with no
/// connector: a single column leaves nothing to connect.
pub proof fn lemma_single_day_completed_today(t: TaskV, today: int)
    requires
        t.completed_on(today),
    ensures
        row_cells(t, today, today, today, false, false) == seq!['|', 'o'],
{
    assert(row_cells(t, today + 1, today, today, true, true) =~= Seq::<char>::empty());
    assert(row_cells(t, today, today, today, false, false) =~= seq!['|', 'o']);
}

/// The row a task renders when no day of the window is completed: blank
/// cells up to today, the pending marker on today, blank cells after.
pub open spec fn never_completed_cells(day: int, end: int, today: int) -> Seq<char>
    decreases end + 1 - day,
{
    if day > end {
        Seq::<char>::empty()
    } else if day > today {
        seq!['|', ' ', ' ', ' ', ' '] + never_completed_cells(day + 1, end, today)
    } else {
        seq!['|', if day == today {
            '?'
        } else {
            ' '
        }] + (if day == end {
            Seq::<char>::empty()
        } else {
            spaces(3)
        }) + never_completed_cells(day + 1, end, today)
    }
}

/// Law: a task never completed in the window renders all blanks up to and
/// including today's pending marker — and in particular no missed marker
/// ever appears, since no completion ever starts a streak.
pub proof fn lemma_never_completed(t: TaskV, day: int, end: int, today: int)
    requires
        forall|d: int| day <= d <= end ==> !t.completed_on(d),
    ensures
        row_cells(t, day, end, today, false, false) == never_completed_cells(day, end, today),
        !row_cells(t, day, end, today, false, false).contains('x'),
    decreases end + 1 - day,
{
    if day > end {
    } else {
        lemma_never_completed(t, day + 1, end, today);
        let rest = row_cells(t, day + 1, end, today, false, false);
        if day > today {
            assert(row_cells(t, day, end, today, false, false) == seq!['|', ' ', ' ', ' ', ' ']
                + rest);
            assert forall|i: int|
                0 <= i < (seq!['|', ' ', ' ', ' ', ' '] + rest).len() implies (seq![
                '|',
                ' ',
                ' ',
                ' ',
                ' ',
            ] + rest)[i] != 'x' by {
                if i >= 5 {
                    assert(!rest.contains('x'));
                    assert(rest[i - 5] != 'x');
                }
            }
        } else {
            let sym = if day == today {
                '?'
            } else {
                ' '
            };
            let conn = if day == end {
                Seq::<char>::empty()
            } else {
                spaces(3)
            };
            let cell = seq!['|', sym] + conn;
            assert(!t.completed_on(day));
            assert(row_cells(t, day, end, today, false, false) == cell + rest);
            assert forall|i: int| 0 <= i < (cell + rest).len() implies (cell + rest)[i]
                != 'x' by {
                if i >= cell.len() {
                    assert(!rest.contains('x'));
                    assert(rest[i - cell.len()] != 'x');
                } else if i >= 2 {
                    assert(cell[i] == ' ');
                }
            }
        }
    }
}

impl TaskListing {
    /// Render the history view for the inclusive range of local days
    /// `start ..= end`: a header row of day-of-month labels over one row
    /// per task, each derived by [`row_cells`] with `today` marking the
    /// boundary between past, pending and future.
    #[verifier::rlimit(50)]
    pub fn history_for_range(&self, start: u32, end: u32, today: u32) -> (rows: Vec<String>)
        requires
            self.wf(),
            start <= end,
            end <= MAX_DAY,
            max_desc_len(self@) <= MAX_FIELD,
        ensures
            rows@.len() == 1 + self@.len(),
            rows@[0]@ == history_header(
                start as int,
                end as int,
                field_width(dec_str(self@.len()).len()),
                field_width(max_desc_len(self@)),
            ),
            forall|i: int|
                0 <= i < self@.len() ==> rows@[i + 1]@ == history_row(
                    self@[i],
                    i as nat,
                    start as int,
                    end as int,
                    today as int,
                    field_width(dec_str(self@.len()).len()),
                    field_width(max_desc_len(self@)),
                ),
    {
        let ghost id_w = field_width(dec_str(self@.len()).len());
        let ghost desc_w = field_width(max_desc_len(self@));
        let count = self.all_tasks.len();
        let count_str = u64_to_string(count as u64);
        proof {
            lemma_dec_str_len(count as nat);
        }
        let id_width = compute_field_width(count_str.as_str().unicode_len());
        let desc_width = compute_field_width(self.max_description_len());
        let mut rows: Vec<String> = Vec::new();

        // Header row
        let mut header = String::new();
        push_spaces(&mut header, id_width);
        push_spaces(&mut header, desc_width);
        let ghost header_prefix = header@;
        let mut day = start;
        while day <= end
            invariant
                start <= day,
                day <= end + 1,
                end <= MAX_DAY,
                header_prefix + header_cells(start as int, end as int) == header@ + header_cells(
                    day as int,
                    end as int,
                ),
            decreases end + 1 - day,
        {
            let ghost h0 = header@;
            let dom = day_of_month(day);
            push_char(&mut header, '|');
            push_two_digit(&mut header, dom);
            push_spaces(&mut header, 2);
            proof {
                assert(h0 + header_cells(day as int, end as int) =~= header@ + header_cells(
                    day as int + 1,
                    end as int,
                ));
            }
            day += 1;
        }
        proof {
            assert(header@ + header_cells(day as int, end as int) =~= header@);
            assert(header@ == history_header(start as int, end as int, id_w, desc_w));
        }
        rows.push(header);

        // Task rows
        let mut n: usize = 0;
        while n < count
            invariant
                self.wf(),
                start <= end,
                end <= MAX_DAY,
                max_desc_len(self@) <= MAX_FIELD,
                count == self@.len(),
                count == self.all_tasks.len(),
                id_width == id_w,
                desc_w == field_width(max_desc_len(self@)),
                desc_width == desc_w,
                n <= count,
                rows@.len() == n + 1,
                rows@[0]@ == history_header(start as int, end as int, id_w, desc_w),
                forall|i: int|
                    0 <= i < n ==> rows@[i + 1]@ == history_row(
                        self@[i],
                        i as nat,
                        start as int,
                        end as int,
                        today as int,
                        id_w,
                        desc_w,
                    ),
            decreases count - n,
        {
            proof {
                assert(self@[n as int].wf());
            }
            let task = &self.all_tasks[n];
            let mut row = String::new();
            let n_str = u64_to_string(n as u64);
            push_left_aligned(&mut row, n_str.as_str(), id_width);
            push_left_aligned(&mut row, task.description().as_str(), desc_width);
            let ghost row_prefix = row@;

            let mut any_done = false;
            let mut last_complete = false;
            let mut day = start;
            while day <= end
                invariant
                    start <= day,
                    day <= end + 1,
                    end <= MAX_DAY,
                    task@ == self@[n as int],
                    n < count,
                    count == self@.len(),
                    row_prefix + row_cells(
                        task@,
                        start as int,
                        end as int,
                        today as int,
                        false,
                        false,
                    ) == row@ + row_cells(
                        task@,
                        day as int,
                        end as int,
                        today as int,
                        any_done,
                        last_complete,
                    ),
                decreases end + 1 - day,
            {
                let ghost r0 = row@;
                let ghost a0 = any_done;
                let ghost l0 = last_complete;
                push_char(&mut row, '|');
                if day > today {
                    push_char(&mut row, ' ');
                    push_char(&mut row, ' ');
                    push_char(&mut row, ' ');
                    push_char(&mut row, ' ');
                    proof {
                        assert(r0 + row_cells(task@, day as int, end as int, today as int, a0, l0)
                            =~= row@ + row_cells(
                            task@,
                            day as int + 1,
                            end as int,
                            today as int,
                            any_done,
                            last_complete,
                        ));
                    }
                } else {
                    let completed = task.completed_on(day);
                    if completed {
                        push_char(&mut row, 'o');
                        last_complete = true;
                        any_done = true;
                    } else if day == today {
                        push_char(&mut row, '?');
                    } else if any_done {
                        push_char(&mut row, 'x');
                        last_complete = false;
                    } else {
                        push_char(&mut row, ' ');
                        last_complete = false;
                    }
                    if day != end {
                        if last_complete && day != today {
                            push_char(&mut row, '-');
                            push_char(&mut row, 'o');
                            push_char(&mut row, '-');
                        } else {
                            push_spaces(&mut row, 3);
                        }
                    }
                    proof {
                        assert(r0 + row_cells(task@, day as int, end as int, today as int, a0, l0)
                            =~= row@ + row_cells(
                            task@,
                            day as int + 1,
                            end as int,
                            today as int,
                            any_done,
                            last_complete,
                        ));
                    }
                }
                day += 1;
            }
            proof {
                assert(row@ + row_cells(
                    task@,
                    day as int,
                    end as int,
                    today as int,
                    any_done,
                    last_complete,
                ) =~= row@);
                assert(row@ == history_row(
                    self@[n as int],
                    n as nat,
                    start as int,
                    end as int,
                    today as int,
                    id_w,
                    desc_w,
                ));
            }
            rows.push(row);
            n += 1;
        }
        rows
    }
}

} // verus!
