//! The interactive session's navigation state machine: pure transitions
//! from state and input to state and an optional operation.  The hosting
//! shell owns the event loop and the drawing; it feeds inputs in and
//! carries the returned operation to the listing.

use vstd::prelude::*;

use crate::taskoperation::TaskOperation;

verus! {

/// An input the navigation reacts to: move the selection up or down, or
/// ask for the selected task to be completed.
#[derive(Clone, Copy, Debug, PartialEq, Eq, Structural)]
pub enum NavInput {
    MoveUp,
    MoveDown,
    Complete,
}

/// The listing-mode navigation state.
#[derive(Clone, Copy, Debug, PartialEq, Eq, Structural)]
pub struct NavState {
    /// `None` if no task is selected (none exist), otherwise the index of
    /// the currently highlighted task
    pub task_index: Option<usize>,
    /// `None` if no row needs cleaning up, otherwise the index of the row
    /// whose highlight must be repainted by the shell
    pub prev_index: Option<usize>,
    /// Index of the task currently at the top of the visible window
    pub scroll_pos: usize,
}

impl NavState {
    /// The selection is in bounds, and nothing is selected exactly when
    /// the listing is empty.
    pub open spec fn wf(self, task_count: nat) -> bool {
        &&& match self.task_index {
            Some(i) => i < task_count,
            None => task_count == 0,
        }
        &&& self.scroll_pos <= task_count
    }

    /// The state a session starts in: the first task selected when one
    /// exists, nothing selected otherwise, window at the top.
    pub fn initial(task_count: usize) -> (s: NavState)
        ensures
            s == initial_state(task_count as nat),
            s.wf(task_count as nat),
    {
        NavState {
            task_index: if task_count > 0 {
                Some(0)
            } else {
                None
            },
            prev_index: None,
            scroll_pos: 0,
        }
    }

    /// One step of the state machine: apply an input, then scroll just as
    /// far as needed to keep the selection inside the visible window.
    /// `Complete` yields a `MarkComplete` operation for the selected task
    /// and is a no-op when nothing is selected.
    pub fn step(self, input: NavInput, task_count: usize, visible_rows: usize) -> (r: (
        NavState,
        Option<TaskOperation>,
    ))
        requires
            visible_rows >= 1,
            self.wf(task_count as nat),
        ensures
            r == nav_step(self, input, task_count as nat, visible_rows as nat),
            r.0.wf(task_count as nat),
    {
        let mut state = self;
        let mut op: Option<TaskOperation> = None;
        match input {
            NavInput::MoveUp => {
                if let Some(i) = state.task_index {
                    if i > 0 {
                        state.prev_index = Some(i);
                        state.task_index = Some(i - 1);
                    }
                }
            },
            NavInput::MoveDown => {
                if let Some(i) = state.task_index {
                    if i + 1 < task_count {
                        state.prev_index = Some(i);
                        state.task_index = Some(i + 1);
                    }
                }
            },
            NavInput::Complete => {
                if let Some(i) = state.task_index {
                    op = Some(TaskOperation::MarkComplete { task_index: i, remark: None });
                }
            },
        }
        if let Some(i) = state.task_index {
            if i < state.scroll_pos {
                state.scroll_pos = i;
            } else if i - state.scroll_pos >= visible_rows {
                state.scroll_pos = i - visible_rows + 1;
            }
        }
        (state, op)
    }
}

/// The initial navigation state for a listing of `task_count` tasks.
pub open spec fn initial_state(task_count: nat) -> NavState {
    NavState {
        task_index: if task_count > 0 {
            Some(0usize)
        } else {
            None
        },
        prev_index: None,
        scroll_pos: 0usize,
    }
}

/// The navigation transition: selection moves by one, clamped to the
/// listing, recording the prior row for repaint; a completion request
/// yields the operation for the selected task; and the window scrolls by
/// exactly the amount needed to bring the selection back inside it.
pub open spec fn nav_step(s: NavState, input: NavInput, task_count: nat, visible_rows: nat) -> (
    NavState,
    Option<TaskOperation>,
) {
    let moved = match input {
        NavInput::MoveUp => {
            match s.task_index {
                Some(i) => if i > 0 {
                    NavState { task_index: Some((i - 1) as usize), prev_index: Some(i), ..s }
                } else {
                    s
                },
                None => s,
            }
        },
        NavInput::MoveDown => {
            match s.task_index {
                Some(i) => if i + 1 < task_count {
                    NavState { task_index: Some((i + 1) as usize), prev_index: Some(i), ..s }
                } else {
                    s
                },
                None => s,
            }
        },
        NavInput::Complete => s,
    };
    let op = match input {
        NavInput::Complete => {
            match s.task_index {
                Some(i) => Some(TaskOperation::MarkComplete { task_index: i, remark: None }),
                None => None,
            }
        },
        _ => None,
    };
    let scrolled = match moved.task_index {
        Some(i) => if i < moved.scroll_pos {
            NavState { scroll_pos: i, ..moved }
        } else if i - moved.scroll_pos >= visible_rows {
            NavState { scroll_pos: (i + 1 - visible_rows) as usize, ..moved }
        } else {
            moved
        },
        None => moved,
    };
    (scrolled, op)
}

} // verus!
