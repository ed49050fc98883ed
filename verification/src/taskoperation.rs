//! The closed set of mutation intents that a `TaskListing` interprets.

use vstd::prelude::*;

verus! {

/// An operation to perform on a `TaskListing`.
///
/// Operations address tasks by their current position in priority order;
/// positions renumber whenever the list is reordered.
#[derive(Debug)]
#[allow(inconsistent_fields)]
pub enum TaskOperation {
    Add {
        /// Description of the task being added
        description: String,
    },
    MarkComplete {
        /// Index of task to mark complete
        task_index: usize,
        /// Optional remark on task completion
        remark: Option<String>,
    },
    AddRemark {
        /// Index of task to add remark to
        task_index: usize,
        /// Remark to add to task
        remark: String,
    },
    Reorder {
        /// Index of task being moved
        from: usize,
        /// Index where `from` will be inserted, moving all tasks at this
        /// index and higher to a higher index
        to: usize,
    },
}

} // verus!
