//! Task listing engine for a personal daily task tracker.
//!
//! The library keeps an ordered list of recurring tasks, records at most one
//! completion per task per local calendar day, supports reordering by
//! priority, and renders a "today" checklist and a multi-day history grid.
//! File storage, argument handling and terminal drawing live outside the
//! library; it exchanges plain values with them.

pub mod clock;
pub mod codec;
pub mod history;
pub mod nav;
pub mod task;
pub mod tasklisting;
pub mod taskoperation;
pub mod textfmt;
pub mod today;
