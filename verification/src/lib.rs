//! Timing, notification and run-history logic of the `wooshh` command timer.

pub mod history;
pub mod insights;
pub mod notify;
pub mod ranking;
pub mod regressions;
pub mod reorder;
pub mod run;
pub mod text;
