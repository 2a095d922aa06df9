//! Daily report extraction: calendar walk, per-day retry policy, and the
//! decisions of the extraction run, as verified state machines.

pub mod calendar;
pub mod retry;
pub mod text;
pub mod report;
pub mod extraction;
pub mod credential;
