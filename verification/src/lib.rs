//! Core logic of a directory backup scheduler: job records, due-job
//! selection, path and schedule-field validation, a verified model of the
//! mirror/copy engine, watch-set reconciliation, filesystem-event
//! translation, and run reports with their fallback text.

pub mod digits;
pub mod mirror;
pub mod query;
pub mod report;
pub mod schedule;
pub mod seqs;
pub mod structs;
pub mod strutil;
pub mod ui;
pub mod validate;
pub mod watch;
pub mod wrap;
