//! Folds the line-delimited JSON event stream of a test runner into a report
//! of suites and cases, ready to be written out in the JUnit XML format.

pub mod names;
pub mod text;
pub mod duration;
pub mod failure;
pub mod error;
pub mod event;
pub mod report;
pub mod machine;
