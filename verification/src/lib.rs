//! Builds a weekly assignment or tutorial report in Markdown: a header with
//! student metadata and the date, then one section per group of submitted
//! files, each file rendered as a fenced, language-tagged code block.

pub mod date;
pub mod errors;
pub mod lang;
pub mod num;
pub mod paths;
pub mod report;
