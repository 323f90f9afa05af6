//! Selecting items of task lists with a small query language: status
//! ranges, a predicate algebra over items, staged queries, and the parser
//! that reads them from text, each with its contract proved.

pub mod list;
pub mod lists;
pub mod native;
pub mod query;
pub mod range;
pub mod registry;
pub mod script;
pub mod text;
