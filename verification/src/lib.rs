//! An incremental fuzzy finder library: a query is scored against a fixed
//! candidate list by edit distance, the list is re-ranked on every edit, and
//! a selection is navigated and confirmed.

pub mod dictionary;
pub mod distance;
pub mod input;
pub mod ranking;
pub mod selection;
pub mod session;
