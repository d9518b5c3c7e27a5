//! Recurring activities with cooloff intervals: parsing of definition and
//! log lines, merging of completion events into the registry, and ordering
//! of the registry by how overdue each activity is.
use vstd::prelude::*;

pub mod activity;
pub mod laws;
pub mod parse;
pub mod registry;
pub mod report;
pub mod text;

verus! {

} // verus!
