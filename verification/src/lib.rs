//! Declarative test cases kept as markdown files: the case format, its
//! validation rules, the review state machine and the command logic.
use vstd::prelude::*;

pub mod text;
pub mod case;
pub mod drift;
pub mod commands;
pub mod validate;
pub mod report;
pub mod review;
pub mod setup;
pub mod laws;
pub mod roundtrip;
pub mod record_laws;
pub mod append_law;
pub mod section_law;
pub mod reload_law;
pub mod completeness;
pub mod drift_law;

verus! {

} // verus!
