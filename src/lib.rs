//! Finds version-control working copies under a directory and reports, for
//! each, untracked files (`U`), modified files (`M`), local branches that no
//! remote has merged (`P`) and failed queries (`E`).
//!
//! The library holds the decisions; the caller runs the `git` queries and
//! reads the directories, and hands the answers in as plain values.
use vstd::prelude::*;

pub mod branches;
pub mod checks;
pub mod report;
pub mod text;
pub mod walker;

verus! {

} // verus!
