//! A package catalog engine: it parses the package manager's metadata dumps,
//! indexes the records by name, reconciles their installed state, answers
//! queries, and drives the search and operation lanes as state machines.

use vstd::prelude::*;

pub mod date;
pub mod lanes;
pub mod operation;
pub mod package;
pub mod query;
pub mod server;
pub mod size;
pub mod text;

verus! {

} // verus!
