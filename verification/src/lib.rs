use vstd::prelude::*;

pub mod auditor;
pub mod cli;
pub mod clock;
pub mod db;
pub mod error;
pub mod globs;
pub mod mcp;
pub mod order;
pub mod patterns;
pub mod report;
pub mod scope;
pub mod text;
pub mod tracker;

verus! {

} // verus!
