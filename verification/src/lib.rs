//! Time-travel debugging for Git repositories: the verified core.

use vstd::prelude::*;

pub mod ci;
pub mod cli;
pub mod config;
pub mod diff;
pub mod error;
pub mod exec;
pub mod investigate;
pub mod laws;
pub mod migrations;
pub mod models;
pub mod objects;
pub mod paths;
pub mod repo;
pub mod restore;
pub mod search;
pub mod session;
pub mod snapshot;
pub mod text;
pub mod text_map;
pub mod tracking;
pub mod tui;
pub mod util;
pub mod write_job;

verus! {

/// The version of the program.
pub const VERSION: &'static str = "0.1.0";

} // verus!
