//! Decisions, plans, and texts of the command-line front end.

use vstd::prelude::*;

pub mod compare;
pub mod gpu;
pub mod gpu_rows;
pub mod montage;
pub mod pack;
pub mod preview;
pub mod quality;
pub mod ranking;
pub mod remote;
pub mod render;
pub mod report;
pub mod rows;
pub mod rules;
pub mod stats;
pub mod stats_comparison;
pub mod stdin;
pub mod store;
pub mod suite;
pub mod table;
pub mod video;

verus! {

/// Result of a command-line step; the error is the message shown to the user.
pub type CliResult<T> = core::result::Result<T, String>;

/// A command-line result with its message as a character sequence.
pub open spec fn told<T>(result: CliResult<T>) -> core::result::Result<T, Seq<char>> {
    match result {
        Ok(value) => Ok(value),
        Err(message) => Err(message@),
    }
}

} // verus!
