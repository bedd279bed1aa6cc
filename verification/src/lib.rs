//! pulci-core: the verified engine of a continuous quality-gate daemon.

use vstd::prelude::*;

pub mod accumulator;
pub mod cache;
pub mod calendar;
pub mod clock;
pub mod config;
pub mod daemon;
pub mod event_trace;
pub mod hooks;
pub mod numbers;
pub mod orchestrator;
pub mod pathmap;
pub mod paths;
pub mod report;
pub mod resolver;
pub mod scan;
pub mod sorting;
pub mod state;
pub mod store;
pub mod text;
pub mod tree;
pub mod watcher;

verus! {

/// The crate version.
pub const VERSION: &'static str = "0.0.6";

/// Returns the crate version as a static string.
pub fn version() -> (r: &'static str)
    ensures
        r@ == "0.0.6"@,
        r@.len() > 0,
{
    proof {
        reveal_strlit("0.0.6");
    }
    VERSION
}

} // verus!
