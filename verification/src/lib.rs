//! Measurement core of an energy-telemetry agent.
//!
//! The library models the power-measurement topology of a host (CPU sockets
//! and their energy-accounting domains), turns raw hardware counter text into
//! timestamped, unit-tagged records, and computes wraparound-safe deltas
//! between successive counter readings.  Reading the counters themselves is
//! operating-system work and stays outside: callers hand the raw text in and
//! take records back.
use vstd::prelude::*;

pub mod sensors;

verus! {

/// Semantic version of this library, for embedding-host introspection.
pub fn crate_version() -> (r: &'static str)
    ensures
        r@ == "0.1.0"@,
{
    "0.1.0"
}

} // verus!
