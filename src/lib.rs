//! A TCP port scanner's core: how the port space is striped across
//! workers, how a command line becomes a scan configuration, and how the
//! workers' discoveries are gathered into an ordered report.
use vstd::prelude::*;

pub mod args;
pub mod collector;
pub mod stripe;

verus! {

} // verus!
