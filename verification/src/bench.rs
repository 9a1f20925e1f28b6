//! The configuration one benchmark run consumes.

use vstd::prelude::*;

verus! {

/// The settings of a run, produced once by the configuration layer and read
/// only thereafter: scheduler width, connection count, target, round length
/// (in nanoseconds), round count, and the request shape to repeat.
#[derive(Clone, Debug)]
pub struct BenchmarkSettings {
    pub threads: usize,
    pub connections: usize,
    pub host: String,
    pub duration_nanos: u64,
    pub rounds: usize,
    pub method: String,
    pub headers: Vec<(String, String)>,
    pub body: Vec<u8>,
}

} // verus!
