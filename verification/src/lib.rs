//! Verified core of an HTTP load-testing tool: target-template resolution,
//! the per-connection worker state machine, and order-independent result
//! aggregation with derived statistics.

pub mod bench;
pub mod parse;
pub mod request;
pub mod results;
pub mod text;
pub mod worker;

pub use request::Scheme;
