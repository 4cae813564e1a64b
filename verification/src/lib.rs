//! A small host-reachability monitor: a prober measures round-trip latency
//! to one host on a fixed cadence, every outcome is appended to a durable
//! row store, and an HTML report of the most recent measurements is served
//! on request.
pub mod measurement;
pub mod numbers;
pub mod probe;
pub mod report;
pub mod store;
