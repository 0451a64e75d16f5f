//! An epoch-driven keyed stream aggregation engine: events are routed to a
//! fixed set of workers by a deterministic key, folded per group key within
//! logical time windows (epochs), and emitted once an epoch is closed.
pub mod accumulate;
pub mod capture;
pub mod daily;
pub mod epoch;
pub mod error;
pub mod partition;
pub mod pool;
pub mod probe;
