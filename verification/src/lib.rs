//! A single-process mining pipeline: a persistent merge store of typed
//! tables, a task scheduler that decides what work is outstanding, bounded
//! stage queues for backpressure, a generic worker-pool protocol with
//! timeout-based retry, a crate-archive extraction stage, and a report
//! aggregation engine that merges per-version reports upward into crate-level
//! and global aggregates with incremental caching.

pub mod model;
pub mod store;
pub mod queue;
pub mod schedule;
pub mod pool;
pub mod manifest;
pub mod extract;
pub mod report;
pub mod counts;
