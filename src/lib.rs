//! Point-in-time snapshot bookkeeping for a key-value store: snapshot names,
//! the retention queue, startup recovery and the snapshot pipeline.

pub mod name;
pub mod queue;
pub mod snapshot;
pub mod job;
