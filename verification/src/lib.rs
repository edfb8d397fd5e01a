//! Process-mining building blocks: event logs, Petri nets with token replay,
//! the alpha miner, graphs with node clustering, suffix-tree slices and the
//! registry of pipeline context keys.

pub mod event_log;
pub mod features;
pub mod pipelines;
pub mod utils;
