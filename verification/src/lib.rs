//! A workload rig for studying page reuse in an embedded key-value store:
//! key encoding, latency percentiles, random deletion subsets, the ballast
//! protocol and the phase sequencing of an experiment, all as verified logic
//! that a thin driver executes against the store.

pub mod ballast;
pub mod config;
pub mod driver;
pub mod duration;
pub mod keys;
pub mod laws;
pub mod order;
pub mod plan;
pub mod quantile;
pub mod report;
pub mod select;
pub mod stats;
pub mod store;
pub mod table;
pub mod text;
