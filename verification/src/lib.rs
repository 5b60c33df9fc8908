//! Verified core of the bogoforge shuffle miner: configuration checks, the
//! lease scheduler, the shuffle kernel, server message handling and the
//! session metrics.

pub mod compute;
pub mod config;
pub mod lease_laws;
pub mod metrics;
pub mod net;
pub mod scheduler;
pub mod text;
pub mod tui;
