//! A two-tier TCP port scanning engine: how a port range is split among head
//! tasks and scanner workers, how each worker probes its ports, and how the
//! discoveries are merged into one report.

pub mod address;
pub mod args;
pub mod collector;
pub mod config;
pub mod coordinator;
pub mod laws;
pub mod partition;
pub mod pool;
pub mod probe;
pub mod range;
pub mod text;
pub mod worker;
