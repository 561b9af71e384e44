//! The relay's checks about its own cluster, and canopy taking in what it
//! files.

pub mod cluster;
pub mod ingest;
pub mod node_pools;
pub mod order;
pub mod protocol;
pub mod startup;
pub mod tailscale;
pub mod watch;
pub mod workloads;
