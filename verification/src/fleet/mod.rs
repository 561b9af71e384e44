//! The administrative surface's view of the fleet: the admin allow-list,
//! the cluster registry, and a registered cluster's page.

pub mod admins;
pub mod clusters;
pub mod registry;
