//! Health dashboard core for a reverse proxy's routing table.
//!
//! The library derives an up/down/unknown verdict for every router of a
//! routing snapshot (including routers backed by failover service chains)
//! and maintains the searchable, sortable, scroll-stable list view that a
//! renderer displays.  Fetching snapshots and drawing the screen live
//! outside this crate.

pub mod app;
pub mod service_status;
pub mod text;
pub mod types;
