//! Immutable snapshot records: routers, services and their sub-records.
//!
//! A snapshot is fetched atomically by the caller and handed to the library
//! as one [`TraefikData`] value; the library never mutates it, and a refresh
//! replaces it wholesale.

use vstd::prelude::*;

verus! {

/// A routing rule: matching traffic is dispatched to the named service.
#[derive(Clone, Debug, PartialEq)]
pub struct Router {
    pub entry_points: Vec<String>,
    pub middlewares: Option<Vec<String>>,
    pub service: String,
    pub rule: String,
    pub priority: i64,
    pub tls: Option<TlsConfig>,
    pub status: String,
    pub using: Vec<String>,
    pub name: String,
    pub provider: String,
    pub rule_syntax: Option<String>,
}

/// TLS options attached to a router.
#[derive(Clone, Debug, PartialEq)]
pub struct TlsConfig {
    pub options: String,
}

/// A dispatch target: either a load-balanced server pool or a failover
/// wrapper around two other named services.
///
/// `server_status` maps server URLs to status strings (typically `"UP"`);
/// it is kept as a sequence of pairs in the order received.
#[derive(Clone, Debug, PartialEq)]
pub struct Service {
    pub load_balancer: Option<LoadBalancer>,
    pub failover: Option<FailoverConfig>,
    pub status: String,
    pub server_status: Option<Vec<(String, String)>>,
    pub used_by: Option<Vec<String>>,
    pub name: String,
    pub provider: String,
    pub service_type: Option<String>,
}

/// The server pool of a regular service.
#[derive(Clone, Debug, PartialEq)]
pub struct LoadBalancer {
    pub servers: Vec<Server>,
    pub health_check: Option<HealthCheck>,
}

/// One backend server of a load balancer.
#[derive(Clone, Debug, PartialEq)]
pub struct Server {
    pub url: String,
}

/// Health-check descriptor of a load balancer.
#[derive(Clone, Debug, PartialEq)]
pub struct HealthCheck {
    pub mode: String,
    pub path: String,
    pub interval: String,
    pub timeout: String,
}

/// The failover record of a failover service: the names of its primary
/// service and of its fallback service.
#[derive(Clone, Debug, PartialEq)]
pub struct FailoverConfig {
    pub service: String,
    pub fallback: String,
}

/// One immutable snapshot of the routing table.
#[derive(Clone, Debug, PartialEq)]
pub struct TraefikData {
    pub routers: Vec<Router>,
    pub services: Vec<Service>,
}

} // verus!
