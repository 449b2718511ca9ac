use traefiktop::service_status::{
    find_service_by_name, get_failover_services, get_router_services, get_router_status_info,
    get_service_status, ServiceStatus,
};
use traefiktop::types::{FailoverConfig, LoadBalancer, Router, Server, Service};

fn leaf(name: &str, status: &str) -> Service {
    Service {
        load_balancer: None,
        failover: None,
        status: status.to_string(),
        server_status: None,
        used_by: None,
        name: name.to_string(),
        provider: "file".to_string(),
        service_type: Some("loadbalancer".to_string()),
    }
}

fn leaf_with_servers(name: &str, statuses: &[(&str, &str)]) -> Service {
    let mut svc = leaf(name, "enabled");
    svc.load_balancer = Some(LoadBalancer {
        servers: statuses
            .iter()
            .map(|(url, _)| Server { url: url.to_string() })
            .collect(),
        health_check: None,
    });
    svc.server_status = Some(
        statuses
            .iter()
            .map(|(url, st)| (url.to_string(), st.to_string()))
            .collect(),
    );
    svc
}

fn failover(name: &str, primary: &str, fallback: &str) -> Service {
    let mut svc = leaf(name, "enabled");
    svc.service_type = Some("failover".to_string());
    svc.failover = Some(FailoverConfig {
        service: primary.to_string(),
        fallback: fallback.to_string(),
    });
    svc
}

fn router(name: &str, service: &str) -> Router {
    Router {
        entry_points: vec!["web".to_string()],
        middlewares: None,
        service: service.to_string(),
        rule: format!("Host(`{}`)", name),
        priority: 0,
        tls: None,
        status: "enabled".to_string(),
        using: vec![],
        name: name.to_string(),
        provider: "file".to_string(),
        rule_syntax: None,
    }
}

fn status_of(svc: &Service, services: &Vec<Service>) -> ServiceStatus {
    let mut visited: Vec<String> = Vec::new();
    get_service_status(svc, services, &mut visited)
}

#[test]
fn leaf_enabled_is_up() {
    let svc = leaf("a", "enabled");
    assert_eq!(status_of(&svc, &vec![svc.clone()]), ServiceStatus::Up);
}

#[test]
fn leaf_disabled_is_down() {
    let svc = leaf("a", "disabled");
    assert_eq!(status_of(&svc, &vec![svc.clone()]), ServiceStatus::Down);
}

#[test]
fn leaf_other_status_is_unknown() {
    let svc = leaf("a", "draining");
    assert_eq!(status_of(&svc, &vec![svc.clone()]), ServiceStatus::Unknown);
}

#[test]
fn server_status_any_up_wins() {
    let svc = leaf_with_servers("a", &[("http://one", "DOWN"), ("http://two", "UP")]);
    assert_eq!(status_of(&svc, &vec![svc.clone()]), ServiceStatus::Up);
}

#[test]
fn server_status_all_down_is_down() {
    // the comparison is exact: a lowercase "up" does not count
    let svc = leaf_with_servers("a", &[("http://one", "DOWN"), ("http://two", "up")]);
    assert_eq!(status_of(&svc, &vec![svc.clone()]), ServiceStatus::Down);
}

#[test]
fn server_status_empty_is_unknown() {
    let svc = leaf_with_servers("a", &[]);
    assert_eq!(status_of(&svc, &vec![svc.clone()]), ServiceStatus::Unknown);
}

#[test]
fn leaf_status_ignores_other_services() {
    // a service without a failover record is judged from its own fields
    // alone, whatever else the snapshot holds
    let svc = leaf_with_servers("a", &[("http://one", "UP")]);
    let lonely = vec![svc.clone()];
    let crowded = vec![leaf("b", "disabled"), svc.clone(), failover("c", "a", "b")];
    assert_eq!(status_of(&svc, &lonely), ServiceStatus::Up);
    assert_eq!(status_of(&svc, &crowded), ServiceStatus::Up);
}

#[test]
fn failover_primary_up_ignores_fallback() {
    let services = vec![
        failover("fo", "primary", "fallback"),
        leaf("primary", "enabled"),
        leaf("fallback", "disabled"),
    ];
    assert_eq!(status_of(&services[0], &services), ServiceStatus::Up);

    let services = vec![
        failover("fo", "primary", "no-such-service"),
        leaf("primary", "enabled"),
    ];
    assert_eq!(status_of(&services[0], &services), ServiceStatus::Up);
}

#[test]
fn failover_falls_back_when_primary_down() {
    let services = vec![
        failover("fo", "primary", "fallback"),
        leaf("primary", "disabled"),
        leaf("fallback", "enabled"),
    ];
    assert_eq!(status_of(&services[0], &services), ServiceStatus::Up);
}

#[test]
fn failover_both_down_is_down() {
    let services = vec![
        failover("fo", "primary", "fallback"),
        leaf("primary", "disabled"),
        leaf("fallback", "disabled"),
    ];
    assert_eq!(status_of(&services[0], &services), ServiceStatus::Down);
}

#[test]
fn failover_missing_targets_is_unknown() {
    let services = vec![failover("fo", "nope", "also-nope")];
    assert_eq!(status_of(&services[0], &services), ServiceStatus::Unknown);
}

#[test]
fn self_cycle_terminates_unknown() {
    let services = vec![failover("loop", "loop", "loop")];
    assert_eq!(status_of(&services[0], &services), ServiceStatus::Unknown);
}

#[test]
fn two_step_cycle_terminates_unknown() {
    let services = vec![failover("a", "b", "b"), failover("b", "a", "a")];
    assert_eq!(status_of(&services[0], &services), ServiceStatus::Unknown);
    assert_eq!(status_of(&services[1], &services), ServiceStatus::Unknown);
}

#[test]
fn find_prefers_exact_over_alias() {
    let services = vec![leaf("api@docker", "enabled"), leaf("api", "disabled")];
    let found = find_service_by_name("api", &services).expect("api resolves");
    assert_eq!(found.name, "api");
}

#[test]
fn find_falls_back_to_provider_alias() {
    let services = vec![leaf("apigateway", "enabled"), leaf("api@docker", "enabled")];
    let found = find_service_by_name("api", &services).expect("api resolves");
    assert_eq!(found.name, "api@docker");
}

#[test]
fn find_does_not_match_longer_names() {
    let services = vec![leaf("apigateway", "enabled")];
    assert!(find_service_by_name("api", &services).is_none());
}

#[test]
fn failover_targets_resolve_through_aliases() {
    let services = vec![
        failover("fo", "primary", "fallback"),
        leaf("primary@docker", "enabled"),
        leaf("fallback@file", "disabled"),
    ];
    let targets = get_failover_services("fo", &services);
    assert_eq!(targets.primary.expect("primary").name, "primary@docker");
    assert_eq!(targets.fallback.expect("fallback").name, "fallback@file");
}

#[test]
fn router_collects_all_provider_matches() {
    let services = vec![
        leaf("web@docker", "enabled"),
        leaf("webmail", "enabled"),
        leaf("web@file", "disabled"),
    ];
    let rt = router("r", "web");
    let matched = get_router_services(&rt, &services);
    let names: Vec<&str> = matched.iter().map(|s| s.name.as_str()).collect();
    assert_eq!(names, vec!["web@docker", "web@file"]);
}

#[test]
fn router_status_counts_alive_matches() {
    let services = vec![
        leaf("web@docker", "enabled"),
        leaf("web@file", "enabled"),
        leaf("web@kube", "disabled"),
    ];
    let rt = router("r", "web");
    let (status, active, alive) = get_router_status_info(&rt, &services);
    assert_eq!(status, ServiceStatus::Up);
    assert_eq!(active.expect("active").name, "web@docker");
    assert_eq!(alive, 2);
}

#[test]
fn router_without_matches_is_unknown() {
    let services = vec![leaf("other", "enabled")];
    let rt = router("r", "web");
    let (status, active, alive) = get_router_status_info(&rt, &services);
    assert_eq!(status, ServiceStatus::Unknown);
    assert!(active.is_none());
    assert_eq!(alive, 0);
}

#[test]
fn router_all_matches_dead_is_down() {
    let services = vec![leaf("web", "disabled")];
    let rt = router("r", "web");
    let (status, active, alive) = get_router_status_info(&rt, &services);
    assert_eq!(status, ServiceStatus::Down);
    assert!(active.is_none());
    assert_eq!(alive, 0);
}

#[test]
fn router_failover_active_service_is_live_target() {
    let services = vec![
        failover("web", "primary", "fallback"),
        leaf("primary", "disabled"),
        leaf("fallback", "enabled"),
    ];
    let rt = router("r", "web");
    let (status, active, alive) = get_router_status_info(&rt, &services);
    assert_eq!(status, ServiceStatus::Up);
    assert_eq!(active.expect("active").name, "fallback");
    assert_eq!(alive, 1);
}
