use traefiktop::app::{App, AppState, SortMode};
use traefiktop::types::{FailoverConfig, LoadBalancer, Router, Server, Service, TraefikData};

fn leaf(name: &str, status: &str) -> Service {
    Service {
        load_balancer: None,
        failover: None,
        status: status.to_string(),
        server_status: None,
        used_by: None,
        name: name.to_string(),
        provider: "file".to_string(),
        service_type: Some("loadbalancer".to_string()),
    }
}

fn leaf_with_servers(name: &str, statuses: &[(&str, &str)]) -> Service {
    let mut svc = leaf(name, "enabled");
    svc.load_balancer = Some(LoadBalancer {
        servers: statuses
            .iter()
            .map(|(url, _)| Server { url: url.to_string() })
            .collect(),
        health_check: None,
    });
    svc.server_status = Some(
        statuses
            .iter()
            .map(|(url, st)| (url.to_string(), st.to_string()))
            .collect(),
    );
    svc
}

fn failover(name: &str, primary: &str, fallback: &str) -> Service {
    let mut svc = leaf(name, "enabled");
    svc.service_type = Some("failover".to_string());
    svc.failover = Some(FailoverConfig {
        service: primary.to_string(),
        fallback: fallback.to_string(),
    });
    svc
}

fn router(name: &str, service: &str) -> Router {
    Router {
        entry_points: vec!["web".to_string()],
        middlewares: None,
        service: service.to_string(),
        rule: format!("Host(`{}`)", name),
        priority: 0,
        tls: None,
        status: "enabled".to_string(),
        using: vec![],
        name: name.to_string(),
        provider: "file".to_string(),
        rule_syntax: None,
    }
}

fn visible_names(app: &App) -> Vec<String> {
    let mut names = Vec::new();
    let mut i = 0;
    while let Some(r) = app.filtered_router(i) {
        names.push(r.name.clone());
        i += 1;
    }
    names
}

#[test]
fn ignore_star_both_sides_means_contains() {
    let app = App::new(vec!["*test*".to_string()]);
    assert!(app.matches_ignore_pattern("api-test-router"));
    assert!(app.matches_ignore_pattern("test"));
    assert!(app.matches_ignore_pattern("mytestservice"));
    assert!(!app.matches_ignore_pattern("production"));
}

#[test]
fn ignore_trailing_star_means_starts_with() {
    let app = App::new(vec!["test*".to_string()]);
    assert!(app.matches_ignore_pattern("testrouter"));
    assert!(!app.matches_ignore_pattern("mytest"));
}

#[test]
fn ignore_leading_star_means_ends_with() {
    let app = App::new(vec!["*test".to_string()]);
    assert!(app.matches_ignore_pattern("mytest"));
    assert!(!app.matches_ignore_pattern("testrouter"));
}

#[test]
fn ignore_bare_pattern_means_contains() {
    let app = App::new(vec!["test".to_string()]);
    assert!(app.matches_ignore_pattern("testrouter"));
    assert!(app.matches_ignore_pattern("mytest"));
    assert!(!app.matches_ignore_pattern("prod"));
}

#[test]
fn ignore_is_case_insensitive() {
    let app = App::new(vec!["*TeSt*".to_string()]);
    assert!(app.matches_ignore_pattern("API-TEST-ROUTER"));
    assert!(app.matches_ignore_pattern("mytestservice"));
}

#[test]
fn ignored_routers_leave_the_visible_list() {
    let mut app = App::new(vec!["*test*".to_string()]);
    app.apply_snapshot(TraefikData {
        routers: vec![router("api-test-router", "a"), router("prod", "a")],
        services: vec![leaf("a", "enabled")],
    });
    assert_eq!(visible_names(&app), vec!["prod".to_string()]);
}

#[test]
fn search_filters_name_rule_and_service() {
    let mut app = App::new(vec![]);
    app.apply_snapshot(TraefikData {
        routers: vec![
            router("alpha", "svc-one"),
            router("beta", "svc-two"),
            router("gamma", "findme-svc"),
        ],
        services: vec![leaf("svc-one", "enabled")],
    });
    app.update_search_query("ALPHA".to_string());
    assert_eq!(visible_names(&app), vec!["alpha".to_string()]);
    app.update_search_query("host(`beta`)".to_string());
    assert_eq!(visible_names(&app), vec!["beta".to_string()]);
    app.update_search_query("findme".to_string());
    assert_eq!(visible_names(&app), vec!["gamma".to_string()]);
    app.update_search_query(String::new());
    assert_eq!(visible_names(&app).len(), 3);
}

#[test]
fn dead_first_sorts_down_then_up_then_unknown() {
    // r-down's only server is DOWN; r-up's service is a failover whose
    // fallback is enabled; r-unknown points at a missing service
    let mut app = App::new(vec![]);
    app.apply_snapshot(TraefikData {
        routers: vec![
            router("r-unknown", "missing"),
            router("r-up", "svcB"),
            router("r-down", "svcA"),
        ],
        services: vec![
            leaf_with_servers("svcA", &[("http://one", "DOWN")]),
            failover("svcB", "svcC", "svcD"),
            leaf("svcC", "disabled"),
            leaf("svcD", "enabled"),
        ],
    });
    assert_eq!(app.sort_mode(), SortMode::Dead);
    assert_eq!(
        visible_names(&app),
        vec!["r-down".to_string(), "r-up".to_string(), "r-unknown".to_string()]
    );
}

#[test]
fn dead_first_breaks_ties_by_name() {
    let mut app = App::new(vec![]);
    app.apply_snapshot(TraefikData {
        routers: vec![router("r2", "svcB"), router("r1", "svcA")],
        services: vec![
            leaf_with_servers("svcA", &[("http://one", "UP")]),
            failover("svcB", "svcC", "svcD"),
            leaf("svcC", "disabled"),
            leaf("svcD", "enabled"),
        ],
    });
    // both routers are Up, so the name is the tiebreak
    assert_eq!(visible_names(&app), vec!["r1".to_string(), "r2".to_string()]);
}

#[test]
fn name_sort_ignores_status() {
    let mut app = App::new(vec![]);
    app.apply_snapshot(TraefikData {
        routers: vec![router("zeta", "dead"), router("alpha", "dead")],
        services: vec![leaf("dead", "disabled")],
    });
    app.toggle_sort_mode();
    assert_eq!(app.sort_mode(), SortMode::Name);
    assert_eq!(visible_names(&app), vec!["alpha".to_string(), "zeta".to_string()]);
}

#[test]
fn recompute_is_idempotent() {
    let mut app = App::new(vec!["*skip*".to_string()]);
    app.apply_snapshot(TraefikData {
        routers: vec![
            router("one", "svc"),
            router("two", "svc"),
            router("skip-me", "svc"),
        ],
        services: vec![leaf("svc", "enabled")],
    });
    app.next_router();
    app.update_filtered_routers();
    let names_once = visible_names(&app);
    let selected_once = app.selected_router_index();
    let scroll_once = app.scroll_offset();
    app.update_filtered_routers();
    assert_eq!(visible_names(&app), names_once);
    assert_eq!(app.selected_router_index(), selected_once);
    assert_eq!(app.scroll_offset(), scroll_once);
}

#[test]
fn refresh_clamps_selection_to_shrunk_list() {
    let mut app = App::new(vec![]);
    app.apply_snapshot(TraefikData {
        routers: vec![router("a", "svc"), router("b", "svc"), router("c", "svc")],
        services: vec![leaf("svc", "enabled")],
    });
    app.go_to_last_router();
    assert_eq!(app.selected_router_index(), 2);
    app.apply_snapshot(TraefikData {
        routers: vec![router("a", "svc")],
        services: vec![leaf("svc", "enabled")],
    });
    assert_eq!(app.selected_router_index(), 0);
    assert_eq!(app.get_selected_router().expect("still selected").name, "a");
}

#[test]
fn refresh_to_empty_clears_selection() {
    let mut app = App::new(vec![]);
    app.apply_snapshot(TraefikData {
        routers: vec![router("a", "svc")],
        services: vec![leaf("svc", "enabled")],
    });
    assert!(app.get_selected_router().is_some());
    app.apply_snapshot(TraefikData { routers: vec![], services: vec![] });
    assert!(app.get_selected_router().is_none());
    assert_eq!(app.selected_router_index(), 0);
    assert_eq!(app.scroll_offset(), 0);
}

#[test]
fn navigation_clamps_at_both_ends() {
    let mut app = App::new(vec![]);
    app.apply_snapshot(TraefikData {
        routers: vec![router("a", "s"), router("b", "s"), router("c", "s")],
        services: vec![leaf("s", "enabled")],
    });
    app.previous_router();
    assert_eq!(app.selected_router_index(), 0);
    app.next_router();
    app.next_router();
    app.next_router();
    assert_eq!(app.selected_router_index(), 2);
    app.go_to_first_router();
    assert_eq!(app.selected_router_index(), 0);
    app.page_down(10);
    assert_eq!(app.selected_router_index(), 2);
    app.page_up(1);
    assert_eq!(app.selected_router_index(), 1);
    app.page_up(10);
    assert_eq!(app.selected_router_index(), 0);
    app.go_to_last_router();
    assert_eq!(app.selected_router_index(), 2);
}

#[test]
fn navigation_is_a_no_op_on_empty_list() {
    let mut app = App::new(vec![]);
    app.next_router();
    app.previous_router();
    app.go_to_first_router();
    app.go_to_last_router();
    app.page_down(5);
    app.page_up(5);
    assert_eq!(app.selected_router_index(), 0);
}

#[test]
fn search_and_sort_reset_position() {
    let mut app = App::new(vec![]);
    app.apply_snapshot(TraefikData {
        routers: vec![router("a", "s"), router("b", "s"), router("c", "s")],
        services: vec![leaf("s", "enabled")],
    });
    app.go_to_last_router();
    app.toggle_sort_mode();
    assert_eq!(app.selected_router_index(), 0);
    app.go_to_last_router();
    app.update_search_query("".to_string());
    assert_eq!(app.selected_router_index(), 0);
}

#[test]
fn fetch_error_preserves_snapshot() {
    let mut app = App::new(vec![]);
    app.apply_snapshot(TraefikData {
        routers: vec![router("a", "svc")],
        services: vec![leaf("svc", "enabled")],
    });
    app.apply_fetch_error("boom".to_string());
    assert_eq!(*app.state(), AppState::Error("boom".to_string()));
    assert_eq!(visible_names(&app), vec!["a".to_string()]);
    assert_eq!(app.traefik_data().expect("snapshot kept").routers.len(), 1);
}

#[test]
fn snapshot_restores_normal_or_search_state() {
    let mut app = App::new(vec![]);
    assert_eq!(*app.state(), AppState::Loading);
    app.apply_snapshot(TraefikData { routers: vec![], services: vec![] });
    assert_eq!(*app.state(), AppState::Normal);
    app.enter_search_mode();
    app.update_search_query("abc".to_string());
    app.apply_snapshot(TraefikData { routers: vec![], services: vec![] });
    assert_eq!(*app.state(), AppState::Search);
    app.exit_search_mode();
    assert_eq!(*app.state(), AppState::Normal);
    assert_eq!(app.search_query().as_str(), "");
}

#[test]
fn line_layout_counts_service_shapes() {
    // one failover router (2 + 3 lines), one regular with two servers
    // (2 + 1 lines, + 2 server lines only while selected), one unresolved
    // (2 + 1 lines); a separator line after all but the last row
    let mut app = App::new(vec![]);
    app.apply_snapshot(TraefikData {
        routers: vec![
            router("a-failover", "fo"),
            router("b-regular", "plain"),
            router("c-missing", "nope"),
        ],
        services: vec![
            failover("fo", "p", "f"),
            leaf("p", "enabled"),
            leaf("f", "enabled"),
            leaf_with_servers("plain", &[("http://one", "UP"), ("http://two", "DOWN")]),
        ],
    });
    // selection starts at row 0 (the failover row)
    assert_eq!(app.get_router_start_line(0), 0);
    assert_eq!(app.get_router_start_line(1), 6);
    assert_eq!(app.get_router_start_line(2), 10);
    assert_eq!(app.try_calculate_total_lines(), Some(13));
    // selecting the regular router makes its server lines count
    app.next_router();
    assert_eq!(app.get_router_start_line(2), 12);
    assert_eq!(app.try_calculate_total_lines(), Some(15));
}

#[test]
fn scrolling_follows_the_selection() {
    // three unresolved routers: rows of 4, 4 and 3 lines (11 in total)
    let mut app = App::new(vec![]);
    app.apply_snapshot(TraefikData {
        routers: vec![router("a", "x"), router("b", "x"), router("c", "x")],
        services: vec![],
    });
    app.go_to_last_router();
    app.ensure_selected_visible(4);
    // the last row spans lines 8..11; reveal its end: scroll to 11 - 4
    assert_eq!(app.scroll_offset(), 7);
    app.go_to_first_router();
    app.ensure_selected_visible(4);
    assert_eq!(app.scroll_offset(), 0);
}

#[test]
fn scroll_clamps_to_content_height() {
    let mut app = App::new(vec![]);
    app.apply_snapshot(TraefikData {
        routers: vec![router("a", "x"), router("b", "x")],
        services: vec![],
    });
    // total is 4 + 3 = 7 lines; a viewport taller than that pins scroll at 0
    app.go_to_last_router();
    app.ensure_selected_visible(50);
    assert_eq!(app.scroll_offset(), 0);
}

#[test]
fn oversized_selected_row_shows_its_start() {
    // selected regular service with five servers: its row spans
    // 2 + 1 + 5 + 1 = 9 lines, more than the 4-line viewport
    let mut app = App::new(vec![]);
    app.apply_snapshot(TraefikData {
        routers: vec![router("a", "up1"), router("big", "wide"), router("c", "up1")],
        services: vec![
            leaf("up1", "enabled"),
            leaf_with_servers(
                "wide",
                &[
                    ("http://s1", "UP"),
                    ("http://s2", "UP"),
                    ("http://s3", "UP"),
                    ("http://s4", "UP"),
                    ("http://s5", "UP"),
                ],
            ),
        ],
    });
    app.next_router();
    app.ensure_selected_visible(4);
    // row "big" starts at line 4 and overflows the viewport: show its start
    assert_eq!(app.scroll_offset(), 4);
}

#[test]
fn selected_router_getter_tracks_recompute() {
    let mut app = App::new(vec![]);
    app.apply_snapshot(TraefikData {
        routers: vec![router("b", "s"), router("a", "s")],
        services: vec![leaf("s", "enabled")],
    });
    // dead-first with equal status sorts by name: a then b
    assert_eq!(app.get_selected_router().expect("selected").name, "a");
}

#[test]
fn selected_router_follows_navigation() {
    let mut app = App::new(vec![]);
    app.apply_snapshot(TraefikData {
        routers: vec![router("a", "s"), router("b", "s"), router("c", "s")],
        services: vec![leaf("s", "enabled")],
    });
    assert_eq!(app.get_selected_router().expect("cursor on first").name, "a");
    app.next_router();
    assert_eq!(app.get_selected_router().expect("cursor moved").name, "b");
    app.go_to_last_router();
    assert_eq!(app.get_selected_router().expect("cursor on last").name, "c");
    app.previous_router();
    assert_eq!(app.get_selected_router().expect("cursor back up").name, "b");
}

#[test]
fn service_lookup_through_app() {
    let mut app = App::new(vec![]);
    assert!(app.get_service_by_name("svc").is_none());
    app.apply_snapshot(TraefikData {
        routers: vec![router("r", "svc")],
        services: vec![leaf("svc@docker", "enabled")],
    });
    assert_eq!(
        app.get_service_by_name("svc").expect("alias resolves").name,
        "svc@docker"
    );
    let r = router("r", "svc");
    assert_eq!(
        app.get_service_for_router(&r).expect("resolves").name,
        "svc@docker"
    );
    assert!(app.get_service_by_name("other").is_none());
}

#[test]
fn quit_flag_and_pending_g() {
    let mut app = App::new(vec![]);
    assert!(!app.should_quit());
    app.quit();
    assert!(app.should_quit());
    assert!(!app.pending_g_key());
    app.set_pending_g_key(true);
    assert!(app.pending_g_key());
}
