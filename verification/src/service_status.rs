//! The status-resolution engine: name lookup across provider-qualified
//! service identifiers, recursive failover status propagation with cycle
//! protection, and per-router health verdicts.

use vstd::prelude::*;
use vstd::string::StrSliceExecFns;
use crate::text::{is_prefix_of, starts_with_str, str_eq};
use crate::types::{Router, Service};

verus! {

/// Health verdict for a service or a router.
#[derive(Clone, Copy, Debug, PartialEq, Eq, Structural)]
pub enum ServiceStatus {
    Up,
    Down,
    Unknown,
}

/// Rank used by dead-first ordering: `Down` sorts before `Up`, which sorts
/// before `Unknown`.
pub open spec fn status_rank(s: ServiceStatus) -> int {
    match s {
        ServiceStatus::Down => 0,
        ServiceStatus::Up => 1,
        ServiceStatus::Unknown => 2,
    }
}

/// The resolved primary and fallback services of a failover service.
#[derive(Clone, Debug)]
pub struct FailoverServices<'a> {
    pub primary: Option<&'a Service>,
    pub fallback: Option<&'a Service>,
}

/// `name` names the target `target`: either exactly, or as
/// `target@someProvider`.
pub open spec fn alias_matches(name: Seq<char>, target: Seq<char>) -> bool {
    is_prefix_of(target, name) && (name.len() == target.len() || name[target.len() as int] == '@')
}

/// Whether `name` matches `target` under the alias rule.
fn alias_matches_exec(name: &str, target: &str) -> (r: bool)
    ensures
        r == alias_matches(name@, target@),
{
    if !starts_with_str(name, target) {
        return false;
    }
    let n_len: usize = name.unicode_len();
    let t_len: usize = target.unicode_len();
    if n_len == t_len {
        true
    } else {
        name.get_char(t_len) == '@'
    }
}

/// The first service whose name equals `target` exactly.
pub open spec fn find_exact(target: Seq<char>, services: Seq<Service>) -> Option<Service>
    decreases services.len(),
{
    if services.len() == 0 {
        None
    } else if services[0].name@ == target {
        Some(services[0])
    } else {
        find_exact(target, services.drop_first())
    }
}

/// The first service whose name matches `target` under the alias rule.
pub open spec fn find_alias(target: Seq<char>, services: Seq<Service>) -> Option<Service>
    decreases services.len(),
{
    if services.len() == 0 {
        None
    } else if alias_matches(services[0].name@, target) {
        Some(services[0])
    } else {
        find_alias(target, services.drop_first())
    }
}

/// Name resolution: the first exact match wins; failing that, the first
/// provider-alias match; absence is a valid outcome.
pub open spec fn find_service_spec(target: Seq<char>, services: Seq<Service>) -> Option<Service> {
    match find_exact(target, services) {
        Some(s) => Some(s),
        None => find_alias(target, services),
    }
}

/// The resolved `(primary, fallback)` pair of the service named `name`:
/// both absent unless `name` resolves exactly to a service that carries a
/// failover record.
pub open spec fn failover_targets(name: Seq<char>, services: Seq<Service>) -> (
    Option<Service>,
    Option<Service>,
) {
    match find_exact(name, services) {
        Some(svc) => match svc.failover {
            Some(cfg) => (
                find_service_spec(cfg.service@, services),
                find_service_spec(cfg.fallback@, services),
            ),
            None => (None, None),
        },
        None => (None, None),
    }
}

/// First service whose name equals `target` exactly, by scan order.
fn find_exact_ref<'a>(target: &str, services: &'a Vec<Service>) -> (r: Option<&'a Service>)
    ensures
        match r {
            Some(s) => find_exact(target@, services@) == Some(*s),
            None => find_exact(target@, services@) is None,
        },
{
    proof {
        assert(services@.skip(0) =~= services@);
    }
    let mut i: usize = 0;
    while i < services.len()
        invariant
            0 <= i <= services@.len(),
            find_exact(target@, services@) == find_exact(target@, services@.skip(i as int)),
        decreases services@.len() - i,
    {
        proof {
            assert(services@.skip(i as int)[0] == services@[i as int]);
        }
        if str_eq(services[i].name.as_str(), target) {
            return Some(&services[i]);
        }
        proof {
            assert(services@.skip(i as int).drop_first() =~= services@.skip(i + 1));
        }
        i += 1;
    }
    None
}

/// Find a service by name, supporting provider suffixes
/// (e.g. `service@provider`): an exact match is preferred over an alias
/// match, each by scan order.
pub fn find_service_by_name<'a>(target_name: &str, services: &'a Vec<Service>) -> (r: Option<
    &'a Service,
>)
    ensures
        match r {
            Some(s) => find_service_spec(target_name@, services@) == Some(*s),
            None => find_service_spec(target_name@, services@) is None,
        },
{
    let exact = find_exact_ref(target_name, services);
    if exact.is_some() {
        return exact;
    }
    proof {
        assert(services@.skip(0) =~= services@);
    }
    let mut i: usize = 0;
    while i < services.len()
        invariant
            0 <= i <= services@.len(),
            find_exact(target_name@, services@) is None,
            find_alias(target_name@, services@) == find_alias(
                target_name@,
                services@.skip(i as int),
            ),
        decreases services@.len() - i,
    {
        proof {
            assert(services@.skip(i as int)[0] == services@[i as int]);
        }
        if alias_matches_exec(services[i].name.as_str(), target_name) {
            return Some(&services[i]);
        }
        proof {
            assert(services@.skip(i as int).drop_first() =~= services@.skip(i + 1));
        }
        i += 1;
    }
    None
}

/// Resolve the failover targets of the service named `service_name`.
///
/// The service itself is looked up exactly (no alias rule); its `failover`
/// record's two names are then resolved with the alias rule.  Both results
/// are absent when the service does not exist or has no failover record.
pub fn get_failover_services<'a>(service_name: &str, services: &'a Vec<Service>) -> (r:
    FailoverServices<'a>)
    ensures
        match r.primary {
            Some(p) => failover_targets(service_name@, services@).0 == Some(*p),
            None => failover_targets(service_name@, services@).0 is None,
        },
        match r.fallback {
            Some(f) => failover_targets(service_name@, services@).1 == Some(*f),
            None => failover_targets(service_name@, services@).1 is None,
        },
{
    let svc_opt = find_exact_ref(service_name, services);
    match svc_opt {
        Some(svc) => match &svc.failover {
            Some(cfg) => {
                let primary = find_service_by_name(cfg.service.as_str(), services);
                let fallback = find_service_by_name(cfg.fallback.as_str(), services);
                FailoverServices { primary, fallback }
            },
            None => FailoverServices { primary: None, fallback: None },
        },
        None => FailoverServices { primary: None, fallback: None },
    }
}

/// The set of service names a snapshot holds.
pub open spec fn names_of(services: Seq<Service>) -> Set<Seq<char>> {
    services.map_values(|s: Service| s.name@).to_set()
}

/// The set of names a visiting list holds.
pub open spec fn visited_view(v: Seq<String>) -> Set<Seq<char>> {
    v.map_values(|s: String| s@).to_set()
}

/// A service is a failover node when its type says so or it carries a
/// failover record.
pub open spec fn is_failover_node(s: Service) -> bool {
    (s.service_type matches Some(t) && t@ == "failover"@) || s.failover is Some
}

/// Some server of the pool reports the status string `"UP"`.
pub open spec fn any_up(entries: Seq<(String, String)>) -> bool {
    exists|i: int| 0 <= i < entries.len() && entries[i].1@ == "UP"@
}

/// Verdict of a non-failover service: from its per-server statuses when it
/// has any, else from its own `status` field.
pub open spec fn leaf_status(s: Service) -> ServiceStatus {
    match s.server_status {
        Some(entries) => if any_up(entries@) {
            ServiceStatus::Up
        } else if entries@.len() > 0 {
            ServiceStatus::Down
        } else {
            ServiceStatus::Unknown
        },
        None => if s.status@ == "enabled"@ {
            ServiceStatus::Up
        } else if s.status@ == "disabled"@ {
            ServiceStatus::Down
        } else {
            ServiceStatus::Unknown
        },
    }
}

/// Every service a sequence contains keeps its membership when the first
/// element is dropped off the front.
proof fn lemma_contains_of_drop_first<A>(s: Seq<A>, x: A)
    requires
        s.len() > 0,
        s.drop_first().contains(x),
    ensures
        s.contains(x),
{
    let j = choose|j: int| 0 <= j < s.drop_first().len() && s.drop_first()[j] == x;
    assert(s[j + 1] == x);
}

/// An exact lookup returns an element of the service list.
proof fn lemma_find_exact_member(target: Seq<char>, services: Seq<Service>)
    ensures
        find_exact(target, services) matches Some(s) ==> services.contains(s),
    decreases services.len(),
{
    if services.len() > 0 {
        if services[0].name@ == target {
            assert(services.contains(services[0]));
        } else {
            lemma_find_exact_member(target, services.drop_first());
            match find_exact(target, services.drop_first()) {
                Some(s) => lemma_contains_of_drop_first(services, s),
                None => {},
            }
        }
    }
}

/// An alias lookup returns an element of the service list.
proof fn lemma_find_alias_member(target: Seq<char>, services: Seq<Service>)
    ensures
        find_alias(target, services) matches Some(s) ==> services.contains(s),
    decreases services.len(),
{
    if services.len() > 0 {
        if alias_matches(services[0].name@, target) {
            assert(services.contains(services[0]));
        } else {
            lemma_find_alias_member(target, services.drop_first());
            match find_alias(target, services.drop_first()) {
                Some(s) => lemma_contains_of_drop_first(services, s),
                None => {},
            }
        }
    }
}

/// The name of a resolved service is one of the snapshot's names.
pub proof fn lemma_find_service_member(target: Seq<char>, services: Seq<Service>)
    ensures
        find_service_spec(target, services) matches Some(s) ==> names_of(services).contains(
            s.name@,
        ),
{
    lemma_find_exact_member(target, services);
    lemma_find_alias_member(target, services);
    match find_service_spec(target, services) {
        Some(s) => {
            assert(services.contains(s));
            let i = choose|i: int| 0 <= i < services.len() && services[i] == s;
            assert(services.map_values(|x: Service| x.name@)[i] == s.name@);
            assert(services.map_values(|x: Service| x.name@).contains(s.name@));
        },
        None => {},
    }
}

/// The names of resolved failover targets are names of the snapshot.
pub proof fn lemma_failover_targets_members(name: Seq<char>, services: Seq<Service>)
    ensures
        failover_targets(name, services).0 matches Some(p) ==> names_of(services).contains(
            p.name@,
        ),
        failover_targets(name, services).1 matches Some(f) ==> names_of(services).contains(
            f.name@,
        ),
{
    match find_exact(name, services) {
        Some(svc) => match svc.failover {
            Some(cfg) => {
                lemma_find_service_member(cfg.service@, services);
                lemma_find_service_member(cfg.fallback@, services);
            },
            None => {},
        },
        None => {},
    }
}

/// Facts a recursive status call needs to see that its measure shrinks.
pub proof fn lemma_status_recursion_measure(
    service_name: Seq<char>,
    services: Seq<Service>,
    visited: Set<Seq<char>>,
)
    requires
        !visited.contains(service_name),
    ensures
        names_of(services).finite(),
        names_of(services).contains(service_name) ==> names_of(services).difference(
            visited.insert(service_name),
        ).len() < names_of(services).difference(visited).len(),
        !names_of(services).contains(service_name) ==> names_of(services).difference(
            visited.insert(service_name),
        ) == names_of(services).difference(visited),
        failover_targets(service_name, services).0 matches Some(p) ==> names_of(
            services,
        ).contains(p.name@),
        failover_targets(service_name, services).1 matches Some(f) ==> names_of(
            services,
        ).contains(f.name@),
{
    broadcast use vstd::seq_lib::seq_to_set_is_finite;
    broadcast use vstd::set::group_set_axioms;

    let names = names_of(services);
    lemma_failover_targets_members(service_name, services);
    if names.contains(service_name) {
        names.lemma_set_insert_diff_decreases(visited, service_name);
    } else {
        assert(names.difference(visited.insert(service_name)) =~= names.difference(visited));
    }
}

/// Verdict of a service, propagating through failover targets, with the
/// visiting set guarding against cycles: a service already being visited
/// counts as `Unknown`.
///
/// A failover node is `Up` when its primary is `Up`, else `Up` when its
/// fallback is `Up`, else `Down` when either branch is `Down`, else
/// `Unknown`; an absent target counts as `Unknown`.
pub open spec fn service_status_spec(
    service: Service,
    services: Seq<Service>,
    visited: Set<Seq<char>>,
) -> ServiceStatus
    decreases
        names_of(services).difference(visited).len(),
        (if names_of(services).contains(service.name@) {
            0int
        } else {
            1int
        }),
{
    if visited.contains(service.name@) {
        ServiceStatus::Unknown
    } else if is_failover_node(service) {
        let visiting = visited.insert(service.name@);
        let targets = failover_targets(service.name@, services);
        proof {
            lemma_status_recursion_measure(service.name@, services, visited);
        }
        let primary_status = match targets.0 {
            Some(p) => service_status_spec(p, services, visiting),
            None => ServiceStatus::Unknown,
        };
        if primary_status == ServiceStatus::Up {
            ServiceStatus::Up
        } else {
            let fallback_status = match targets.1 {
                Some(f) => service_status_spec(f, services, visiting),
                None => ServiceStatus::Unknown,
            };
            if fallback_status == ServiceStatus::Up {
                ServiceStatus::Up
            } else if primary_status == ServiceStatus::Down || fallback_status
                == ServiceStatus::Down {
                ServiceStatus::Down
            } else {
                ServiceStatus::Unknown
            }
        }
    } else {
        leaf_status(service)
    }
}

/// Whether the visiting list holds `name`.
fn contains_name(visited: &Vec<String>, name: &String) -> (r: bool)
    ensures
        r == visited_view(visited@).contains(name@),
{
    let mut i: usize = 0;
    while i < visited.len()
        invariant
            0 <= i <= visited@.len(),
            forall|j: int| 0 <= j < i ==> visited@[j]@ != name@,
        decreases visited@.len() - i,
    {
        if str_eq(visited[i].as_str(), name.as_str()) {
            proof {
                assert(visited@.map_values(|s: String| s@)[i as int] == name@);
                assert(visited@.map_values(|s: String| s@).contains(name@));
            }
            return true;
        }
        i += 1;
    }
    proof {
        let mapped = visited@.map_values(|s: String| s@);
        assert forall|k: int| 0 <= k < mapped.len() implies #[trigger] mapped[k] != name@ by {
            assert(visited@[k]@ != name@);
        }
        assert(!mapped.contains(name@));
    }
    false
}

/// Whether the service is a failover node.
pub(crate) fn is_failover_exec(service: &Service) -> (r: bool)
    ensures
        r == is_failover_node(*service),
{
    let by_type = match &service.service_type {
        Some(t) => str_eq(t.as_str(), "failover"),
        None => false,
    };
    by_type || service.failover.is_some()
}

/// Verdict of a non-failover service.
fn leaf_status_exec(service: &Service) -> (r: ServiceStatus)
    ensures
        r == leaf_status(*service),
{
    match &service.server_status {
        Some(entries) => {
            let mut i: usize = 0;
            while i < entries.len()
                invariant
                    0 <= i <= entries@.len(),
                    service.server_status matches Some(e) && e == *entries,
                    forall|j: int| 0 <= j < i ==> entries@[j].1@ != "UP"@,
                decreases entries@.len() - i,
            {
                let pair = &entries[i];
                if str_eq(pair.1.as_str(), "UP") {
                    proof {
                        assert(entries@[i as int].1@ == "UP"@);
                        assert(any_up(entries@));
                    }
                    return ServiceStatus::Up;
                }
                i += 1;
            }
            proof {
                assert(!any_up(entries@));
            }
            if entries.len() > 0 {
                ServiceStatus::Down
            } else {
                ServiceStatus::Unknown
            }
        },
        None => {
            if str_eq(service.status.as_str(), "enabled") {
                ServiceStatus::Up
            } else if str_eq(service.status.as_str(), "disabled") {
                ServiceStatus::Down
            } else {
                ServiceStatus::Unknown
            }
        },
    }
}

/// Verdict of a service, handling failover recursively; the visiting list
/// is restored on every exit path.
pub fn get_service_status(
    service: &Service,
    all_services: &Vec<Service>,
    visited_services: &mut Vec<String>,
) -> (r: ServiceStatus)
    ensures
        final(visited_services)@ == old(visited_services)@,
        r == service_status_spec(
            *service,
            all_services@,
            visited_view(old(visited_services)@),
        ),
    decreases
        names_of(all_services@).difference(visited_view(visited_services@)).len(),
        (if names_of(all_services@).contains(service.name@) {
            0int
        } else {
            1int
        }),
{
    if contains_name(visited_services, &service.name) {
        return ServiceStatus::Unknown;
    }
    let ghost visited0 = visited_view(old(visited_services)@);
    let ghost seq0 = visited_services@;
    visited_services.push(service.name.clone());
    proof {
        broadcast use vstd::seq_lib::seq_to_set_is_finite;

        assert(visited_services@.map_values(|s: String| s@) =~= seq0.map_values(|s: String| s@)
            + seq![service.name@]);
        Seq::<Seq<char>>::lemma_to_set_insert_commutes(
            seq0.map_values(|s: String| s@),
            service.name@,
        );
        assert(visited_view(visited_services@) == visited0.insert(service.name@));
        lemma_status_recursion_measure(service.name@, all_services@, visited0);
    }
    let ghost visiting = visited_view(visited_services@);
    let result = if is_failover_exec(service) {
        let fo = get_failover_services(service.name.as_str(), all_services);
        let primary_status = match fo.primary {
            Some(p) => get_service_status(p, all_services, visited_services),
            None => ServiceStatus::Unknown,
        };
        if primary_status == ServiceStatus::Up {
            ServiceStatus::Up
        } else {
            let fallback_status = match fo.fallback {
                Some(f) => get_service_status(f, all_services, visited_services),
                None => ServiceStatus::Unknown,
            };
            if fallback_status == ServiceStatus::Up {
                ServiceStatus::Up
            } else if primary_status == ServiceStatus::Down || fallback_status
                == ServiceStatus::Down {
                ServiceStatus::Down
            } else {
                ServiceStatus::Unknown
            }
        }
    } else {
        leaf_status_exec(service)
    };
    visited_services.pop();
    proof {
        assert(visited_services@ =~= old(visited_services)@);
    }
    result
}

/// All services matching `target` under the alias rule, in scan order.
pub open spec fn matched_services(target: Seq<char>, services: Seq<Service>) -> Seq<Service>
    decreases services.len(),
{
    if services.len() == 0 {
        Seq::empty()
    } else {
        let rest = matched_services(target, services.drop_last());
        if alias_matches(services.last().name@, target) {
            rest.push(services.last())
        } else {
            rest
        }
    }
}

/// All services that match a router's service name (with provider-suffix
/// support), in scan order.
pub fn get_router_services<'a>(router: &Router, services: &'a Vec<Service>) -> (r: Vec<
    &'a Service,
>)
    ensures
        r@.map_values(|s: &Service| *s) == matched_services(router.service@, services@),
{
    let mut acc: Vec<&'a Service> = Vec::new();
    proof {
        assert(acc@.map_values(|s: &Service| *s) =~= matched_services(
            router.service@,
            services@.take(0),
        ));
    }
    let mut i: usize = 0;
    while i < services.len()
        invariant
            0 <= i <= services@.len(),
            acc@.map_values(|s: &Service| *s) == matched_services(
                router.service@,
                services@.take(i as int),
            ),
        decreases services@.len() - i,
    {
        proof {
            assert(services@.take(i + 1).drop_last() =~= services@.take(i as int));
            assert(services@.take(i + 1).last() == services@[i as int]);
        }
        if alias_matches_exec(services[i].name.as_str(), router.service.as_str()) {
            let ghost old_acc = acc@;
            acc.push(&services[i]);
            proof {
                assert(acc@.map_values(|s: &Service| *s) =~= old_acc.map_values(
                    |s: &Service| *s,
                ).push(services@[i as int]));
            }
        }
        i += 1;
    }
    proof {
        assert(services@.take(services@.len() as int) =~= services@);
    }
    acc
}

/// The service a matched entry contributes when it counts as alive: a
/// failover node contributes its primary when that is `Up`, else its
/// fallback when that is `Up`; a regular service contributes itself when
/// it is `Up`.  `None` when the entry is not alive.  Every verdict uses a
/// fresh, empty visiting set: cycle tracking does not span siblings.
pub open spec fn service_alive_choice(svc: Service, services: Seq<Service>) -> Option<Service> {
    if is_failover_node(svc) {
        let targets = failover_targets(svc.name@, services);
        let pstat = match targets.0 {
            Some(p) => service_status_spec(p, services, Set::empty()),
            None => ServiceStatus::Unknown,
        };
        let fstat = match targets.1 {
            Some(f) => service_status_spec(f, services, Set::empty()),
            None => ServiceStatus::Unknown,
        };
        if pstat == ServiceStatus::Up {
            targets.0
        } else if fstat == ServiceStatus::Up {
            targets.1
        } else {
            None
        }
    } else {
        if service_status_spec(svc, services, Set::empty()) == ServiceStatus::Up {
            Some(svc)
        } else {
            None
        }
    }
}

/// How many of the matched services count as alive.
pub open spec fn alive_count(matched: Seq<Service>, services: Seq<Service>) -> int
    decreases matched.len(),
{
    if matched.len() == 0 {
        0
    } else {
        alive_count(matched.drop_last(), services) + (if service_alive_choice(
            matched.last(),
            services,
        ) is Some {
            1int
        } else {
            0int
        })
    }
}

/// The service contributed by the first alive matched entry, in match
/// order.
pub open spec fn active_service(matched: Seq<Service>, services: Seq<Service>) -> Option<Service>
    decreases matched.len(),
{
    if matched.len() == 0 {
        None
    } else {
        let rest = active_service(matched.drop_last(), services);
        if rest is Some {
            rest
        } else {
            service_alive_choice(matched.last(), services)
        }
    }
}

/// Status of a router: `Up` when some matched service is alive, `Unknown`
/// when nothing matched the router's service name, `Down` otherwise.
pub open spec fn router_status_spec(router: Router, services: Seq<Service>) -> ServiceStatus {
    let matched = matched_services(router.service@, services);
    if alive_count(matched, services) > 0 {
        ServiceStatus::Up
    } else if matched.len() == 0 {
        ServiceStatus::Unknown
    } else {
        ServiceStatus::Down
    }
}

/// An empty visiting list views to the empty set of names.
proof fn lemma_empty_visited_view()
    ensures
        visited_view(Seq::<String>::empty()) == Set::<Seq<char>>::empty(),
{
    broadcast use vstd::set::group_set_axioms;

    assert(Seq::<String>::empty().map_values(|s: String| s@).len() == 0);
    assert(visited_view(Seq::<String>::empty()) =~= Set::<Seq<char>>::empty());
}

/// The alive choice of one matched service, each verdict computed with a
/// fresh visiting list.
fn service_alive_choice_exec<'a>(svc: &'a Service, services: &'a Vec<Service>) -> (r: Option<
    &'a Service,
>)
    ensures
        match r {
            Some(s) => service_alive_choice(*svc, services@) == Some(*s),
            None => service_alive_choice(*svc, services@) is None,
        },
{
    proof {
        lemma_empty_visited_view();
    }
    if is_failover_exec(svc) {
        let fo = get_failover_services(svc.name.as_str(), services);
        let primary_status = match fo.primary {
            Some(p) => {
                let mut visited: Vec<String> = Vec::new();
                get_service_status(p, services, &mut visited)
            },
            None => ServiceStatus::Unknown,
        };
        let fallback_status = match fo.fallback {
            Some(f) => {
                let mut visited: Vec<String> = Vec::new();
                get_service_status(f, services, &mut visited)
            },
            None => ServiceStatus::Unknown,
        };
        if primary_status == ServiceStatus::Up {
            fo.primary
        } else if fallback_status == ServiceStatus::Up {
            fo.fallback
        } else {
            None
        }
    } else {
        let mut visited: Vec<String> = Vec::new();
        let status = get_service_status(svc, services, &mut visited);
        if status == ServiceStatus::Up {
            Some(svc)
        } else {
            None
        }
    }
}

/// Determine router-level status, the active service, and how many matched
/// services are alive.
pub fn get_router_status_info<'a>(router: &Router, services: &'a Vec<Service>) -> (r: (
    ServiceStatus,
    Option<&'a Service>,
    usize,
))
    ensures
        r.0 == router_status_spec(*router, services@),
        match r.1 {
            Some(s) => active_service(
                matched_services(router.service@, services@),
                services@,
            ) == Some(*s),
            None => active_service(matched_services(router.service@, services@), services@)
                is None,
        },
        r.2 as int == alive_count(matched_services(router.service@, services@), services@),
{
    let router_services = get_router_services(router, services);
    let ghost matched = matched_services(router.service@, services@);
    let mut alive: usize = 0;
    let mut active: Option<&'a Service> = None;
    proof {
        assert(matched.take(0) =~= Seq::<Service>::empty());
    }
    let mut i: usize = 0;
    while i < router_services.len()
        invariant
            0 <= i <= router_services@.len(),
            alive <= i,
            router_services@.map_values(|s: &Service| *s) == matched,
            matched == matched_services(router.service@, services@),
            alive as int == alive_count(matched.take(i as int), services@),
            match active {
                Some(s) => active_service(matched.take(i as int), services@) == Some(*s),
                None => active_service(matched.take(i as int), services@) is None,
            },
        decreases router_services@.len() - i,
    {
        proof {
            assert(matched.take(i + 1).drop_last() =~= matched.take(i as int));
            assert(matched.take(i + 1).last() == matched[i as int]);
            assert(matched[i as int] == router_services@.map_values(|s: &Service| *s)[i as int]);
        }
        let svc: &Service = router_services[i];
        let choice = service_alive_choice_exec(svc, services);
        match choice {
            Some(chosen) => {
                alive = alive + 1;
                if active.is_none() {
                    active = Some(chosen);
                }
            },
            None => {},
        }
        i += 1;
    }
    proof {
        assert(matched.take(matched.len() as int) =~= matched);
    }
    let status = if alive > 0 {
        ServiceStatus::Up
    } else if router_services.len() == 0 {
        ServiceStatus::Unknown
    } else {
        ServiceStatus::Down
    };
    (status, active, alive)
}

/// A service with no failover behaviour is judged from its own fields
/// alone: starting from a fresh visiting set, its verdict is
/// `leaf_status`, whatever the service list holds.
pub proof fn lemma_leaf_status_independent(s: Service, services: Seq<Service>)
    requires
        !is_failover_node(s),
    ensures
        service_status_spec(s, services, Set::empty()) == leaf_status(s),
{
    broadcast use vstd::set::group_set_axioms;

    assert(!Set::<Seq<char>>::empty().contains(s.name@));
}

/// A failover service whose primary reports `Up` is `Up`, whatever its
/// fallback reports.
pub proof fn lemma_failover_primary_up(
    s: Service,
    services: Seq<Service>,
    visited: Set<Seq<char>>,
)
    requires
        !visited.contains(s.name@),
        is_failover_node(s),
        failover_targets(s.name@, services).0 matches Some(p) && service_status_spec(
            p,
            services,
            visited.insert(s.name@),
        ) == ServiceStatus::Up,
    ensures
        service_status_spec(s, services, visited) == ServiceStatus::Up,
{
}

/// A failover service whose targets all resolve back to its own name — a
/// self-cycle — terminates with verdict `Unknown`.
pub proof fn lemma_self_cycle_unknown(s: Service, services: Seq<Service>)
    requires
        is_failover_node(s),
        failover_targets(s.name@, services).0 matches Some(p) ==> p.name@ == s.name@,
        failover_targets(s.name@, services).1 matches Some(f) ==> f.name@ == s.name@,
    ensures
        service_status_spec(s, services, Set::empty()) == ServiceStatus::Unknown,
{
    broadcast use vstd::set::group_set_axioms;

    reveal_with_fuel(service_status_spec, 2);
    let empty = Set::<Seq<char>>::empty();
    let visiting = empty.insert(s.name@);
    assert(!empty.contains(s.name@));
    match failover_targets(s.name@, services).0 {
        Some(p) => {
            assert(visiting.contains(p.name@));
        },
        None => {},
    }
    match failover_targets(s.name@, services).1 {
        Some(f) => {
            assert(visiting.contains(f.name@));
        },
        None => {},
    }
}

} // verus!
