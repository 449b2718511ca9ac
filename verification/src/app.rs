//! The stateful list view-model: ignore and search filters, sort mode,
//! selection and scroll state, and the variable-height line layout that
//! keeps the selected router visible across refreshes.
//!
//! The whole state is mirrored by the ghost [`AppModel`], and every
//! operation's contract pins the new model down as a function of the old
//! one.

use vstd::prelude::*;
use vstd::string::StrSliceExecFns;
use crate::service_status::{
    find_service_spec, router_status_spec, status_rank, find_service_by_name,
    get_router_status_info, is_failover_exec, is_failover_node, ServiceStatus,
};
use crate::text::{
    contains_seq, contains_str, ends_with_str, is_prefix_of, is_suffix_of, lex_lt, lex_lt_str,
    lower_of, lowercase, starts_with_str,
};
use crate::types::{Router, Service, TraefikData};

verus! {

/// What the session is currently doing, as shown to the renderer.
#[derive(Clone, Debug, PartialEq)]
pub enum AppState {
    Normal,
    Search,
    Loading,
    Error(String),
}

/// List ordering: dead routers first, or purely by name.
#[derive(Clone, Copy, Debug, PartialEq, Eq, Structural)]
pub enum SortMode {
    Dead,
    Name,
}

/// The mathematical state of the view-model.
#[verifier::ext_equal]
pub ghost struct AppModel {
    pub state: AppState,
    pub quit_requested: bool,
    pub data: Option<TraefikData>,
    pub filtered: Seq<usize>,
    pub query: Seq<char>,
    pub mode: SortMode,
    pub scroll: int,
    pub selected: int,
    pub pending_g: bool,
    pub patterns: Seq<String>,
}

/// The session state of the dashboard list.
///
/// `filtered_routers` holds indices into the snapshot's router list, in
/// display order.
pub struct App {
    state: AppState,
    quit_requested: bool,
    traefik_data: Option<TraefikData>,
    filtered_routers: Vec<usize>,
    search_query: String,
    sort_mode: SortMode,
    scroll_offset: usize,
    selected_router_index: usize,
    pending_g_key: bool,
    ignore_patterns: Vec<String>,
}

impl View for App {
    type V = AppModel;

    closed spec fn view(&self) -> AppModel {
        AppModel {
            state: self.state,
            quit_requested: self.quit_requested,
            data: self.traefik_data,
            filtered: self.filtered_routers@,
            query: self.search_query@,
            mode: self.sort_mode,
            scroll: self.scroll_offset as int,
            selected: self.selected_router_index as int,
            pending_g: self.pending_g_key,
            patterns: self.ignore_patterns@,
        }
    }
}

/// How many routers the current snapshot holds.
pub open spec fn data_router_count(m: AppModel) -> int {
    match m.data {
        Some(d) => d.routers@.len() as int,
        None => 0,
    }
}

/// Well-formedness: the filtered list only indexes into the snapshot, and
/// the cursor stays inside the filtered list (at zero when it is empty).
pub open spec fn wf(m: AppModel) -> bool {
    &&& (m.filtered.len() > 0 ==> m.data is Some)
    &&& (forall|i: int|
        0 <= i < m.filtered.len() ==> (#[trigger] m.filtered[i]) < data_router_count(m))
    &&& (m.filtered.len() > 0 ==> 0 <= m.selected < m.filtered.len())
    &&& (m.filtered.len() == 0 ==> m.selected == 0)
    &&& 0 <= m.scroll
}

/// An ignore pattern, already lowercased, matches a lowercased router name:
/// `*foo*` means contains, `*foo` means ends-with, `foo*` means
/// starts-with, and a bare `foo` means contains.
pub open spec fn pattern_matches_lower(pl: Seq<char>, nl: Seq<char>) -> bool {
    if pl.len() >= 2 && pl[0] == '*' && pl[pl.len() - 1] == '*' {
        contains_seq(nl, pl.subrange(1, pl.len() - 1))
    } else if pl.len() >= 1 && pl[0] == '*' {
        is_suffix_of(pl.subrange(1, pl.len() as int), nl)
    } else if pl.len() >= 1 && pl[pl.len() - 1] == '*' {
        is_prefix_of(pl.subrange(0, pl.len() - 1), nl)
    } else {
        contains_seq(nl, pl)
    }
}

/// The router name matches some ignore pattern (case-insensitively).
pub open spec fn ignored_by(patterns: Seq<String>, name: Seq<char>) -> bool {
    exists|i: int|
        0 <= i < patterns.len() && pattern_matches_lower(
            lower_of(#[trigger] patterns[i]@),
            lower_of(name),
        )
}

/// The router's name, rule or service name contains the query,
/// case-insensitively.
pub open spec fn search_matches(query: Seq<char>, r: Router) -> bool {
    ||| contains_seq(lower_of(r.name@), lower_of(query))
    ||| contains_seq(lower_of(r.rule@), lower_of(query))
    ||| contains_seq(lower_of(r.service@), lower_of(query))
}

/// A router survives both filters: no ignore pattern matches it, and the
/// search query (when non-empty) does.
pub open spec fn router_kept(r: Router, patterns: Seq<String>, query: Seq<char>) -> bool {
    !ignored_by(patterns, r.name@) && (query.len() == 0 || search_matches(query, r))
}

/// The indices of the routers that survive the filters, in snapshot order.
pub open spec fn kept_indices(routers: Seq<Router>, patterns: Seq<String>, query: Seq<char>) -> Seq<
    usize,
>
    decreases routers.len(),
{
    if routers.len() == 0 {
        Seq::empty()
    } else {
        let rest = kept_indices(routers.drop_last(), patterns, query);
        if router_kept(routers.last(), patterns, query) {
            rest.push((routers.len() - 1) as usize)
        } else {
            rest
        }
    }
}

/// Whether router `a` sorts strictly before router `b`: dead-first mode
/// orders by status rank then name; name mode orders purely by name.
pub open spec fn router_before(a: Router, b: Router, services: Seq<Service>, mode: SortMode) -> bool {
    match mode {
        SortMode::Dead => {
            let ra = status_rank(router_status_spec(a, services));
            let rb = status_rank(router_status_spec(b, services));
            ra < rb || (ra == rb && lex_lt(a.name@, b.name@))
        },
        SortMode::Name => lex_lt(a.name@, b.name@),
    }
}

/// Stable insertion of `idx` into an ordered index sequence: `idx` goes in
/// front of the first entry it sorts strictly before, hence after entries
/// it ties with.
pub open spec fn insert_sorted(
    idx: usize,
    sorted: Seq<usize>,
    routers: Seq<Router>,
    services: Seq<Service>,
    mode: SortMode,
) -> Seq<usize>
    decreases sorted.len(),
{
    if sorted.len() == 0 {
        seq![idx]
    } else if router_before(routers[idx as int], routers[sorted[0] as int], services, mode) {
        seq![idx] + sorted
    } else {
        seq![sorted[0]] + insert_sorted(idx, sorted.drop_first(), routers, services, mode)
    }
}

/// Stable insertion sort of the index sequence, processing left to right.
pub open spec fn sort_indices(
    ids: Seq<usize>,
    routers: Seq<Router>,
    services: Seq<Service>,
    mode: SortMode,
) -> Seq<usize>
    decreases ids.len(),
{
    if ids.len() == 0 {
        Seq::empty()
    } else {
        insert_sorted(
            ids.last(),
            sort_indices(ids.drop_last(), routers, services, mode),
            routers,
            services,
            mode,
        )
    }
}

/// The whole recompute pipeline: filter the snapshot's routers, then sort
/// the surviving indices.
pub open spec fn pipeline(
    routers: Seq<Router>,
    services: Seq<Service>,
    patterns: Seq<String>,
    query: Seq<char>,
    mode: SortMode,
) -> Seq<usize> {
    sort_indices(kept_indices(routers, patterns, query), routers, services, mode)
}

/// The model after a recompute: with no snapshot nothing changes; with one,
/// the filtered list is rebuilt, the cursor is reset (on filter or sort
/// changes) or clamped to the new length (on background refreshes), and an
/// empty result clears cursor, scroll and selection.
pub open spec fn recompute_model(m: AppModel, reset: bool) -> AppModel {
    match m.data {
        None => m,
        Some(d) => {
            let f = pipeline(d.routers@, d.services@, m.patterns, m.query, m.mode);
            let sel = if reset {
                0int
            } else if m.selected >= f.len() && f.len() > 0 {
                f.len() - 1
            } else {
                m.selected
            };
            let scr = if reset {
                0int
            } else {
                m.scroll
            };
            if f.len() > 0 {
                AppModel { filtered: f, selected: sel, scroll: scr, ..m }
            } else {
                AppModel { filtered: f, selected: 0, scroll: 0, ..m }
            }
        },
    }
}

/// An already-lowercased ignore pattern matches the lowercased name.
fn pattern_match_exec(pl: &str, nl: &str) -> (r: bool)
    ensures
        r == pattern_matches_lower(pl@, nl@),
{
    let pl_len: usize = pl.unicode_len();
    if pl_len >= 2 && pl.get_char(0) == '*' && pl.get_char(pl_len - 1) == '*' {
        let middle = pl.substring_char(1, pl_len - 1);
        contains_str(nl, middle)
    } else if pl_len >= 1 && pl.get_char(0) == '*' {
        let suffix = pl.substring_char(1, pl_len);
        ends_with_str(nl, suffix)
    } else if pl_len >= 1 && pl.get_char(pl_len - 1) == '*' {
        let prefix = pl.substring_char(0, pl_len - 1);
        starts_with_str(nl, prefix)
    } else {
        contains_str(nl, pl)
    }
}

/// The router matches the (non-empty) search query.
fn search_match_exec(router: &Router, query: &String) -> (r: bool)
    ensures
        r == search_matches(query@, *router),
{
    let ql = lowercase(query.as_str());
    let nl = lowercase(router.name.as_str());
    if contains_str(nl.as_str(), ql.as_str()) {
        return true;
    }
    let rl = lowercase(router.rule.as_str());
    if contains_str(rl.as_str(), ql.as_str()) {
        return true;
    }
    let sl = lowercase(router.service.as_str());
    contains_str(sl.as_str(), ql.as_str())
}

/// Executable status rank.
fn rank_exec(s: ServiceStatus) -> (r: u8)
    ensures
        r as int == status_rank(s),
{
    match s {
        ServiceStatus::Down => 0,
        ServiceStatus::Up => 1,
        ServiceStatus::Unknown => 2,
    }
}

/// Whether router `a` sorts strictly before router `b`.
fn router_before_exec(a: &Router, b: &Router, services: &Vec<Service>, mode: SortMode) -> (r: bool)
    ensures
        r == router_before(*a, *b, services@, mode),
{
    match mode {
        SortMode::Dead => {
            let a_info = get_router_status_info(a, services);
            let b_info = get_router_status_info(b, services);
            let ra = rank_exec(a_info.0);
            let rb = rank_exec(b_info.0);
            if ra < rb {
                true
            } else if ra == rb {
                lex_lt_str(a.name.as_str(), b.name.as_str())
            } else {
                false
            }
        },
        SortMode::Name => lex_lt_str(a.name.as_str(), b.name.as_str()),
    }
}

/// Insert `idx` into the ordered index list, after any entries it ties
/// with.
fn insert_sorted_exec(v: &mut Vec<usize>, idx: usize, data: &TraefikData, mode: SortMode)
    requires
        idx < data.routers@.len(),
        forall|k: int| 0 <= k < old(v)@.len() ==> (#[trigger] old(v)@[k]) < data.routers@.len(),
    ensures
        final(v)@ == insert_sorted(idx, old(v)@, data.routers@, data.services@, mode),
        forall|k: int| 0 <= k < final(v)@.len() ==> (#[trigger] final(v)@[k]) < data.routers@.len(),
{
    let ghost s = v@;
    proof {
        assert(s.skip(0) =~= s);
        assert(s.take(0) =~= Seq::<usize>::empty());
    }
    let mut j: usize = 0;
    while j < v.len()
        invariant
            0 <= j <= v@.len(),
            v@ == s,
            s == old(v)@,
            idx < data.routers@.len(),
            forall|k: int| 0 <= k < s.len() ==> (#[trigger] s[k]) < data.routers@.len(),
            insert_sorted(idx, s, data.routers@, data.services@, mode) == s.take(j as int)
                + insert_sorted(idx, s.skip(j as int), data.routers@, data.services@, mode),
            forall|k: int|
                0 <= k < j ==> !router_before(
                    data.routers@[idx as int],
                    data.routers@[#[trigger] s[k] as int],
                    data.services@,
                    mode,
                ),
        decreases v@.len() - j,
    {
        proof {
            assert(s.skip(j as int)[0] == s[j as int]);
        }
        let here: usize = v[j];
        if router_before_exec(&data.routers[idx], &data.routers[here], &data.services, mode) {
            v.insert(j, idx);
            proof {
                assert(seq![idx] + s.skip(j as int) == insert_sorted(
                    idx,
                    s.skip(j as int),
                    data.routers@,
                    data.services@,
                    mode,
                ));
                assert(v@ =~= s.take(j as int) + (seq![idx] + s.skip(j as int)));
            }
            return ;
        }
        proof {
            assert(s.skip(j as int).drop_first() =~= s.skip(j + 1));
            assert(s.take(j + 1) =~= s.take(j as int) + seq![s[j as int]]);
            assert(s.take(j as int) + (seq![s[j as int]] + insert_sorted(
                idx,
                s.skip(j + 1),
                data.routers@,
                data.services@,
                mode,
            )) =~= s.take(j + 1) + insert_sorted(
                idx,
                s.skip(j + 1),
                data.routers@,
                data.services@,
                mode,
            ));
        }
        j += 1;
    }
    proof {
        assert(s.skip(s.len() as int) =~= Seq::<usize>::empty());
    }
    v.push(idx);
    proof {
        assert(v@ =~= s.take(s.len() as int) + seq![idx]);
        assert(s.take(s.len() as int) =~= s);
    }
}

/// Filter the snapshot's routers by the ignore patterns and the search
/// query, then sort the surviving indices by the current mode.
fn filter_and_sort(
    data: &TraefikData,
    patterns: &Vec<String>,
    query: &String,
    mode: SortMode,
) -> (r: Vec<usize>)
    ensures
        r@ == pipeline(data.routers@, data.services@, patterns@, query@, mode),
        forall|k: int| 0 <= k < r@.len() ==> (#[trigger] r@[k]) < data.routers@.len(),
{
    let has_query = !query.as_str().is_empty();
    let mut kept: Vec<usize> = Vec::new();
    proof {
        assert(data.routers@.take(0) =~= Seq::<Router>::empty());
    }
    let mut i: usize = 0;
    while i < data.routers.len()
        invariant
            0 <= i <= data.routers@.len(),
            has_query == (query@.len() != 0),
            kept@ == kept_indices(data.routers@.take(i as int), patterns@, query@),
            forall|k: int| 0 <= k < kept@.len() ==> (#[trigger] kept@[k]) < i,
        decreases data.routers@.len() - i,
    {
        proof {
            assert(data.routers@.take(i + 1).drop_last() =~= data.routers@.take(i as int));
            assert(data.routers@.take(i + 1).last() == data.routers@[i as int]);
        }
        let router = &data.routers[i];
        let ignored = matches_ignore_pattern_exec(patterns, router.name.as_str());
        let keep = if ignored {
            false
        } else if has_query {
            search_match_exec(router, query)
        } else {
            true
        };
        if keep {
            kept.push(i);
        }
        i += 1;
    }
    proof {
        assert(data.routers@.take(data.routers@.len() as int) =~= data.routers@);
        assert(kept@.take(0) =~= Seq::<usize>::empty());
    }
    let mut sorted: Vec<usize> = Vec::new();
    let mut k: usize = 0;
    while k < kept.len()
        invariant
            0 <= k <= kept@.len(),
            kept@ == kept_indices(data.routers@, patterns@, query@),
            forall|j: int| 0 <= j < kept@.len() ==> (#[trigger] kept@[j]) < data.routers@.len(),
            sorted@ == sort_indices(
                kept@.take(k as int),
                data.routers@,
                data.services@,
                mode,
            ),
            forall|j: int|
                0 <= j < sorted@.len() ==> (#[trigger] sorted@[j]) < data.routers@.len(),
        decreases kept@.len() - k,
    {
        proof {
            assert(kept@.take(k + 1).drop_last() =~= kept@.take(k as int));
            assert(kept@.take(k + 1).last() == kept@[k as int]);
        }
        let idx: usize = kept[k];
        insert_sorted_exec(&mut sorted, idx, data, mode);
        k += 1;
    }
    proof {
        assert(kept@.take(kept@.len() as int) =~= kept@);
    }
    sorted
}

/// The model a fresh session starts from: loading, dead-first ordering,
/// nothing fetched yet, the cursor parked at the top.
pub open spec fn init_model(patterns: Seq<String>) -> AppModel {
    AppModel {
        state: AppState::Loading,
        quit_requested: false,
        data: None,
        filtered: Seq::empty(),
        query: Seq::empty(),
        mode: SortMode::Dead,
        scroll: 0,
        selected: 0,
        pending_g: false,
        patterns,
    }
}

/// The model after a snapshot lands: the data is replaced wholesale, the
/// list recomputed with the cursor preserved, and the state returns to
/// `Normal` (or `Search` while a query is active).
pub open spec fn apply_snapshot_model(m: AppModel, data: TraefikData) -> AppModel {
    let m1 = recompute_model(AppModel { data: Some(data), ..m }, false);
    AppModel {
        state: if m.query.len() == 0 {
            AppState::Normal
        } else {
            AppState::Search
        },
        ..m1
    }
}

/// The model after the search query changes: position resets.
pub open spec fn update_query_model(m: AppModel, query: Seq<char>) -> AppModel {
    recompute_model(AppModel { query, ..m }, true)
}

/// The model after leaving search mode: the query clears, position resets.
pub open spec fn exit_search_model(m: AppModel) -> AppModel {
    recompute_model(AppModel { state: AppState::Normal, query: Seq::empty(), ..m }, true)
}

/// The other sort mode.
pub open spec fn flipped(mode: SortMode) -> SortMode {
    match mode {
        SortMode::Dead => SortMode::Name,
        SortMode::Name => SortMode::Dead,
    }
}

/// The model after toggling the sort mode: position resets.
pub open spec fn toggle_sort_model(m: AppModel) -> AppModel {
    recompute_model(AppModel { mode: flipped(m.mode), ..m }, true)
}

/// Cursor one step down, clamped; a no-op on an empty list.
pub open spec fn next_model(m: AppModel) -> AppModel {
    if m.filtered.len() == 0 {
        m
    } else if m.selected < m.filtered.len() - 1 {
        AppModel { selected: m.selected + 1, ..m }
    } else {
        m
    }
}

/// Cursor one step up, clamped; a no-op on an empty list.
pub open spec fn previous_model(m: AppModel) -> AppModel {
    if m.filtered.len() == 0 {
        m
    } else if m.selected > 0 {
        AppModel { selected: m.selected - 1, ..m }
    } else {
        m
    }
}

/// Cursor to the first entry; a no-op on an empty list.
pub open spec fn first_model(m: AppModel) -> AppModel {
    if m.filtered.len() == 0 {
        m
    } else {
        AppModel { selected: 0, ..m }
    }
}

/// Cursor to the last entry; a no-op on an empty list.
pub open spec fn last_model(m: AppModel) -> AppModel {
    if m.filtered.len() == 0 {
        m
    } else {
        AppModel { selected: m.filtered.len() - 1, ..m }
    }
}

/// Cursor `page` entries down, clamped to the last entry.
pub open spec fn page_down_model(m: AppModel, page: int) -> AppModel {
    if m.filtered.len() == 0 {
        m
    } else {
        AppModel {
            selected: if m.selected + page > m.filtered.len() - 1 {
                m.filtered.len() - 1
            } else {
                m.selected + page
            },
            ..m
        }
    }
}

/// Cursor `page` entries up, clamped to the first entry.
pub open spec fn page_up_model(m: AppModel, page: int) -> AppModel {
    if m.filtered.len() == 0 {
        m
    } else {
        AppModel {
            selected: if m.selected - page < 0 {
                0
            } else {
                m.selected - page
            },
            ..m
        }
    }
}

/// The router under the selection cursor; nothing is selected exactly when
/// the filtered list is empty.
pub open spec fn selected_router_model(m: AppModel) -> Option<Router> {
    match m.data {
        Some(d) => if m.filtered.len() > 0 {
            Some(d.routers@[m.filtered[m.selected] as int])
        } else {
            None
        },
        None => None,
    }
}

/// The service the current snapshot resolves `target` to.
pub open spec fn service_by_name_model(m: AppModel, target: Seq<char>) -> Option<Service> {
    match m.data {
        Some(d) => find_service_spec(target, d.services@),
        None => None,
    }
}

impl App {
    /// A fresh session with the given ignore patterns, loading its first
    /// snapshot, sorted dead-first.
    pub fn new(ignore_patterns: Vec<String>) -> (r: App)
        ensures
            r@ == init_model(ignore_patterns@),
            wf(r@),
    {
        let app = App {
            state: AppState::Loading,
            quit_requested: false,
            traefik_data: None,
            filtered_routers: Vec::new(),
            search_query: String::new(),
            sort_mode: SortMode::Dead,
            scroll_offset: 0,
            selected_router_index: 0,
            pending_g_key: false,
            ignore_patterns,
        };
        proof {
            assert(app@ =~= init_model(app.ignore_patterns@));
        }
        app
    }

    /// The router name matches some ignore pattern, case-insensitively.
    pub fn matches_ignore_pattern(&self, router_name: &str) -> (r: bool)
        ensures
            r == ignored_by(self@.patterns, router_name@),
    {
        matches_ignore_pattern_exec(&self.ignore_patterns, router_name)
    }

    /// Recompute the visible list, clamping the cursor (background
    /// refresh).
    pub fn update_filtered_routers(&mut self)
        requires
            old(self)@.data is None ==> wf(old(self)@),
        ensures
            final(self)@ == recompute_model(old(self)@, false),
            wf(final(self)@),
    {
        self.update_filtered_routers_with_reset(false);
    }

    /// Recompute the visible list; `reset_position` moves cursor and
    /// scroll back to the top (search or sort changes), otherwise the
    /// cursor is clamped to the new length.
    pub fn update_filtered_routers_with_reset(&mut self, reset_position: bool)
        requires
            old(self)@.data is None ==> wf(old(self)@),
        ensures
            final(self)@ == recompute_model(old(self)@, reset_position),
            wf(final(self)@),
    {
        let filtered = match &self.traefik_data {
            Some(data) => filter_and_sort(
                data,
                &self.ignore_patterns,
                &self.search_query,
                self.sort_mode,
            ),
            None => {
                proof {
                    assert(self@ =~= recompute_model(old(self)@, reset_position));
                }
                return ;
            },
        };
        self.filtered_routers = filtered;
        if reset_position {
            self.scroll_offset = 0;
            self.selected_router_index = 0;
        } else if self.selected_router_index >= self.filtered_routers.len()
            && self.filtered_routers.len() > 0 {
            self.selected_router_index = self.filtered_routers.len() - 1;
        }
        if self.filtered_routers.len() == 0 {
            self.selected_router_index = 0;
            self.scroll_offset = 0;
        }
        proof {
            assert(self@ =~= recompute_model(old(self)@, reset_position));
        }
    }

    /// Mark the session as loading while a refresh is in flight; the
    /// previous snapshot stays readable.
    pub fn start_loading(&mut self)
        ensures
            final(self)@ == (AppModel { state: AppState::Loading, ..old(self)@ }),
    {
        self.state = AppState::Loading;
        proof {
            assert(self@ =~= (AppModel { state: AppState::Loading, ..old(self)@ }));
        }
    }

    /// Install a freshly fetched snapshot, replacing the previous one
    /// wholesale, and recompute the visible list with the cursor
    /// preserved.
    pub fn apply_snapshot(&mut self, data: TraefikData)
        ensures
            final(self)@ == apply_snapshot_model(old(self)@, data),
            wf(final(self)@),
    {
        self.traefik_data = Some(data);
        self.update_filtered_routers_with_reset(false);
        self.state = if self.search_query.as_str().is_empty() {
            AppState::Normal
        } else {
            AppState::Search
        };
        proof {
            assert(self@ =~= apply_snapshot_model(old(self)@, data));
        }
    }

    /// Record a failed refresh: the previous snapshot and list state stay
    /// untouched; only the state surfaces the error.
    pub fn apply_fetch_error(&mut self, message: String)
        ensures
            final(self)@ == (AppModel { state: AppState::Error(message), ..old(self)@ }),
    {
        self.state = AppState::Error(message);
        proof {
            assert(self@ =~= (AppModel { state: AppState::Error(message), ..old(self)@ }));
        }
    }

    /// Cursor one entry down, clamped to the end of the list.
    pub fn next_router(&mut self)
        requires
            wf(old(self)@),
        ensures
            final(self)@ == next_model(old(self)@),
            wf(final(self)@),
    {
        if self.filtered_routers.len() == 0 {
            return ;
        }
        if self.selected_router_index < self.filtered_routers.len() - 1 {
            self.selected_router_index = self.selected_router_index + 1;
        }
        proof {
            assert(self@ =~= next_model(old(self)@));
        }
    }

    /// Cursor one entry up, clamped to the start of the list.
    pub fn previous_router(&mut self)
        requires
            wf(old(self)@),
        ensures
            final(self)@ == previous_model(old(self)@),
            wf(final(self)@),
    {
        if self.filtered_routers.len() == 0 {
            return ;
        }
        if self.selected_router_index > 0 {
            self.selected_router_index = self.selected_router_index - 1;
        }
        proof {
            assert(self@ =~= previous_model(old(self)@));
        }
    }

    /// Cursor to the first entry.
    pub fn go_to_first_router(&mut self)
        requires
            wf(old(self)@),
        ensures
            final(self)@ == first_model(old(self)@),
            wf(final(self)@),
    {
        if self.filtered_routers.len() > 0 {
            self.selected_router_index = 0;
        }
        proof {
            assert(self@ =~= first_model(old(self)@));
        }
    }

    /// Cursor to the last entry.
    pub fn go_to_last_router(&mut self)
        requires
            wf(old(self)@),
        ensures
            final(self)@ == last_model(old(self)@),
            wf(final(self)@),
    {
        if self.filtered_routers.len() > 0 {
            self.selected_router_index = self.filtered_routers.len() - 1;
        }
        proof {
            assert(self@ =~= last_model(old(self)@));
        }
    }

    /// Cursor `page_size` entries down, clamped to the last entry.
    pub fn page_down(&mut self, page_size: usize)
        requires
            wf(old(self)@),
        ensures
            final(self)@ == page_down_model(old(self)@, page_size as int),
            wf(final(self)@),
    {
        if self.filtered_routers.len() == 0 {
            return ;
        }
        let room = self.filtered_routers.len() - 1 - self.selected_router_index;
        if page_size >= room {
            self.selected_router_index = self.filtered_routers.len() - 1;
        } else {
            self.selected_router_index = self.selected_router_index + page_size;
        }
        proof {
            assert(self@ =~= page_down_model(old(self)@, page_size as int));
        }
    }

    /// Cursor `page_size` entries up, clamped to the first entry.
    pub fn page_up(&mut self, page_size: usize)
        requires
            wf(old(self)@),
        ensures
            final(self)@ == page_up_model(old(self)@, page_size as int),
            wf(final(self)@),
    {
        if self.filtered_routers.len() == 0 {
            return ;
        }
        if page_size > self.selected_router_index {
            self.selected_router_index = 0;
        } else {
            self.selected_router_index = self.selected_router_index - page_size;
        }
        proof {
            assert(self@ =~= page_up_model(old(self)@, page_size as int));
        }
    }

    /// Enter search mode; the visible list is untouched until the query
    /// changes.
    pub fn enter_search_mode(&mut self)
        ensures
            final(self)@ == (AppModel { state: AppState::Search, ..old(self)@ }),
    {
        self.state = AppState::Search;
        proof {
            assert(self@ =~= (AppModel { state: AppState::Search, ..old(self)@ }));
        }
    }

    /// Leave search mode, clearing the query and resetting the position.
    pub fn exit_search_mode(&mut self)
        requires
            old(self)@.data is None ==> wf(old(self)@),
        ensures
            final(self)@ == exit_search_model(old(self)@),
            wf(final(self)@),
    {
        self.state = AppState::Normal;
        self.search_query = String::new();
        self.update_filtered_routers_with_reset(true);
    }

    /// Accept the current query and return to normal state, keeping the
    /// filter in force.
    pub fn accept_search(&mut self)
        ensures
            final(self)@ == (AppModel { state: AppState::Normal, ..old(self)@ }),
    {
        self.state = AppState::Normal;
        proof {
            assert(self@ =~= (AppModel { state: AppState::Normal, ..old(self)@ }));
        }
    }

    /// Replace the search query and recompute from the top.
    pub fn update_search_query(&mut self, query: String)
        requires
            old(self)@.data is None ==> wf(old(self)@),
        ensures
            final(self)@ == update_query_model(old(self)@, query@),
            wf(final(self)@),
    {
        self.search_query = query;
        self.update_filtered_routers_with_reset(true);
    }

    /// Ask the session to end.
    pub fn quit(&mut self)
        ensures
            final(self)@ == (AppModel { quit_requested: true, ..old(self)@ }),
    {
        self.quit_requested = true;
        proof {
            assert(self@ =~= (AppModel { quit_requested: true, ..old(self)@ }));
        }
    }

    /// Flip between dead-first and by-name ordering, resetting the
    /// position.
    pub fn toggle_sort_mode(&mut self)
        requires
            old(self)@.data is None ==> wf(old(self)@),
        ensures
            final(self)@ == toggle_sort_model(old(self)@),
            wf(final(self)@),
    {
        self.sort_mode = match self.sort_mode {
            SortMode::Dead => SortMode::Name,
            SortMode::Name => SortMode::Dead,
        };
        self.update_filtered_routers_with_reset(true);
    }

    /// The router under the selection cursor; `None` exactly when the
    /// filtered list is empty.
    pub fn get_selected_router(&self) -> (r: Option<&Router>)
        requires
            wf(self@),
        ensures
            match r {
                Some(rt) => self@.filtered.len() > 0 && selected_router_model(self@) == Some(*rt),
                None => self@.filtered.len() == 0 && selected_router_model(self@) is None,
            },
    {
        if self.filtered_routers.len() > 0 {
            let data = self.traefik_data.as_ref().unwrap();
            Some(&data.routers[self.filtered_routers[self.selected_router_index]])
        } else {
            None
        }
    }

    /// Resolve the service a router dispatches to, in the current
    /// snapshot.
    pub fn get_service_for_router(&self, router: &Router) -> (r: Option<&Service>)
        ensures
            match r {
                Some(s) => service_by_name_model(self@, router.service@) == Some(*s),
                None => service_by_name_model(self@, router.service@) is None,
            },
    {
        match &self.traefik_data {
            Some(d) => find_service_by_name(router.service.as_str(), &d.services),
            None => None,
        }
    }

    /// Resolve a service by name in the current snapshot.
    pub fn get_service_by_name(&self, service_name: &str) -> (r: Option<&Service>)
        ensures
            match r {
                Some(s) => service_by_name_model(self@, service_name@) == Some(*s),
                None => service_by_name_model(self@, service_name@) is None,
            },
    {
        match &self.traefik_data {
            Some(d) => find_service_by_name(service_name, &d.services),
            None => None,
        }
    }

    /// What the session is currently doing.
    pub fn state(&self) -> (r: &AppState)
        ensures
            *r == self@.state,
    {
        &self.state
    }

    /// Whether the session was asked to end.
    pub fn should_quit(&self) -> (r: bool)
        ensures
            r == self@.quit_requested,
    {
        self.quit_requested
    }

    /// The current snapshot, if one has been fetched.
    pub fn traefik_data(&self) -> (r: Option<&TraefikData>)
        ensures
            match r {
                Some(d) => self@.data == Some(*d),
                None => self@.data is None,
            },
    {
        self.traefik_data.as_ref()
    }

    /// The current search query.
    pub fn search_query(&self) -> (r: &String)
        ensures
            r@ == self@.query,
    {
        &self.search_query
    }

    /// The current sort mode.
    pub fn sort_mode(&self) -> (r: SortMode)
        ensures
            r == self@.mode,
    {
        self.sort_mode
    }

    /// The current scroll offset, in rendered lines.
    pub fn scroll_offset(&self) -> (r: usize)
        ensures
            r as int == self@.scroll,
    {
        self.scroll_offset
    }

    /// The cursor position in the filtered list.
    pub fn selected_router_index(&self) -> (r: usize)
        ensures
            r as int == self@.selected,
    {
        self.selected_router_index
    }

    /// How many routers the filtered list holds.
    pub fn filtered_len(&self) -> (r: usize)
        ensures
            r as int == self@.filtered.len(),
    {
        self.filtered_routers.len()
    }

    /// The router at position `i` of the filtered list.
    pub fn filtered_router(&self, i: usize) -> (r: Option<&Router>)
        requires
            wf(self@),
        ensures
            match r {
                Some(rt) => i < self@.filtered.len() && (self@.data matches Some(d) && *rt
                    == d.routers@[self@.filtered[i as int] as int]),
                None => i >= self@.filtered.len(),
            },
    {
        if i < self.filtered_routers.len() {
            let data = self.traefik_data.as_ref().unwrap();
            Some(&data.routers[self.filtered_routers[i]])
        } else {
            None
        }
    }

    /// Whether a lone `g` keypress is pending.
    pub fn pending_g_key(&self) -> (r: bool)
        ensures
            r == self@.pending_g,
    {
        self.pending_g_key
    }

    /// Record or clear a pending lone `g` keypress.
    pub fn set_pending_g_key(&mut self, pending: bool)
        ensures
            final(self)@ == (AppModel { pending_g: pending, ..old(self)@ }),
    {
        self.pending_g_key = pending;
        proof {
            assert(self@ =~= (AppModel { pending_g: pending, ..old(self)@ }));
        }
    }
}

/// Servers in a service's pool.
pub open spec fn lb_server_count(svc: Service) -> int {
    match svc.load_balancer {
        Some(lb) => lb.servers@.len() as int,
        None => 0,
    }
}

/// Lines one router occupies: name and rule, then its service block —
/// three lines for a failover service (header, primary, fallback); for a
/// regular service one line plus, only while the router is selected, one
/// line per load-balancer server; one "not found" line when the service
/// does not resolve.
pub open spec fn router_line_count(r: Router, services: Seq<Service>, selected: bool) -> int {
    2 + (match find_service_spec(r.service@, services) {
        Some(svc) => if is_failover_node(svc) {
            3int
        } else {
            1 + (if selected {
                lb_server_count(svc)
            } else {
                0int
            })
        },
        None => 1int,
    })
}

/// Lines the row at position `i` contributes: its router's lines plus a
/// blank separator, omitted after the last row.
pub open spec fn row_line_count(m: AppModel, i: int) -> int {
    match m.data {
        Some(d) => router_line_count(d.routers@[m.filtered[i] as int], d.services@, i == m.selected)
            + (if i < m.filtered.len() - 1 {
            1int
        } else {
            0int
        }),
        None => 0,
    }
}

/// Total lines of the rows before position `upto`.
pub open spec fn lines_before(m: AppModel, upto: int) -> int
    decreases upto,
{
    if upto <= 0 {
        0
    } else {
        lines_before(m, upto - 1) + row_line_count(m, upto - 1)
    }
}

/// Total lines of the whole filtered list.
pub open spec fn total_lines_model(m: AppModel) -> int {
    lines_before(m, m.filtered.len() as int)
}

/// Line offsets never go negative.
pub proof fn lemma_lines_before_nonneg(m: AppModel, a: int)
    ensures
        0 <= lines_before(m, a),
    decreases a,
{
    if a > 0 {
        lemma_lines_before_nonneg(m, a - 1);
        assert(row_line_count(m, a - 1) >= 0);
    }
}

/// Row line counts are never negative, so line offsets grow monotonically.
pub proof fn lemma_lines_before_monotonic(m: AppModel, a: int, b: int)
    requires
        a <= b,
    ensures
        lines_before(m, a) <= lines_before(m, b),
    decreases b - a,
{
    if a < b {
        lemma_lines_before_monotonic(m, a, b - 1);
        assert(row_line_count(m, b - 1) >= 0);
    }
}

/// The model after making the selected router visible: scroll up to its
/// first line when it starts above the viewport; scroll just enough to
/// reveal its last line when it ends below (or to its first line when it
/// alone overflows the viewport); finally clamp the scroll offset to
/// `[0, max(0, total - viewport)]`.  Unchanged on an empty list.
pub open spec fn ensure_visible_model(m: AppModel, viewport: int) -> AppModel {
    if m.filtered.len() == 0 {
        m
    } else if total_lines_model(m) > usize::MAX {
        m
    } else {
        let rs = lines_before(m, m.selected);
        let total = total_lines_model(m);
        let rl = if m.selected < m.filtered.len() - 1 {
            lines_before(m, m.selected + 1) - rs
        } else {
            total - rs
        };
        let s1 = if rs < m.scroll {
            rs
        } else if rs + rl > m.scroll + viewport {
            if rl <= viewport {
                rs + rl - viewport
            } else {
                rs
            }
        } else {
            m.scroll
        };
        let s2 = if total > viewport {
            if s1 > total - viewport {
                total - viewport
            } else {
                s1
            }
        } else {
            0int
        };
        AppModel { scroll: s2, ..m }
    }
}

impl App {
    /// Lines the row at position `i` occupies, or `None` when the count
    /// exceeds `usize::MAX`.
    fn try_row_lines(&self, i: usize) -> (r: Option<usize>)
        requires
            wf(self@),
            i < self@.filtered.len(),
        ensures
            match r {
                Some(n) => n as int == row_line_count(self@, i as int),
                None => row_line_count(self@, i as int) > usize::MAX,
            },
    {
        let data = self.traefik_data.as_ref().unwrap();
        let router = &data.routers[self.filtered_routers[i]];
        let svc_lines: usize = match find_service_by_name(router.service.as_str(), &data.services) {
            Some(svc) => {
                if is_failover_exec(svc) {
                    3
                } else if i == self.selected_router_index {
                    match &svc.load_balancer {
                        Some(lb) => match lb.servers.len().checked_add(1) {
                            Some(n) => n,
                            None => {
                                return None;
                            },
                        },
                        None => 1,
                    }
                } else {
                    1
                }
            },
            None => 1,
        };
        let with_base = match svc_lines.checked_add(2) {
            Some(n) => n,
            None => {
                return None;
            },
        };
        if i < self.filtered_routers.len() - 1 {
            match with_base.checked_add(1) {
                Some(n) => Some(n),
                None => None,
            }
        } else {
            Some(with_base)
        }
    }

    /// The first line of the row at `router_index`: the sum of the line
    /// counts of all rows before it.
    pub fn get_router_start_line(&self, router_index: usize) -> (r: usize)
        requires
            wf(self@),
            router_index <= self@.filtered.len(),
            total_lines_model(self@) <= usize::MAX,
        ensures
            r as int == lines_before(self@, router_index as int),
    {
        let mut line_count: usize = 0;
        let mut i: usize = 0;
        while i < router_index
            invariant
                wf(self@),
                router_index <= self@.filtered.len(),
                total_lines_model(self@) <= usize::MAX,
                0 <= i <= router_index,
                line_count as int == lines_before(self@, i as int),
            decreases router_index - i,
        {
            proof {
                lemma_lines_before_nonneg(self@, i as int);
                lemma_lines_before_monotonic(self@, i + 1, router_index as int);
                lemma_lines_before_monotonic(self@, router_index as int, self@.filtered.len() as int);
            }
            let row = match self.try_row_lines(i) {
                Some(n) => n,
                None => {
                    // cannot happen: every row fits because the total does
                    proof {
                        assert(false);
                    }
                    0
                },
            };
            line_count = line_count + row;
            i += 1;
        }
        line_count
    }

    /// The total line count of the filtered list, or `None` when it
    /// exceeds `usize::MAX`.
    pub fn try_calculate_total_lines(&self) -> (r: Option<usize>)
        requires
            wf(self@),
        ensures
            match r {
                Some(n) => n as int == total_lines_model(self@) && total_lines_model(self@)
                    <= usize::MAX,
                None => total_lines_model(self@) > usize::MAX,
            },
    {
        let mut line_count: usize = 0;
        let mut i: usize = 0;
        while i < self.filtered_routers.len()
            invariant
                wf(self@),
                0 <= i <= self@.filtered.len(),
                line_count as int == lines_before(self@, i as int),
            decreases self@.filtered.len() - i,
        {
            proof {
                lemma_lines_before_nonneg(self@, i as int);
                lemma_lines_before_monotonic(self@, i + 1, self@.filtered.len() as int);
            }
            let row = match self.try_row_lines(i) {
                Some(n) => n,
                None => {
                    return None;
                },
            };
            let next_count = match line_count.checked_add(row) {
                Some(n) => n,
                None => {
                    return None;
                },
            };
            line_count = next_count;
            i += 1;
        }
        Some(line_count)
    }

    /// Scroll just enough that the selected router's lines are visible in
    /// a viewport of the given height, then clamp the scroll offset to the
    /// total content height.
    pub fn ensure_selected_visible(&mut self, viewport_height: usize)
        requires
            wf(old(self)@),
        ensures
            final(self)@ == ensure_visible_model(old(self)@, viewport_height as int),
            wf(final(self)@),
    {
        if self.filtered_routers.len() == 0 {
            return ;
        }
        let total = match self.try_calculate_total_lines() {
            Some(t) => t,
            None => {
                return ;
            },
        };
        let sel = self.selected_router_index;
        proof {
            lemma_lines_before_nonneg(self@, sel as int);
            lemma_lines_before_monotonic(self@, sel as int, sel + 1);
            lemma_lines_before_monotonic(self@, sel + 1, self@.filtered.len() as int);
        }
        let rs = self.get_router_start_line(sel);
        let rl = if sel < self.filtered_routers.len() - 1 {
            self.get_router_start_line(sel + 1) - rs
        } else {
            total - rs
        };
        let span_end = rs + rl;
        if rs < self.scroll_offset {
            self.scroll_offset = rs;
        } else if (span_end as u128) > (self.scroll_offset as u128) + (viewport_height as u128) {
            if rl <= viewport_height {
                self.scroll_offset = span_end - viewport_height;
            } else {
                self.scroll_offset = rs;
            }
        }
        if total > viewport_height {
            let max_scroll = total - viewport_height;
            if self.scroll_offset > max_scroll {
                self.scroll_offset = max_scroll;
            }
        } else {
            self.scroll_offset = 0;
        }
        proof {
            assert(self@ =~= ensure_visible_model(old(self)@, viewport_height as int));
        }
    }
}

/// Recomputing the visible list twice with an unchanged snapshot, filters
/// and sort mode yields exactly the state one recompute yields: the
/// visible sequence, selection and scroll do not drift.
pub proof fn lemma_recompute_idempotent(m: AppModel)
    ensures
        recompute_model(recompute_model(m, false), false) == recompute_model(m, false),
{
    match m.data {
        None => {},
        Some(d) => {
            let m1 = recompute_model(m, false);
            assert(recompute_model(m1, false) =~= m1);
        },
    }
}

/// A background refresh clamps the cursor: when the new list is shorter
/// than the old cursor position, the cursor lands on the new last entry;
/// when the cursor is still in range it stays put; an empty result resets
/// it to zero.
pub proof fn lemma_refresh_clamps_selection(m: AppModel)
    requires
        m.data is Some,
        0 <= m.selected,
    ensures
        ({
            let m1 = recompute_model(m, false);
            &&& (m1.filtered.len() > 0 && m.selected >= m1.filtered.len() ==> m1.selected
                == m1.filtered.len() - 1)
            &&& (m1.filtered.len() > 0 && m.selected < m1.filtered.len() ==> m1.selected
                == m.selected)
            &&& (m1.filtered.len() == 0 ==> m1.selected == 0)
        }),
{
}

/// The sort order is asymmetric: two routers never sort strictly before
/// each other.
pub proof fn lemma_router_before_asymmetric(
    a: Router,
    b: Router,
    services: Seq<Service>,
    mode: SortMode,
)
    ensures
        !(router_before(a, b, services, mode) && router_before(b, a, services, mode)),
{
    crate::text::lemma_lex_lt_asymmetric(a.name@, b.name@);
}

/// The sort order is transitive.
pub proof fn lemma_router_before_transitive(
    a: Router,
    b: Router,
    c: Router,
    services: Seq<Service>,
    mode: SortMode,
)
    ensures
        router_before(a, b, services, mode) && router_before(b, c, services, mode)
            ==> router_before(a, c, services, mode),
{
    crate::text::lemma_lex_lt_transitive(a.name@, b.name@, c.name@);
}

/// No entry of the index sequence sorts strictly before its predecessor;
/// with the order's transitivity this makes the whole sequence ordered.
pub open spec fn ordered_adjacent(
    ids: Seq<usize>,
    routers: Seq<Router>,
    services: Seq<Service>,
    mode: SortMode,
) -> bool {
    forall|i: int, j: int|
        #![trigger ids[i], ids[j]]
        0 <= i && j == i + 1 && j < ids.len() ==> !router_before(
            routers[ids[j] as int],
            routers[ids[i] as int],
            services,
            mode,
        )
}

/// Stable insertion keeps the sequence ordered.
proof fn lemma_insert_sorted_ordered(
    idx: usize,
    sorted: Seq<usize>,
    routers: Seq<Router>,
    services: Seq<Service>,
    mode: SortMode,
)
    requires
        ordered_adjacent(sorted, routers, services, mode),
    ensures
        ordered_adjacent(insert_sorted(idx, sorted, routers, services, mode), routers, services, mode),
    decreases sorted.len(),
{
    if sorted.len() == 0 {
    } else if router_before(routers[idx as int], routers[sorted[0] as int], services, mode) {
        let res = seq![idx] + sorted;
        lemma_router_before_asymmetric(
            routers[idx as int],
            routers[sorted[0] as int],
            services,
            mode,
        );
        assert forall|i: int, j: int|
            0 <= i && j == i + 1 && j < res.len() implies !router_before(
            routers[res[j] as int],
            routers[res[i] as int],
            services,
            mode,
        ) by {
            if i == 0 {
                assert(res[0] == idx);
                assert(res[1] == sorted[0]);
            } else {
                assert(res[i] == sorted[i - 1]);
                assert(res[j] == sorted[i]);
                assert(!router_before(
                    routers[sorted[i] as int],
                    routers[sorted[i - 1] as int],
                    services,
                    mode,
                ));
            }
        }
    } else {
        assert forall|i: int, j: int|
            0 <= i && j == i + 1 && j < sorted.drop_first().len() implies !router_before(
            routers[sorted.drop_first()[j] as int],
            routers[sorted.drop_first()[i] as int],
            services,
            mode,
        ) by {
            assert(sorted.drop_first()[i] == sorted[i + 1]);
            assert(sorted.drop_first()[j] == sorted[i + 2]);
            assert(!router_before(
                routers[sorted[i + 2] as int],
                routers[sorted[i + 1] as int],
                services,
                mode,
            ));
        }
        lemma_insert_sorted_ordered(idx, sorted.drop_first(), routers, services, mode);
        let rest = insert_sorted(idx, sorted.drop_first(), routers, services, mode);
        let res = seq![sorted[0]] + rest;
        assert forall|i: int, j: int|
            0 <= i && j == i + 1 && j < res.len() implies !router_before(
            routers[res[j] as int],
            routers[res[i] as int],
            services,
            mode,
        ) by {
            if i == 0 {
                // the head of the inserted tail is either `idx` itself or
                // the old second entry, and neither sorts before the head
                assert(res[0] == sorted[0]);
                assert(res[1] == rest[0]);
                if sorted.drop_first().len() == 0 || router_before(
                    routers[idx as int],
                    routers[sorted.drop_first()[0] as int],
                    services,
                    mode,
                ) {
                    assert(rest[0] == idx);
                } else {
                    assert(rest[0] == sorted.drop_first()[0]);
                    assert(sorted.drop_first()[0] == sorted[1]);
                    assert(!router_before(
                        routers[sorted[1] as int],
                        routers[sorted[0] as int],
                        services,
                        mode,
                    ));
                }
            } else {
                assert(res[i] == rest[i - 1]);
                assert(res[j] == rest[i]);
                assert(!router_before(
                    routers[rest[i] as int],
                    routers[rest[i - 1] as int],
                    services,
                    mode,
                ));
            }
        }
    }
}

/// Stable insertion adds exactly the inserted entry to the sequence's
/// contents.
proof fn lemma_insert_sorted_multiset(
    idx: usize,
    sorted: Seq<usize>,
    routers: Seq<Router>,
    services: Seq<Service>,
    mode: SortMode,
)
    ensures
        insert_sorted(idx, sorted, routers, services, mode).to_multiset()
            =~= sorted.to_multiset().insert(idx),
    decreases sorted.len(),
{
    broadcast use vstd::seq_lib::group_to_multiset_ensures;
    broadcast use vstd::multiset::group_multiset_axioms;

    assert(seq![idx] =~= Seq::<usize>::empty().push(idx));
    if sorted.len() == 0 {
        assert(sorted =~= Seq::<usize>::empty());
    } else if router_before(routers[idx as int], routers[sorted[0] as int], services, mode) {
        vstd::seq_lib::lemma_multiset_commutative(seq![idx], sorted);
    } else {
        lemma_insert_sorted_multiset(idx, sorted.drop_first(), routers, services, mode);
        let rest = insert_sorted(idx, sorted.drop_first(), routers, services, mode);
        assert(seq![sorted[0]] =~= Seq::<usize>::empty().push(sorted[0]));
        vstd::seq_lib::lemma_multiset_commutative(seq![sorted[0]], rest);
        assert(sorted =~= seq![sorted[0]] + sorted.drop_first());
        vstd::seq_lib::lemma_multiset_commutative(seq![sorted[0]], sorted.drop_first());
    }
}

/// The insertion sort produces an ordered sequence.
proof fn lemma_sort_indices_ordered(
    ids: Seq<usize>,
    routers: Seq<Router>,
    services: Seq<Service>,
    mode: SortMode,
)
    ensures
        ordered_adjacent(sort_indices(ids, routers, services, mode), routers, services, mode),
    decreases ids.len(),
{
    if ids.len() > 0 {
        lemma_sort_indices_ordered(ids.drop_last(), routers, services, mode);
        lemma_insert_sorted_ordered(
            ids.last(),
            sort_indices(ids.drop_last(), routers, services, mode),
            routers,
            services,
            mode,
        );
    }
}

/// The insertion sort permutes its input.
proof fn lemma_sort_indices_multiset(
    ids: Seq<usize>,
    routers: Seq<Router>,
    services: Seq<Service>,
    mode: SortMode,
)
    ensures
        sort_indices(ids, routers, services, mode).to_multiset() =~= ids.to_multiset(),
    decreases ids.len(),
{
    broadcast use vstd::seq_lib::group_to_multiset_ensures;
    broadcast use vstd::multiset::group_multiset_axioms;

    if ids.len() > 0 {
        lemma_sort_indices_multiset(ids.drop_last(), routers, services, mode);
        lemma_insert_sorted_multiset(
            ids.last(),
            sort_indices(ids.drop_last(), routers, services, mode),
            routers,
            services,
            mode,
        );
        assert(ids =~= ids.drop_last().push(ids.last()));
    }
}

/// The filter stage yields exactly the positions of the routers that
/// survive the filters, each in range, in strictly increasing snapshot
/// order, without omission.
pub proof fn lemma_kept_indices_characterize(
    routers: Seq<Router>,
    patterns: Seq<String>,
    query: Seq<char>,
)
    requires
        routers.len() <= usize::MAX,
    ensures
        ({
            let kept = kept_indices(routers, patterns, query);
            &&& (forall|k: int|
                0 <= k < kept.len() ==> (#[trigger] kept[k]) < routers.len() && router_kept(
                    routers[kept[k] as int],
                    patterns,
                    query,
                ))
            &&& (forall|k: int, l: int|
                0 <= k < l < kept.len() ==> (#[trigger] kept[k]) < (#[trigger] kept[l]))
            &&& (forall|i: int|
                0 <= i < routers.len() && router_kept(#[trigger] routers[i], patterns, query)
                    ==> kept.contains(i as usize))
        }),
    decreases routers.len(),
{
    if routers.len() > 0 {
        lemma_kept_indices_characterize(routers.drop_last(), patterns, query);
        let prev = kept_indices(routers.drop_last(), patterns, query);
        let kept = kept_indices(routers, patterns, query);
        assert(forall|x: int|
            0 <= x < routers.len() - 1 ==> routers.drop_last()[x] == #[trigger] routers[x]);
        assert forall|k: int|
            0 <= k < kept.len() implies (#[trigger] kept[k]) < routers.len() && router_kept(
            routers[kept[k] as int],
            patterns,
            query,
        ) by {
            if k < prev.len() {
                assert(kept[k] == prev[k]);
                assert(prev[k] < routers.drop_last().len());
                assert(router_kept(routers.drop_last()[prev[k] as int], patterns, query));
            } else {
                assert(kept[k] == ((routers.len() - 1) as usize));
                assert(routers.last() == routers[routers.len() - 1]);
            }
        }
        assert forall|k: int, l: int|
            0 <= k < l < kept.len() implies (#[trigger] kept[k]) < (#[trigger] kept[l]) by {
            if l < prev.len() {
                assert(kept[k] == prev[k]);
                assert(kept[l] == prev[l]);
            } else {
                assert(kept[k] == prev[k]);
                assert(prev[k] < routers.drop_last().len());
                assert(kept[l] == ((routers.len() - 1) as usize));
            }
        }
        assert forall|i: int|
            0 <= i < routers.len() && router_kept(
                #[trigger] routers[i],
                patterns,
                query,
            ) implies kept.contains(i as usize) by {
            if i < routers.len() - 1 {
                assert(prev.contains(i as usize));
                let k = choose|k: int| 0 <= k < prev.len() && prev[k] == i as usize;
                assert(kept[k] == i as usize);
            } else {
                assert(kept.last() == ((routers.len() - 1) as usize));
            }
        }
    }
}

/// The visible sequence is ordered: in dead-first mode by status rank with
/// the name as tiebreak, in name mode purely by name.
pub proof fn lemma_pipeline_ordered(
    routers: Seq<Router>,
    services: Seq<Service>,
    patterns: Seq<String>,
    query: Seq<char>,
    mode: SortMode,
)
    ensures
        ordered_adjacent(
            pipeline(routers, services, patterns, query, mode),
            routers,
            services,
            mode,
        ),
{
    lemma_sort_indices_ordered(kept_indices(routers, patterns, query), routers, services, mode);
}

/// The visible sequence is a permutation of the indices that survive the
/// filters: sorting neither drops nor duplicates a router.
pub proof fn lemma_pipeline_permutes(
    routers: Seq<Router>,
    services: Seq<Service>,
    patterns: Seq<String>,
    query: Seq<char>,
    mode: SortMode,
)
    ensures
        pipeline(routers, services, patterns, query, mode).to_multiset() == kept_indices(
            routers,
            patterns,
            query,
        ).to_multiset(),
{
    lemma_sort_indices_multiset(kept_indices(routers, patterns, query), routers, services, mode);
}

/// The router name matches some ignore pattern, case-insensitively.
fn matches_ignore_pattern_exec(patterns: &Vec<String>, router_name: &str) -> (r: bool)
    ensures
        r == ignored_by(patterns@, router_name@),
{
    let name_lower = lowercase(router_name);
    let mut i: usize = 0;
    while i < patterns.len()
        invariant
            0 <= i <= patterns@.len(),
            name_lower@ == lower_of(router_name@),
            forall|j: int|
                0 <= j < i ==> !pattern_matches_lower(
                    lower_of(#[trigger] patterns@[j]@),
                    lower_of(router_name@),
                ),
        decreases patterns@.len() - i,
    {
        let pattern_lower = lowercase(patterns[i].as_str());
        if pattern_match_exec(pattern_lower.as_str(), name_lower.as_str()) {
            return true;
        }
        i += 1;
    }
    false
}

} // verus!
