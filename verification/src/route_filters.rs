//! The HTTP filters that run for each route: the connection manager's
//! filters, in order, each replaced by the route's override of the same
//! name where the route has one.

use vstd::prelude::*;

verus! {

/// A filter of the connection manager: its name, whether it is disabled,
/// and whether a filter is configured in its place.
#[derive(Debug)]
pub struct HcmFilter {
    pub name: String,
    pub disabled: bool,
}

/// A route's override of a filter, by the filter's name: whether it
/// disables the filter, and whether it configures a filter of its own.
#[derive(Debug)]
pub struct FilterOverride {
    pub name: String,
    pub disabled: bool,
    pub configured: bool,
}

/// A route, by the identity of its route match, with its overrides (one
/// per filter name at most).
#[derive(Debug)]
pub struct RouteFilterConfig {
    pub route_match: u64,
    pub overrides: Vec<FilterOverride>,
}

/// Where the filter that runs comes from.
#[derive(Debug, Clone, Copy, PartialEq, Eq, Structural)]
pub enum FilterSource {
    /// The connection manager's filter at this position.
    Hcm(usize),
    /// The override of the route at this position, at this position of its
    /// overrides; `configured` says whether it holds a filter.
    Override { route: usize, index: usize, configured: bool },
}

/// A filter that runs for a route.
#[derive(Debug)]
pub struct EffectiveFilter {
    pub name: String,
    pub disabled: bool,
    pub source: FilterSource,
}

/// What an effective filter is.
pub struct EffectiveView {
    pub name: Seq<char>,
    pub disabled: bool,
    pub source: FilterSource,
}

impl View for EffectiveFilter {
    type V = EffectiveView;

    open spec fn view(&self) -> EffectiveView {
        EffectiveView { name: self.name@, disabled: self.disabled, source: self.source }
    }
}

/// The position of the first override with this name, if any.
pub open spec fn override_position(overrides: Seq<FilterOverride>, name: Seq<char>) -> Option<int>
    decreases overrides.len(),
{
    if overrides.len() == 0 {
        None
    } else {
        match override_position(overrides.drop_last(), name) {
            Some(i) => Some(i),
            None => if overrides.last().name@ == name {
                Some(overrides.len() - 1)
            } else {
                None
            },
        }
    }
}

/// The filter that runs in place of the connection manager's filter `f`
/// for the route at position `r`.
pub open spec fn effective(routes: Seq<RouteFilterConfig>, r: int, hcm: Seq<HcmFilter>, f: int) -> EffectiveView {
    let name = hcm[f].name@;
    match override_position(routes[r].overrides@, name) {
        Some(o) => EffectiveView {
            name,
            disabled: routes[r].overrides@[o].disabled,
            source: FilterSource::Override { route: r as usize, index: o as usize, configured: routes[r].overrides@[o].configured },
        },
        None => EffectiveView { name, disabled: hcm[f].disabled, source: FilterSource::Hcm(f as usize) },
    }
}

/// The filters that run for the route at position `r`.
pub open spec fn route_filters(routes: Seq<RouteFilterConfig>, r: int, hcm: Seq<HcmFilter>) -> Seq<EffectiveView> {
    Seq::new(hcm.len(), |f: int| effective(routes, r, hcm, f))
}

/// The filters of the first `n` routes, by route match: the lists of
/// routes with the same match are joined in order.
pub open spec fn filters_by_route(routes: Seq<RouteFilterConfig>, n: int, hcm: Seq<HcmFilter>) -> Map<u64, Seq<EffectiveView>>
    decreases n,
{
    if n <= 0 {
        Map::empty()
    } else {
        let m = filters_by_route(routes, n - 1, hcm);
        let key = routes[n - 1].route_match;
        let before = if m.contains_key(key) {
            m[key]
        } else {
            Seq::empty()
        };
        m.insert(key, before + route_filters(routes, n - 1, hcm))
    }
}

/// The view of a grouped list.
pub open spec fn groups_view(g: Seq<(u64, Vec<EffectiveFilter>)>) -> Map<u64, Seq<EffectiveView>> {
    Map::new(
        |k: u64| exists|i: int| 0 <= i < g.len() && #[trigger] g[i].0 == k,
        |k: u64| g[choose|i: int| 0 <= i < g.len() && #[trigger] g[i].0 == k].1@.map_values(|e: EffectiveFilter| e@),
    )
}

/// The keys of a grouped list are distinct.
pub open spec fn distinct_groups(g: Seq<(u64, Vec<EffectiveFilter>)>) -> bool {
    forall|i: int, j: int| 0 <= i < g.len() && 0 <= j < g.len() && i != j ==> #[trigger] g[i].0 != #[trigger] g[j].0
}

fn find_override(overrides: &Vec<FilterOverride>, name: &String) -> (r: Option<usize>)
    ensures
        match r {
            Some(i) => override_position(overrides@, name@) == Some(i as int),
            None => override_position(overrides@, name@) is None,
        },
{
    let mut i: usize = 0;
    while i < overrides.len()
        invariant
            i <= overrides@.len(),
            override_position(overrides@.subrange(0, i as int), name@) is None,
        decreases overrides@.len() - i,
    {
        let ghost pre = overrides@.subrange(0, i as int);
        assert(overrides@.subrange(0, i + 1).drop_last() =~= pre);
        if overrides[i].name == *name {
            proof {
                lemma_position_prefix(overrides@, i as int + 1, i as int);
            }
            return Some(i);
        }
        i += 1;
    }
    assert(overrides@.subrange(0, i as int) =~= overrides@);
    None
}

proof fn lemma_position_bounds(s: Seq<FilterOverride>, name: Seq<char>)
    ensures
        override_position(s, name) matches Some(i) ==> 0 <= i < s.len() && s[i].name@ == name,
    decreases s.len(),
{
    if s.len() > 0 {
        lemma_position_bounds(s.drop_last(), name);
    }
}

proof fn lemma_position_prefix(s: Seq<FilterOverride>, n: int, i: int)
    requires
        0 <= i < n <= s.len(),
        override_position(s.subrange(0, n), s[i].name@) == Some(i),
    ensures
        override_position(s, s[i].name@) == Some(i),
    decreases s.len() - n,
{
    if n < s.len() {
        assert(s.subrange(0, n + 1).drop_last() =~= s.subrange(0, n));
        lemma_position_prefix(s, n + 1, i);
    } else {
        assert(s.subrange(0, n) =~= s);
    }
}

fn route_filter_list(routes: &Vec<RouteFilterConfig>, r: usize, hcm: &Vec<HcmFilter>) -> (out: Vec<EffectiveFilter>)
    requires
        r < routes@.len(),
    ensures
        out@.map_values(|e: EffectiveFilter| e@) == route_filters(routes@, r as int, hcm@),
{
    let mut out: Vec<EffectiveFilter> = Vec::new();
    let mut f: usize = 0;
    while f < hcm.len()
        invariant
            f <= hcm@.len(),
            r < routes@.len(),
            out@.map_values(|e: EffectiveFilter| e@) =~= route_filters(routes@, r as int, hcm@).subrange(0, f as int),
        decreases hcm@.len() - f,
    {
        let name = hcm[f].name.clone();
        let eff = match find_override(&routes[r].overrides, &name) {
            Some(o) => {
                proof {
                    lemma_position_bounds(routes@[r as int].overrides@, name@);
                }
                let ov = &routes[r].overrides[o];
                EffectiveFilter {
                    name,
                    disabled: ov.disabled,
                    source: FilterSource::Override { route: r, index: o, configured: ov.configured },
                }
            },
            None => EffectiveFilter { name, disabled: hcm[f].disabled, source: FilterSource::Hcm(f) },
        };
        assert(eff@ == effective(routes@, r as int, hcm@, f as int));
        let ghost before = out@;
        out.push(eff);
        assert(out@.map_values(|e: EffectiveFilter| e@) =~= before.map_values(|e: EffectiveFilter| e@).push(eff@));
        f += 1;
    }
    out
}

/// The filters of every route, grouped by route match, in the order the
/// route matches first appear.
pub fn per_route_http_filters(routes: &Vec<RouteFilterConfig>, hcm: &Vec<HcmFilter>) -> (r: Vec<(u64, Vec<EffectiveFilter>)>)
    ensures
        distinct_groups(r@),
        groups_view(r@) == filters_by_route(routes@, routes@.len() as int, hcm@),
{
    let mut groups: Vec<(u64, Vec<EffectiveFilter>)> = Vec::new();
    let mut i: usize = 0;
    assert(groups_view(groups@) =~= filters_by_route(routes@, 0, hcm@));
    while i < routes.len()
        invariant
            i <= routes@.len(),
            distinct_groups(groups@),
            groups_view(groups@) == filters_by_route(routes@, i as int, hcm@),
        decreases routes@.len() - i,
    {
        let list = route_filter_list(routes, i, hcm);
        let key = routes[i].route_match;
        let ghost m = filters_by_route(routes@, i as int, hcm@);
        let ghost lv = list@.map_values(|e: EffectiveFilter| e@);
        let mut k: usize = 0;
        while k < groups.len() && groups[k].0 != key
            invariant
                k <= groups@.len(),
                forall|t: int| 0 <= t < k ==> groups@[t].0 != key,
            decreases groups@.len() - k,
        {
            k += 1;
        }
        if k < groups.len() {
            let ghost g0 = groups@;
            assert(g0[k as int].0 == key);
            let (gk, mut existing) = groups.remove(k);
            let ghost ev = existing@.map_values(|e: EffectiveFilter| e@);
            assert(groups_view(g0).contains_key(key));
            assert(groups_view(g0)[key] == ev) by {
                let j = choose|j: int| 0 <= j < g0.len() && #[trigger] g0[j].0 == key;
                assert(g0[k as int].0 == key);
            }
            let mut l = list;
            existing.append(&mut l);
            assert(existing@.map_values(|e: EffectiveFilter| e@) =~= ev + lv);
            groups.insert(k, (gk, existing));
            proof {
                assert(groups@ =~= g0.update(k as int, groups@[k as int]));
                assert forall|a: int, b: int| 0 <= a < groups@.len() && 0 <= b < groups@.len() && a != b implies #[trigger] groups@[a].0
                    != #[trigger] groups@[b].0 by {
                    assert(g0[a].0 != g0[b].0);
                }
                assert forall|kk: u64| #[trigger] groups_view(groups@).contains_key(kk) == m.insert(key, ev + lv).contains_key(kk) by {
                    if groups_view(groups@).contains_key(kk) {
                        let j = choose|j: int| 0 <= j < groups@.len() && #[trigger] groups@[j].0 == kk;
                        assert(g0[j].0 == kk);
                    }
                    if m.insert(key, ev + lv).contains_key(kk) && kk != key {
                        let j = choose|j: int| 0 <= j < g0.len() && #[trigger] g0[j].0 == kk;
                        assert(groups@[j].0 == kk);
                    }
                    if kk == key {
                        assert(groups@[k as int].0 == kk);
                    }
                }
                assert forall|kk: u64| #[trigger] groups_view(groups@).contains_key(kk) implies groups_view(groups@)[kk] == m.insert(
                    key,
                    ev + lv,
                )[kk] by {
                    let j = choose|j: int| 0 <= j < groups@.len() && #[trigger] groups@[j].0 == kk;
                    if kk == key {
                        assert(groups@[k as int].0 == kk);
                    } else {
                        assert(g0[j].0 == kk);
                        assert(groups_view(g0)[kk] == g0[j].1@.map_values(|e: EffectiveFilter| e@)) by {
                            let j2 = choose|j2: int| 0 <= j2 < g0.len() && #[trigger] g0[j2].0 == kk;
                            assert(g0[j].0 == kk);
                        }
                    }
                }
                assert(groups_view(groups@) =~= m.insert(key, ev + lv));
            }
        } else {
            let ghost g0 = groups@;
            assert(!groups_view(g0).contains_key(key)) by {
                if groups_view(g0).contains_key(key) {
                    let j = choose|j: int| 0 <= j < g0.len() && #[trigger] g0[j].0 == key;
                    assert(g0[j].0 != key);
                }
            }
            groups.push((key, list));
            proof {
                assert forall|a: int, b: int| 0 <= a < groups@.len() && 0 <= b < groups@.len() && a != b implies #[trigger] groups@[a].0
                    != #[trigger] groups@[b].0 by {
                    if a < g0.len() && b < g0.len() {
                        assert(g0[a].0 != g0[b].0);
                    }
                }
                assert forall|kk: u64| #[trigger] groups_view(groups@).contains_key(kk) == m.insert(key, Seq::empty() + lv).contains_key(kk) by {
                    if groups_view(groups@).contains_key(kk) && kk != key {
                        let j = choose|j: int| 0 <= j < groups@.len() && #[trigger] groups@[j].0 == kk;
                        assert(g0[j].0 == kk);
                    }
                    if m.insert(key, Seq::empty() + lv).contains_key(kk) && kk != key {
                        let j = choose|j: int| 0 <= j < g0.len() && #[trigger] g0[j].0 == kk;
                        assert(groups@[j].0 == kk);
                    }
                    if kk == key {
                        assert(groups@[g0.len() as int].0 == kk);
                    }
                }
                assert forall|kk: u64| #[trigger] groups_view(groups@).contains_key(kk) implies groups_view(groups@)[kk] == m.insert(
                    key,
                    Seq::empty() + lv,
                )[kk] by {
                    let j = choose|j: int| 0 <= j < groups@.len() && #[trigger] groups@[j].0 == kk;
                    if kk == key {
                        assert(groups@[g0.len() as int].0 == kk);
                        if j != g0.len() {
                            assert(g0[j].0 != key);
                        }
                    } else {
                        assert(g0[j].0 == kk);
                        assert(groups_view(g0)[kk] == g0[j].1@.map_values(|e: EffectiveFilter| e@)) by {
                            let j2 = choose|j2: int| 0 <= j2 < g0.len() && #[trigger] g0[j2].0 == kk;
                            assert(g0[j].0 == kk);
                        }
                    }
                }
                assert(groups_view(groups@) =~= m.insert(key, Seq::empty() + lv));
                assert(Seq::<EffectiveView>::empty() + lv =~= lv);
            }
        }
        i += 1;
    }
    groups
}

} // verus!
