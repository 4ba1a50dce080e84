//! The registry of upstream clusters: what each cluster needs to route a
//! request, its load assignment, and the channels to its endpoints.

use vstd::prelude::*;
use crate::headers::HeaderMap;
use crate::original_dst::{listed_from, EndpointCache};
use crate::http_parts::{authority_from_bytes, parse_authority};
use crate::keyed::{lemma_before_total, lemma_before_transitive, lemma_keyed_insert_ascending, name_before, names_ascending, text_before, distinct_keys, find_key, keyed_map, lemma_keyed_at, lemma_keyed_empty, lemma_keyed_remove, lemma_keyed_set};
use crate::load_assignment::{
    all_endpoints, all_fit, all_socket, build_load_assignment, built_assignment, grpc_result, locality_with_health, socket_authorities,
    strings_view, assignment_outcome, AddressView, ClusterError, ClusterLoadAssignment, HealthStatus, LbPolicy,
    LoadAssignmentView, LocalityView, PartialClusterLoadAssignment, LbEndpointView,
};

verus! {

/// What a cluster needs from a request to pick an endpoint.
#[derive(Debug, Clone, PartialEq)]
pub enum RoutingRequirement {
    /// Nothing from the request.
    NotRequired,
    /// The value of the named header.
    Header(String),
    /// The request's authority.
    Authority,
    /// A hash of the request.
    Hash,
}

/// What a routing requirement holds.
pub enum RoutingView {
    NotRequired,
    Header(Seq<char>),
    Authority,
    Hash,
}

impl View for RoutingRequirement {
    type V = RoutingView;

    open spec fn view(&self) -> RoutingView {
        match self {
            RoutingRequirement::NotRequired => RoutingView::NotRequired,
            RoutingRequirement::Header(h) => RoutingView::Header(h@),
            RoutingRequirement::Authority => RoutingView::Authority,
            RoutingRequirement::Hash => RoutingView::Hash,
        }
    }
}

impl RoutingRequirement {
    /// A copy of the requirement.
    pub fn duplicate(&self) -> (r: Self)
        ensures
            r@ == self@,
    {
        match self {
            RoutingRequirement::NotRequired => RoutingRequirement::NotRequired,
            RoutingRequirement::Header(h) => RoutingRequirement::Header(h.clone()),
            RoutingRequirement::Authority => RoutingRequirement::Authority,
            RoutingRequirement::Hash => RoutingRequirement::Hash,
        }
    }
}

/// A cluster whose endpoints are fixed by its configuration.
#[derive(Debug)]
pub struct StaticCluster {
    pub name: String,
    pub load_assignment: ClusterLoadAssignment,
    pub routing_requirement: RoutingRequirement,
}

/// A cluster whose endpoints arrive by discovery.
#[derive(Debug)]
pub struct DynamicCluster {
    pub name: String,
    pub load_balancing_policy: LbPolicy,
    pub load_assignment: Option<ClusterLoadAssignment>,
    pub routing_requirement: RoutingRequirement,
}

/// An `ORIGINAL_DST` cluster: its endpoints are the destinations that the
/// requests name, kept once first used.
pub struct OriginalDstCluster {
    pub name: String,
    pub routing_requirements: RoutingRequirement,
    pub upstream_port_override: Option<u16>,
    /// The endpoints in use, by authority.
    pub endpoints: EndpointCache,
}

/// A cluster of the registry.
pub enum ClusterType {
    Static(StaticCluster),
    Dynamic(DynamicCluster),
    OnDemand(OriginalDstCluster),
}

/// What a cluster holds.
pub enum ClusterView {
    Static { name: Seq<char>, load_assignment: LoadAssignmentView, routing: RoutingView },
    Dynamic { name: Seq<char>, policy: LbPolicy, load_assignment: Option<LoadAssignmentView>, routing: RoutingView },
    OnDemand { name: Seq<char>, routing: RoutingView, port_override: Option<u16>, endpoints: Seq<Seq<char>> },
}

pub open spec fn opt_assignment_view(o: Option<ClusterLoadAssignment>) -> Option<LoadAssignmentView> {
    match o {
        Some(c) => Some(c@),
        None => None,
    }
}

impl View for ClusterType {
    type V = ClusterView;

    open spec fn view(&self) -> ClusterView {
        match self {
            ClusterType::Static(c) => ClusterView::Static {
                name: c.name@,
                load_assignment: c.load_assignment@,
                routing: c.routing_requirement@,
            },
            ClusterType::Dynamic(c) => ClusterView::Dynamic {
                name: c.name@,
                policy: c.load_balancing_policy,
                load_assignment: opt_assignment_view(c.load_assignment),
                routing: c.routing_requirement@,
            },
            ClusterType::OnDemand(c) => ClusterView::OnDemand {
                name: c.name@,
                routing: c.routing_requirements@,
                port_override: c.upstream_port_override,
                endpoints: c.endpoints@,
            },
        }
    }
}

/// The name of a cluster.
pub open spec fn cluster_name(c: ClusterView) -> Seq<char> {
    match c {
        ClusterView::Static { name, .. } => name,
        ClusterView::Dynamic { name, .. } => name,
        ClusterView::OnDemand { name, .. } => name,
    }
}

/// What a cluster needs from a request to route it.
pub open spec fn cluster_routing(c: ClusterView) -> RoutingView {
    match c {
        ClusterView::Static { routing, .. } => routing,
        ClusterView::Dynamic { routing, .. } => routing,
        ClusterView::OnDemand { routing, .. } => routing,
    }
}

/// The endpoints of a cluster's load assignment; none without one.
pub open spec fn assigned_endpoints(c: ClusterView) -> Seq<LbEndpointView> {
    match c {
        ClusterView::Static { load_assignment, .. } => all_endpoints(load_assignment.endpoints),
        ClusterView::Dynamic { load_assignment, .. } => match load_assignment {
            Some(a) => all_endpoints(a.endpoints),
            None => Seq::empty(),
        },
        ClusterView::OnDemand { .. } => Seq::empty(),
    }
}

/// The authorities of a cluster's HTTP and TCP channels: those of the socket
/// endpoints of its load assignment, or the destinations an `ORIGINAL_DST`
/// cluster has in use.
pub open spec fn channel_authorities(c: ClusterView) -> Seq<Seq<char>> {
    match c {
        ClusterView::OnDemand { endpoints, .. } => endpoints,
        _ => socket_authorities(assigned_endpoints(c)),
    }
}

/// The gRPC outcomes of a cluster's endpoints: one per endpoint of its load
/// assignment.
pub open spec fn grpc_outcomes(c: ClusterView, r: Seq<Result<String, ClusterError>>) -> bool {
    r.len() == assigned_endpoints(c).len() && forall|k: int|
        0 <= k < r.len() ==> grpc_result(assigned_endpoints(c)[k], #[trigger] r[k])
}

/// The authorities of a cluster's channels were listed: those of its load
/// assignment, which stays as it was; or, for an `ORIGINAL_DST` cluster, the
/// endpoints in use that had not expired, the most recently used first,
/// each then used in turn, so that they end in the reverse order.
pub open spec fn channels_listed(before: ClusterView, after: ClusterView, listed: Seq<Seq<char>>) -> bool {
    match before {
        ClusterView::OnDemand { name, routing, port_override, endpoints } => {
            &&& listed_from(listed, endpoints)
            &&& after == (ClusterView::OnDemand { name, routing, port_override, endpoints: listed.reverse() })
        },
        _ => after == before && listed == channel_authorities(before),
    }
}

/// The gRPC services of a cluster's endpoints were listed: an outcome per
/// endpoint of its load assignment, which stays as it was; or, for an
/// `ORIGINAL_DST` cluster, an authority per endpoint listed as
/// `channels_listed` says.
pub open spec fn grpc_listed(before: ClusterView, after: ClusterView, r: Seq<Result<String, ClusterError>>) -> bool {
    match before {
        ClusterView::OnDemand { .. } => exists|listed: Seq<Seq<char>>|
            #[trigger] channels_listed(before, after, listed) && r.len() == listed.len() && forall|k: int|
                0 <= k < r.len() ==> (#[trigger] r[k] matches Ok(a) && a@ == listed[k]),
        _ => after == before && grpc_outcomes(before, r),
    }
}

/// A cluster whose health can be updated: every endpoint of its load
/// assignment is a socket endpoint.
pub open spec fn health_updatable(c: ClusterView) -> bool {
    match c {
        ClusterView::Static { load_assignment, .. } => all_socket(load_assignment.endpoints),
        ClusterView::Dynamic { load_assignment, .. } => match load_assignment {
            Some(a) => all_socket(a.endpoints),
            None => true,
        },
        ClusterView::OnDemand { .. } => true,
    }
}

/// A load assignment after the socket endpoints at `authority` got health `h`.
pub open spec fn assignment_with_health(a: LoadAssignmentView, authority: Seq<char>, h: HealthStatus) -> LoadAssignmentView {
    LoadAssignmentView {
        cluster_name: a.cluster_name,
        balancer: a.balancer,
        endpoints: a.endpoints.map_values(|l: LocalityView| locality_with_health(l, authority, h)),
    }
}

/// A cluster after the socket endpoints at `authority` got health `h`.
/// `ORIGINAL_DST` clusters keep no health.
pub open spec fn cluster_with_health(c: ClusterView, authority: Seq<char>, h: HealthStatus) -> ClusterView {
    match c {
        ClusterView::Static { name, load_assignment, routing } => ClusterView::Static {
            name,
            load_assignment: assignment_with_health(load_assignment, authority, h),
            routing,
        },
        ClusterView::Dynamic { name, policy, load_assignment, routing } => ClusterView::Dynamic {
            name,
            policy,
            load_assignment: match load_assignment {
                Some(a) => Some(assignment_with_health(a, authority, h)),
                None => None,
            },
            routing,
        },
        ClusterView::OnDemand { .. } => c,
    }
}

fn clone_assignment(a: &ClusterLoadAssignment) -> (r: ClusterLoadAssignment)
    ensures
        r@ == a@,
{
    let mut locs: Vec<crate::load_assignment::LocalityLbEndpoints> = Vec::new();
    let mut i: usize = 0;
    while i < a.endpoints.len()
        invariant
            i <= a.endpoints@.len(),
            crate::load_assignment::localities_view(locs@) =~= crate::load_assignment::localities_view(
                a.endpoints@.subrange(0, i as int),
            ),
        decreases a.endpoints@.len() - i,
    {
        let l = &a.endpoints[i];
        let mut eps: Vec<crate::load_assignment::LbEndpoint> = Vec::new();
        let mut j: usize = 0;
        while j < l.endpoints.len()
            invariant
                j <= l.endpoints@.len(),
                crate::load_assignment::endpoints_view(eps@) =~= crate::load_assignment::endpoints_view(
                    l.endpoints@.subrange(0, j as int),
                ),
            decreases l.endpoints@.len() - j,
        {
            let e = l.endpoints[j].duplicate();
            let ghost before = eps@;
            eps.push(e);
            assert(crate::load_assignment::endpoints_view(eps@) =~= crate::load_assignment::endpoints_view(before).push(e@));
            assert(l.endpoints@.subrange(0, j + 1) =~= l.endpoints@.subrange(0, j as int).push(l.endpoints@[j as int]));
            j += 1;
        }
        assert(l.endpoints@.subrange(0, j as int) =~= l.endpoints@);
        let copy = crate::load_assignment::LocalityLbEndpoints {
            name: l.name.clone(),
            endpoints: eps,
            priority: l.priority,
            healthy_endpoints: l.healthy_endpoints,
            total_endpoints: l.total_endpoints,
        };
        let ghost before = locs@;
        locs.push(copy);
        assert(crate::load_assignment::localities_view(locs@) =~= crate::load_assignment::localities_view(before).push(copy@));
        assert(a.endpoints@.subrange(0, i + 1) =~= a.endpoints@.subrange(0, i as int).push(a.endpoints@[i as int]));
        i += 1;
    }
    assert(a.endpoints@.subrange(0, i as int) =~= a.endpoints@);
    ClusterLoadAssignment { cluster_name: a.cluster_name.clone(), balancer: a.balancer, endpoints: locs }
}

impl ClusterType {
    /// A copy of the cluster.
    pub fn duplicate(&self) -> (r: Self)
        ensures
            r@ == self@,
    {
        match self {
            ClusterType::Static(c) => ClusterType::Static(
                StaticCluster {
                    name: c.name.clone(),
                    load_assignment: clone_assignment(&c.load_assignment),
                    routing_requirement: c.routing_requirement.duplicate(),
                },
            ),
            ClusterType::Dynamic(c) => {
                let la = match &c.load_assignment {
                    Some(a) => Some(clone_assignment(a)),
                    None => None,
                };
                ClusterType::Dynamic(
                    DynamicCluster {
                        name: c.name.clone(),
                        load_balancing_policy: c.load_balancing_policy,
                        load_assignment: la,
                        routing_requirement: c.routing_requirement.duplicate(),
                    },
                )
            },
            ClusterType::OnDemand(c) => ClusterType::OnDemand(
                OriginalDstCluster {
                    name: c.name.clone(),
                    routing_requirements: c.routing_requirements.duplicate(),
                    upstream_port_override: c.upstream_port_override,
                    endpoints: c.endpoints.duplicate(),
                },
            ),
        }
    }

    /// The name of the cluster.
    pub fn get_name(&self) -> (r: &String)
        ensures
            r@ == cluster_name(self@),
    {
        match self {
            ClusterType::Static(c) => &c.name,
            ClusterType::Dynamic(c) => &c.name,
            ClusterType::OnDemand(c) => &c.name,
        }
    }

    /// What the cluster needs from a request to route it.
    pub fn get_routing_requirements(&self) -> (r: RoutingRequirement)
        ensures
            r@ == cluster_routing(self@),
    {
        match self {
            ClusterType::Static(c) => c.routing_requirement.duplicate(),
            ClusterType::Dynamic(c) => c.routing_requirement.duplicate(),
            ClusterType::OnDemand(c) => c.routing_requirements.duplicate(),
        }
    }

    fn assigned_http_channels(&self) -> (r: Vec<String>)
        ensures
            strings_view(r@) == socket_authorities(assigned_endpoints(self@)),
    {
        match self {
            ClusterType::Static(c) => c.load_assignment.all_http_channels(),
            ClusterType::Dynamic(c) => match &c.load_assignment {
                Some(a) => a.all_http_channels(),
                None => {
                    let r: Vec<String> = Vec::new();
                    assert(strings_view(r@) =~= socket_authorities(Seq::<LbEndpointView>::empty()));
                    r
                },
            },
            ClusterType::OnDemand(_) => {
                let r: Vec<String> = Vec::new();
                assert(strings_view(r@) =~= socket_authorities(Seq::<LbEndpointView>::empty()));
                r
            },
        }
    }

    fn assigned_grpc_channels(&self) -> (r: Vec<Result<String, ClusterError>>)
        ensures
            grpc_outcomes(self@, r@),
    {
        match self {
            ClusterType::Static(c) => c.load_assignment.try_all_grpc_channels(),
            ClusterType::Dynamic(c) => match &c.load_assignment {
                Some(a) => a.try_all_grpc_channels(),
                None => Vec::new(),
            },
            ClusterType::OnDemand(_) => Vec::new(),
        }
    }

    /// The authorities of the cluster's HTTP channels.
    pub fn all_http_channels(&mut self) -> (r: Vec<String>)
        ensures
            channels_listed(old(self)@, final(self)@, strings_view(r@)),
    {
        match self {
            ClusterType::OnDemand(c) => c.endpoints.in_use(),
            _ => self.assigned_http_channels(),
        }
    }

    /// The authorities of the cluster's TCP connectors.
    pub fn all_tcp_channels(&mut self) -> (r: Vec<String>)
        ensures
            channels_listed(old(self)@, final(self)@, strings_view(r@)),
    {
        self.all_http_channels()
    }

    /// The gRPC services of the cluster's endpoints.
    pub fn all_grpc_channels(&mut self) -> (r: Vec<Result<String, ClusterError>>)
        ensures
            grpc_listed(old(self)@, final(self)@, r@),
    {
        if self.is_on_demand() {
            let listed = self.all_http_channels();
            let ghost lv = strings_view(listed@);
            let mut out: Vec<Result<String, ClusterError>> = Vec::new();
            let mut i: usize = 0;
            while i < listed.len()
                invariant
                    i <= listed@.len(),
                    lv == strings_view(listed@),
                    out@.len() == i,
                    forall|k: int| 0 <= k < i ==> (#[trigger] out@[k] matches Ok(a) && a@ == lv[k]),
                decreases listed@.len() - i,
            {
                out.push(Ok(listed[i].clone()));
                i += 1;
            }
            assert(channels_listed(old(self)@, self@, lv));
            out
        } else {
            self.assigned_grpc_channels()
        }
    }

    fn is_on_demand(&self) -> (r: bool)
        ensures
            r == (self@ is OnDemand),
    {
        match self {
            ClusterType::OnDemand(_) => true,
            _ => false,
        }
    }

    /// Tells the cluster the health of its socket endpoints at `authority`.
    pub fn update_health(&mut self, authority: &String, health: HealthStatus)
        requires
            health_updatable(old(self)@),
        ensures
            final(self)@ == cluster_with_health(old(self)@, authority@, health),
    {
        match self {
            ClusterType::Static(c) => {
                c.load_assignment.update_endpoint_health(authority, health);
            },
            ClusterType::Dynamic(c) => match &mut c.load_assignment {
                Some(a) => {
                    a.update_endpoint_health(authority, health);
                },
                None => {},
            },
            ClusterType::OnDemand(_) => {},
        }
    }
}

/// The registry of clusters, by name.
pub struct ClustersManager {
    clusters: Vec<(String, ClusterType)>,
}

/// The cluster after a new load assignment replaced its old one.
pub open spec fn with_assignment(c: ClusterView, a: LoadAssignmentView) -> ClusterView {
    match c {
        ClusterView::Static { name, routing, .. } => ClusterView::Static { name, load_assignment: a, routing },
        ClusterView::Dynamic { name, policy, routing, .. } => ClusterView::Dynamic {
            name,
            policy,
            load_assignment: Some(a),
            routing,
        },
        ClusterView::OnDemand { .. } => c,
    }
}

/// The cluster without its load assignment.
pub open spec fn without_assignment(c: ClusterView) -> ClusterView {
    match c {
        ClusterView::Dynamic { name, policy, routing, .. } => ClusterView::Dynamic {
            name,
            policy,
            load_assignment: None,
            routing,
        },
        _ => c,
    }
}

impl ClustersManager {
    #[verifier::type_invariant]
    spec fn well_formed(self) -> bool {
        &&& distinct_keys(self.clusters@)
        &&& names_ascending(self.clusters@)
        &&& forall|i: int| 0 <= i < self.clusters@.len() ==> #[trigger] self.clusters@[i].0@ == cluster_name(self.clusters@[i].1@)
    }

    /// The clusters, by name.
    pub closed spec fn view(&self) -> Map<Seq<char>, ClusterView> {
        keyed_map(self.clusters@).map_values(|c: ClusterType| c@)
    }

    /// The clusters in the order they were registered.
    pub closed spec fn in_order(&self) -> Seq<ClusterView> {
        self.clusters@.map_values(|p: (String, ClusterType)| p.1@)
    }

    /// How many clusters are registered.
    pub fn cluster_count(&self) -> (r: usize)
        ensures
            r == self.in_order().len(),
    {
        self.clusters.len()
    }

    /// A secret changed: each cluster's TLS settings took it, in ascending
    /// order of the clusters' names (the order of `in_order`), with the
    /// outcomes given (a cluster without TLS takes it trivially). The first
    /// failure is the result; without failure, copies of all clusters are
    /// handed back in that order.
    pub fn update_tls_context(&self, tls_outcomes: Vec<Result<(), ClusterError>>) -> (r: Result<Vec<ClusterType>, ClusterError>)
        requires
            tls_outcomes@.len() == self.in_order().len(),
        ensures
            (forall|i: int| 0 <= i < tls_outcomes@.len() ==> (#[trigger] tls_outcomes@[i]) is Ok) ==> (r matches Ok(v)
                && v@.map_values(|c: ClusterType| c@) == self.in_order()),
            (exists|i: int| 0 <= i < tls_outcomes@.len() && (#[trigger] tls_outcomes@[i]) is Err) ==> r is Err,
            r matches Ok(v) ==> forall|a: int, b: int|
                0 <= a < b < v@.len() ==> text_before(cluster_name(#[trigger] v@[a]@), cluster_name(#[trigger] v@[b]@)),
            r matches Err(e) ==> exists|i: int|
                0 <= i < tls_outcomes@.len() && #[trigger] tls_outcomes@[i] == Err::<(), ClusterError>(e) && forall|j: int|
                    0 <= j < i ==> (#[trigger] tls_outcomes@[j]) is Ok,
    {
        proof {
            use_type_invariant(self);
        }
        let mut out: Vec<ClusterType> = Vec::new();
        let mut i: usize = 0;
        while i < self.clusters.len()
            invariant
                i <= self.clusters@.len(),
                tls_outcomes@.len() == self.clusters@.len(),
                forall|j: int| 0 <= j < i ==> (#[trigger] tls_outcomes@[j]) is Ok,
                out@.map_values(|c: ClusterType| c@) =~= self.in_order().subrange(0, i as int),
                out@.len() == i,
                names_ascending(self.clusters@),
                forall|k: int| 0 <= k < self.clusters@.len() ==> #[trigger] self.clusters@[k].0@ == cluster_name(self.clusters@[k].1@),
                forall|k: int| 0 <= k < i ==> (#[trigger] out@[k])@ == self.clusters@[k].1@,
            decreases self.clusters@.len() - i,
        {
            proof {
                assert forall|a: int, b: int| 0 <= a < b < out@.len() implies text_before(
                    cluster_name(#[trigger] out@[a]@),
                    cluster_name(#[trigger] out@[b]@),
                ) by {
                    assert(text_before(self.clusters@[a].0@, self.clusters@[b].0@));
                }
            }
            if tls_outcomes[i].is_err() {
                let mut outcomes = tls_outcomes;
                let failed = outcomes.swap_remove(i);
                return match failed {
                    Err(e) => Err(e),
                    Ok(()) => Ok(out),
                };
            }
            let copy = self.clusters[i].1.duplicate();
            let ghost before = out@;
            out.push(copy);
            assert(out@.map_values(|c: ClusterType| c@) =~= before.map_values(|c: ClusterType| c@).push(copy@));
            assert(self.in_order().subrange(0, i + 1) =~= self.in_order().subrange(0, i as int).push(self.clusters@[i as int].1@));
            i += 1;
        }
        assert(self.in_order().subrange(0, i as int) =~= self.in_order());
        assert forall|a: int, b: int| 0 <= a < b < out@.len() implies text_before(
            cluster_name(#[trigger] out@[a]@),
            cluster_name(#[trigger] out@[b]@),
        ) by {
            assert(text_before(self.clusters@[a].0@, self.clusters@[b].0@));
        }
        Ok(out)
    }

    /// An empty registry.
    pub fn new() -> (r: Self)
        ensures
            r@ == Map::<Seq<char>, ClusterView>::empty(),
    {
        let r = ClustersManager { clusters: Vec::new() };
        proof {
            lemma_keyed_empty(r.clusters@);
        }
        assert(r@ =~= Map::<Seq<char>, ClusterView>::empty());
        r
    }

    fn position(&self, name: &str) -> (r: Option<usize>)
        ensures
            r matches Some(i) ==> i < self.clusters@.len() && self.clusters@[i as int].0@ == name@
                && self@.contains_key(name@) && self@[name@] == self.clusters@[i as int].1@,
            r is None ==> !self@.contains_key(name@),
    {
        proof {
            use_type_invariant(self);
        }
        let key = name.to_owned();
        find_key(&self.clusters, &key)
    }

    /// The cluster named `cluster_id`, or the error that names it.
    pub fn with_cluster(&self, cluster_id: &str) -> (r: Result<&ClusterType, ClusterError>)
        ensures
            self@.contains_key(cluster_id@) ==> (r matches Ok(c) && c@ == self@[cluster_id@]),
            !self@.contains_key(cluster_id@) ==> (r matches Err(ClusterError::ClusterNotFound(n)) && n@ == cluster_id@),
    {
        match self.position(cluster_id) {
            Some(i) => Ok(&self.clusters[i].1),
            None => Err(ClusterError::ClusterNotFound(cluster_id.to_owned())),
        }
    }

    /// What the cluster `cluster_id` needs from a request to route it; a
    /// cluster that does not exist needs nothing.
    pub fn get_cluster_routing_requirements(&self, cluster_id: &str) -> (r: RoutingRequirement)
        ensures
            self@.contains_key(cluster_id@) ==> r@ == cluster_routing(self@[cluster_id@]),
            !self@.contains_key(cluster_id@) ==> r@ == RoutingView::NotRequired,
    {
        match self.with_cluster(cluster_id) {
            Ok(c) => c.get_routing_requirements(),
            Err(_) => RoutingRequirement::NotRequired,
        }
    }

    /// The authorities of the HTTP channels of the cluster `cluster_id`.
    pub fn all_http_connections(&mut self, cluster_id: &str) -> (r: Result<Vec<String>, ClusterError>)
        ensures
            old(self)@.contains_key(cluster_id@) ==> (r matches Ok(v) && final(self)@.contains_key(cluster_id@)
                && channels_listed(old(self)@[cluster_id@], final(self)@[cluster_id@], strings_view(v@))
                && final(self)@ == old(self)@.insert(cluster_id@, final(self)@[cluster_id@])),
            !old(self)@.contains_key(cluster_id@) ==> (r matches Err(ClusterError::ClusterNotFound(n)) && n@ == cluster_id@)
                && final(self)@ == old(self)@,
    {
        match self.position(cluster_id) {
            Some(i) => {
                let mut c = self.clusters[i].1.duplicate();
                let r = c.all_http_channels();
                self.replace_at(i, c);
                Ok(r)
            },
            None => Err(ClusterError::ClusterNotFound(cluster_id.to_owned())),
        }
    }

    /// The authorities of the TCP connectors of the cluster `cluster_id`.
    pub fn all_tcp_connections(&mut self, cluster_id: &str) -> (r: Result<Vec<String>, ClusterError>)
        ensures
            old(self)@.contains_key(cluster_id@) ==> (r matches Ok(v) && final(self)@.contains_key(cluster_id@)
                && channels_listed(old(self)@[cluster_id@], final(self)@[cluster_id@], strings_view(v@))
                && final(self)@ == old(self)@.insert(cluster_id@, final(self)@[cluster_id@])),
            !old(self)@.contains_key(cluster_id@) ==> (r matches Err(ClusterError::ClusterNotFound(n)) && n@ == cluster_id@)
                && final(self)@ == old(self)@,
    {
        match self.position(cluster_id) {
            Some(i) => {
                let mut c = self.clusters[i].1.duplicate();
                let r = c.all_tcp_channels();
                self.replace_at(i, c);
                Ok(r)
            },
            None => Err(ClusterError::ClusterNotFound(cluster_id.to_owned())),
        }
    }

    /// The gRPC services of the endpoints of the cluster `cluster_id`.
    pub fn all_grpc_connections(&mut self, cluster_id: &str) -> (r: Result<Vec<Result<String, ClusterError>>, ClusterError>)
        ensures
            old(self)@.contains_key(cluster_id@) ==> (r matches Ok(v) && final(self)@.contains_key(cluster_id@)
                && grpc_listed(old(self)@[cluster_id@], final(self)@[cluster_id@], v@)
                && final(self)@ == old(self)@.insert(cluster_id@, final(self)@[cluster_id@])),
            !old(self)@.contains_key(cluster_id@) ==> (r matches Err(ClusterError::ClusterNotFound(n)) && n@ == cluster_id@)
                && final(self)@ == old(self)@,
    {
        match self.position(cluster_id) {
            Some(i) => {
                let mut c = self.clusters[i].1.duplicate();
                let ghost before = c@;
                let r = c.all_grpc_channels();
                proof {
                    if before is OnDemand {
                        let listed = choose|listed: Seq<Seq<char>>| #[trigger] channels_listed(before, c@, listed);
                        assert(channels_listed(before, c@, listed));
                    }
                }
                self.replace_at(i, c);
                Ok(r)
            },
            None => Err(ClusterError::ClusterNotFound(cluster_id.to_owned())),
        }
    }

    /// Registers a built cluster under its name, replacing any cluster of
    /// that name, and hands back a copy of it. A cluster whose build failed
    /// changes nothing and its error is handed back.
    pub fn add_cluster(&mut self, built: Result<ClusterType, ClusterError>) -> (r: Result<ClusterType, ClusterError>)
        ensures
            built is Err ==> r == built && final(self)@ == old(self)@,
            built matches Ok(c) ==> (r matches Ok(d) && d@ == c@ && final(self)@ == old(self)@.insert(cluster_name(c@), c@)),
    {
        proof {
            use_type_invariant(&*self);
        }
        let cluster = match built {
            Ok(c) => c,
            Err(e) => {
                return Err(e);
            },
        };
        let name = cluster.get_name().clone();
        let copy = cluster.duplicate();
        let entry = (name, cluster);
        let ghost before = self.clusters@;
        let ghost cv = copy@;
        match find_key(&self.clusters, &entry.0) {
            Some(i) => {
                proof {
                    lemma_keyed_set(before, i as int, entry);
                }
                let mut storage = Vec::new();
                std::mem::swap(&mut storage, &mut self.clusters);
                storage.set(i, entry);
                self.clusters = storage;
            },
            None => {
                let mut p: usize = 0;
                while p < self.clusters.len() && name_before(self.clusters[p].0.as_str(), entry.0.as_str())
                    invariant
                        p <= self.clusters@.len(),
                        self.clusters@ == before,
                        forall|k: int| 0 <= k < p ==> text_before(#[trigger] before[k].0@, entry.0@),
                    decreases self.clusters@.len() - p,
                {
                    p += 1;
                }
                proof {
                    assert forall|k: int| p <= k < before.len() implies text_before(entry.0@, #[trigger] before[k].0@) by {
                        assert(before[p as int].0@ != entry.0@) by {
                            if before[p as int].0@ == entry.0@ {
                                lemma_keyed_at(before, p as int);
                            }
                        }
                        lemma_before_total(before[p as int].0@, entry.0@);
                        if k > p {
                            assert(text_before(before[p as int].0@, before[k].0@));
                            lemma_before_transitive(entry.0@, before[p as int].0@, before[k].0@);
                        }
                    }
                    lemma_keyed_insert_ascending(before, p as int, entry);
                }
                let mut storage = Vec::new();
                std::mem::swap(&mut storage, &mut self.clusters);
                storage.insert(p, entry);
                self.clusters = storage;
                assert(self.clusters@ == before.insert(p as int, entry));
            },
        }
        assert(self@ =~= old(self)@.insert(cluster_name(cv), cv));
        Ok(copy)
    }

    /// Removes the cluster `cluster_name`; fails with `NoSuchCluster` when
    /// there is none.
    pub fn remove_cluster(&mut self, cluster_name: &str) -> (r: Result<(), ClusterError>)
        ensures
            old(self)@.contains_key(cluster_name@) ==> r is Ok && final(self)@ == old(self)@.remove(cluster_name@),
            !old(self)@.contains_key(cluster_name@) ==> r == Err::<(), ClusterError>(ClusterError::NoSuchCluster)
                && final(self)@ == old(self)@,
    {
        proof {
            use_type_invariant(&*self);
        }
        match self.position(cluster_name) {
            Some(i) => {
                let ghost before = self.clusters@;
                proof {
                    lemma_keyed_remove(before, i as int);
                }
                let mut storage = Vec::new();
                std::mem::swap(&mut storage, &mut self.clusters);
                storage.remove(i);
                proof {
                    let n = before.remove(i as int);
                    assert forall|a: int, b: int| 0 <= a < b < n.len() implies text_before(#[trigger] n[a].0@, #[trigger] n[b].0@) by {
                        let a1 = if a < i { a } else { a + 1 };
                        let b1 = if b < i { b } else { b + 1 };
                        assert(n[a] == before[a1] && n[b] == before[b1]);
                    }
                }
                self.clusters = storage;
                assert(self@ =~= old(self)@.remove(cluster_name@));
                Ok(())
            },
            None => Err(ClusterError::NoSuchCluster),
        }
    }

    fn replace_at(&mut self, i: usize, c: ClusterType)
        requires
            i < old(self).clusters@.len(),
            cluster_name(c@) == cluster_name(old(self).clusters@[i as int].1@),
        ensures
            final(self)@ == old(self)@.insert(old(self).clusters@[i as int].0@, c@),
            final(self).clusters@.len() == old(self).clusters@.len(),
    {
        proof {
            use_type_invariant(&*self);
        }
        let ghost before = self.clusters@;
        let key = self.clusters[i].0.clone();
        let entry = (key, c);
        let ghost ev = entry;
        proof {
            lemma_keyed_set(before, i as int, entry);
        }
        let mut storage = Vec::new();
        std::mem::swap(&mut storage, &mut self.clusters);
        storage.set(i, entry);
        self.clusters = storage;
        assert(self@ =~= old(self)@.insert(ev.0@, ev.1@));
    }

    /// Drops the load assignment of the dynamic cluster `name`. Static and
    /// `ORIGINAL_DST` clusters refuse, and so does a name without cluster;
    /// a refusal changes nothing.
    pub fn remove_cluster_load_assignment(&mut self, name: &str) -> (r: Result<(), ClusterError>)
        ensures
            !old(self)@.contains_key(name@) ==> (r matches Err(ClusterError::NoClusterFound(n)) && n@ == name@),
            old(self)@.contains_key(name@) && old(self)@[name@] is Dynamic ==> r is Ok
                && final(self)@ == old(self)@.insert(name@, without_assignment(old(self)@[name@])),
            old(self)@.contains_key(name@) && old(self)@[name@] is Static ==> (r matches Err(
                ClusterError::StaticClusterAssignment(n),
            ) && n@ == name@),
            old(self)@.contains_key(name@) && old(self)@[name@] is OnDemand ==> (r matches Err(
                ClusterError::OriginalDstAssignment(n),
            ) && n@ == name@),
            r is Err ==> final(self)@ == old(self)@,
    {
        match self.position(name) {
            Some(i) => {
                match &self.clusters[i].1 {
                    ClusterType::Dynamic(c) => {
                        let updated = ClusterType::Dynamic(
                            DynamicCluster {
                                name: c.name.clone(),
                                load_balancing_policy: c.load_balancing_policy,
                                load_assignment: None,
                                routing_requirement: c.routing_requirement.duplicate(),
                            },
                        );
                        self.replace_at(i, updated);
                        Ok(())
                    },
                    ClusterType::Static(_) => Err(ClusterError::StaticClusterAssignment(name.to_owned())),
                    ClusterType::OnDemand(_) => Err(ClusterError::OriginalDstAssignment(name.to_owned())),
                }
            },
            None => Err(ClusterError::NoClusterFound(name.to_owned())),
        }
    }

    /// Tells the cluster `cluster` the health of its socket endpoints at
    /// `endpoint`; no cluster of that name, no change.
    pub fn update_endpoint_health(&mut self, cluster: &str, endpoint: &String, health: HealthStatus)
        requires
            old(self)@.contains_key(cluster@) ==> health_updatable(old(self)@[cluster@]),
        ensures
            old(self)@.contains_key(cluster@) ==> final(self)@ == old(self)@.insert(
                cluster@,
                cluster_with_health(old(self)@[cluster@], endpoint@, health),
            ),
            !old(self)@.contains_key(cluster@) ==> final(self)@ == old(self)@,
    {
        match self.position(cluster) {
            Some(i) => {
                let mut c = self.clusters[i].1.duplicate();
                c.update_health(endpoint, health);
                self.replace_at(i, c);
            },
            None => {},
        }
    }

    /// Gives the cluster `name` the load assignment `cla`: a dynamic cluster
    /// takes it built with its own policy, a static one built for round
    /// robin; an `ORIGINAL_DST` cluster accepts only an assignment without
    /// endpoints, and keeps none. The cluster as it then stands is handed
    /// back. A refusal, or a build that fails, changes nothing.
    pub fn change_cluster_load_assignment(&mut self, name: &str, cla: &PartialClusterLoadAssignment) -> (r: Result<
        ClusterType,
        ClusterError,
    >)
        ensures
            !old(self)@.contains_key(name@) ==> (r matches Err(ClusterError::NoClusterFound(n)) && n@ == name@),
            old(self)@.contains_key(name@) ==> ({
                let c = old(self)@[name@];
                let policy = match c {
                    ClusterView::Dynamic { policy, .. } => policy,
                    _ => LbPolicy::RoundRobin,
                };
                match c {
                    ClusterView::OnDemand { .. } => if forall|i: int|
                        0 <= i < cla.localities().len() ==> (#[trigger] cla.localities()[i]).endpoints@.len() == 0 {
                        r matches Ok(d) && d@ == c
                    } else {
                        r matches Err(ClusterError::OriginalDstEndpointsNotEmpty(n)) && n@ == name@
                    },
                    _ => if all_fit(cluster_name(c), cla.localities()) {
                        let updated = with_assignment(c, built_assignment(cluster_name(c), cla.localities(), policy));
                        r matches Ok(d) && d@ == updated && final(self)@ == old(self)@.insert(name@, updated)
                    } else {
                        r == Err::<ClusterType, ClusterError>(ClusterError::TooManyEndpoints)
                    },
                }
            }),
            r is Err || (old(self)@.contains_key(name@) && old(self)@[name@] is OnDemand) ==> final(self)@ == old(self)@,
    {
        match self.position(name) {
            Some(i) => {
                let updated = match &self.clusters[i].1 {
                    ClusterType::Dynamic(c) => {
                        let a = build_load_assignment(&c.name, cla, c.load_balancing_policy)?;
                        ClusterType::Dynamic(
                            DynamicCluster {
                                name: c.name.clone(),
                                load_balancing_policy: c.load_balancing_policy,
                                load_assignment: Some(a),
                                routing_requirement: c.routing_requirement.duplicate(),
                            },
                        )
                    },
                    ClusterType::Static(c) => {
                        let a = build_load_assignment(&c.name, cla, LbPolicy::RoundRobin)?;
                        ClusterType::Static(
                            StaticCluster {
                                name: c.name.clone(),
                                load_assignment: a,
                                routing_requirement: c.routing_requirement.duplicate(),
                            },
                        )
                    },
                    ClusterType::OnDemand(_) => {
                        if cla.is_empty() {
                            return Ok(self.clusters[i].1.duplicate());
                        } else {
                            return Err(ClusterError::OriginalDstEndpointsNotEmpty(name.to_owned()));
                        }
                    },
                };
                let copy = updated.duplicate();
                self.replace_at(i, updated);
                Ok(copy)
            },
            None => Err(ClusterError::NoClusterFound(name.to_owned())),
        }
    }
}

/// What a request offers to a cluster's routing: nothing, the value of a
/// header, an authority with the original destination address, or a hash
/// state.
#[derive(Debug)]
pub enum RoutingContext<H> {
    NotRequired,
    Header(Vec<u8>),
    Authority(String, String),
    Hash(H),
}

/// Why a request cannot meet a cluster's routing requirement.
#[derive(Debug, Clone, PartialEq)]
pub enum RoutingError {
    /// The header that the cluster routes by is missing.
    MissingHeader(String),
    /// The host header is not a valid authority.
    InvalidHost,
    /// The request has neither an authority nor a host header.
    NoHost,
}

/// The routing context that a request gives for a requirement: the first
/// value of the required header; the request's authority, or else its host
/// header parsed as one, with the original destination; the hash state; or
/// nothing.
pub open spec fn routing_context_outcome<H>(
    req: RoutingView,
    headers: Map<Seq<char>, Seq<Seq<u8>>>,
    uri_authority: Option<Seq<char>>,
    dst: Seq<char>,
    hash: H,
    r: Result<RoutingContext<H>, RoutingError>,
) -> bool {
    match req {
        RoutingView::Header(name) => if headers.contains_key(name) {
            r matches Ok(RoutingContext::Header(v)) && v@ == headers[name][0]
        } else {
            r matches Err(RoutingError::MissingHeader(n)) && n@ == name
        },
        RoutingView::Authority => match uri_authority {
            Some(a) => r matches Ok(RoutingContext::Authority(x, d)) && x@ == a && d@ == dst,
            None => if headers.contains_key("host"@) {
                match authority_from_bytes(headers["host"@][0]) {
                    Some(a) => r matches Ok(RoutingContext::Authority(x, d)) && x@ == a && d@ == dst,
                    None => r == Err::<RoutingContext<H>, RoutingError>(RoutingError::InvalidHost),
                }
            } else {
                r == Err::<RoutingContext<H>, RoutingError>(RoutingError::NoHost)
            },
        },
        RoutingView::Hash => r == Ok::<RoutingContext<H>, RoutingError>(RoutingContext::Hash(hash)),
        RoutingView::NotRequired => r == Ok::<RoutingContext<H>, RoutingError>(RoutingContext::NotRequired),
    }
}

impl<H> RoutingContext<H> {
    /// The routing context of a request for a cluster's requirement; the
    /// request is given by its headers, the authority of its URI and the
    /// original destination address of its connection.
    pub fn try_from_request(
        requirement: &RoutingRequirement,
        headers: &HeaderMap,
        uri_authority: Option<&String>,
        original_destination_address: &String,
        hash_state: H,
    ) -> (r: Result<Self, RoutingError>)
        ensures
            routing_context_outcome(
                requirement@,
                headers@,
                crate::load_assignment::opt_ref_view(uri_authority),
                original_destination_address@,
                hash_state,
                r,
            ),
    {
        match requirement {
            RoutingRequirement::Header(name) => match headers.get(name.as_str()) {
                Some(v) => Ok(RoutingContext::Header(v.clone())),
                None => Err(RoutingError::MissingHeader(name.clone())),
            },
            RoutingRequirement::Authority => match uri_authority {
                Some(a) => Ok(RoutingContext::Authority(a.clone(), original_destination_address.clone())),
                None => {
                    let host = "host";
                    proof {
                        reveal_strlit("host");
                    }
                    match headers.get(host) {
                        Some(h) => match parse_authority(h.as_slice()) {
                            Some(a) => Ok(RoutingContext::Authority(a, original_destination_address.clone())),
                            None => Err(RoutingError::InvalidHost),
                        },
                        None => Err(RoutingError::NoHost),
                    }
                },
            },
            RoutingRequirement::Hash => Ok(RoutingContext::Hash(hash_state)),
            RoutingRequirement::NotRequired => Ok(RoutingContext::NotRequired),
        }
    }
}

/// A cluster picked with a weight.
#[derive(Debug, Clone)]
pub struct ClusterWeight {
    pub cluster: String,
    pub weight: u32,
}

/// How a route names its cluster: directly, or as weighted choices.
#[derive(Debug, Clone)]
pub enum ClusterSpecifier {
    Cluster(String),
    WeightedCluster(Vec<ClusterWeight>),
}

/// The sum of the weights.
pub open spec fn weight_sum(w: Seq<u32>) -> int
    decreases w.len(),
{
    if w.len() == 0 {
        0
    } else {
        weight_sum(w.drop_last()) + w.last()
    }
}

/// Calls `SliceRandom::choose_weighted` of `rand` with the thread's random
/// generator, on the positions of `weights` weighted by them, and hands
/// back the chosen position. The source shows: no choice when there is no
/// weight or all are zero, and a chosen position always has a positive
/// weight. Which one is chosen is left to chance. The weights must not sum
/// past `u32::MAX`: the crate adds them up in a `u32`.
#[verifier::external_body]
fn choose_weighted_position(weights: &Vec<u32>) -> (r: Option<usize>)
    requires
        weight_sum(weights@) <= u32::MAX,
    ensures
        r is None <==> weight_sum(weights@) == 0,
        r matches Some(i) ==> i < weights@.len() && weights@[i as int] > 0,
{
    let positions: Vec<(usize, u32)> = weights.iter().copied().enumerate().collect();
    rand::seq::SliceRandom::choose_weighted(positions.as_slice(), &mut rand::thread_rng(), |p| p.1).ok().map(|p| p.0)
}

proof fn lemma_weight_sum_zero(w: Seq<u32>, i: int)
    requires
        0 <= i < w.len(),
    ensures
        weight_sum(w) >= w[i],
        weight_sum(w) >= 0,
    decreases w.len(),
{
    if i < w.len() - 1 {
        lemma_weight_sum_zero(w.drop_last(), i);
    } else {
        lemma_weight_sum_nonneg(w.drop_last());
    }
}

proof fn lemma_weight_sum_nonneg(w: Seq<u32>)
    ensures
        weight_sum(w) >= 0,
    decreases w.len(),
{
    if w.len() > 0 {
        lemma_weight_sum_nonneg(w.drop_last());
    }
}

/// The weights of the choices.
pub open spec fn choice_weights(c: Seq<ClusterWeight>) -> Seq<u32> {
    c.map_values(|w: ClusterWeight| w.weight)
}

/// Picks the cluster that a route sends a request to: the named cluster, or
/// one of the weighted choices with a positive weight, at random; no
/// cluster when no choice has a positive weight.
pub fn resolve_cluster(selector: &ClusterSpecifier) -> (r: Option<String>)
    requires
        selector matches ClusterSpecifier::WeightedCluster(c) ==> weight_sum(choice_weights(c@)) <= u32::MAX,
    ensures
        selector matches ClusterSpecifier::Cluster(n) ==> (r matches Some(x) && x@ == n@),
        selector matches ClusterSpecifier::WeightedCluster(c) ==> {
            &&& r is None <==> (forall|i: int| 0 <= i < c@.len() ==> (#[trigger] c@[i]).weight == 0)
            &&& r matches Some(x) ==> exists|i: int|
                0 <= i < c@.len() && (#[trigger] c@[i]).cluster@ == x@ && c@[i].weight > 0
        },
{
    match selector {
        ClusterSpecifier::Cluster(name) => Some(name.clone()),
        ClusterSpecifier::WeightedCluster(choices) => {
            let mut weights: Vec<u32> = Vec::new();
            let mut i: usize = 0;
            while i < choices.len()
                invariant
                    i <= choices@.len(),
                    weights@ =~= choice_weights(choices@).subrange(0, i as int),
                decreases choices@.len() - i,
            {
                weights.push(choices[i].weight);
                i += 1;
            }
            assert(weights@ =~= choice_weights(choices@));
            let picked = choose_weighted_position(&weights);
            proof {
                if picked is None {
                    assert forall|k: int| 0 <= k < choices@.len() implies (#[trigger] choices@[k]).weight == 0 by {
                        lemma_weight_sum_zero(weights@, k);
                        assert(weights@[k] == choices@[k].weight);
                    }
                } else {
                    if forall|k: int| 0 <= k < choices@.len() ==> (#[trigger] choices@[k]).weight == 0 {
                        lemma_all_zero_sum(weights@);
                    }
                }
            }
            match picked {
                Some(p) => {
                    assert(choices@[p as int].weight > 0);
                    Some(choices[p].cluster.clone())
                },
                None => None,
            }
        },
    }
}

proof fn lemma_all_zero_sum(w: Seq<u32>)
    requires
        forall|k: int| 0 <= k < w.len() ==> w[k] == 0,
    ensures
        weight_sum(w) == 0,
    decreases w.len(),
{
    if w.len() > 0 {
        lemma_all_zero_sum(w.drop_last());
    }
}

/// A cluster that was added is found under its name, as it was added,
/// and the other clusters stay as they were.
pub proof fn law_added_cluster_is_found(m: Map<Seq<char>, ClusterView>, c: ClusterView, other: Seq<char>)
    requires
        other != cluster_name(c),
    ensures
        m.insert(cluster_name(c), c).contains_key(cluster_name(c)),
        m.insert(cluster_name(c), c)[cluster_name(c)] == c,
        m.insert(cluster_name(c), c).contains_key(other) == m.contains_key(other),
        m.contains_key(other) ==> m.insert(cluster_name(c), c)[other] == m[other],
{
}

/// A cluster that was removed is no longer found, and removing it again
/// fails.
pub proof fn law_removed_cluster_is_gone(m: Map<Seq<char>, ClusterView>, name: Seq<char>)
    requires
        m.contains_key(name),
    ensures
        !m.remove(name).contains_key(name),
{
}

} // verus!
