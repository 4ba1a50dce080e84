//! Load assignments of clusters: the endpoints of a cluster grouped by
//! locality, with the counts of healthy endpoints that the balancers use.

use vstd::prelude::*;

verus! {

/// Health of an endpoint.
#[derive(Debug, Clone, Copy, PartialEq, Eq, Structural)]
pub enum HealthStatus {
    Healthy,
    Unhealthy,
}

impl HealthStatus {
    /// Whether the endpoint may receive traffic.
    pub fn is_healthy(&self) -> (r: bool)
        ensures
            r == (*self == HealthStatus::Healthy),
    {
        match self {
            HealthStatus::Healthy => true,
            HealthStatus::Unhealthy => false,
        }
    }
}

/// The load balancing policy that a cluster is configured with.
#[derive(Debug, Clone, Copy, PartialEq, Eq, Structural)]
pub enum LbPolicy {
    Random,
    ClusterProvided,
    RoundRobin,
    LeastRequest,
    RingHash,
    Maglev,
}

/// The balancer that picks among the endpoints of a load assignment.
#[derive(Debug, Clone, Copy, PartialEq, Eq, Structural)]
pub enum BalancerType {
    RoundRobin,
    Random,
    LeastRequests,
    RingHash,
    Maglev,
}

/// The balancer that serves a policy: random for `Random` and for
/// `ClusterProvided`, and the namesake of each other policy.
pub open spec fn balancer_for(policy: LbPolicy) -> BalancerType {
    match policy {
        LbPolicy::Random | LbPolicy::ClusterProvided => BalancerType::Random,
        LbPolicy::RoundRobin => BalancerType::RoundRobin,
        LbPolicy::LeastRequest => BalancerType::LeastRequests,
        LbPolicy::RingHash => BalancerType::RingHash,
        LbPolicy::Maglev => BalancerType::Maglev,
    }
}

/// Picks the balancer for a policy.
pub fn balancer_type_for(policy: LbPolicy) -> (r: BalancerType)
    ensures
        r == balancer_for(policy),
{
    match policy {
        LbPolicy::Random | LbPolicy::ClusterProvided => BalancerType::Random,
        LbPolicy::RoundRobin => BalancerType::RoundRobin,
        LbPolicy::LeastRequest => BalancerType::LeastRequests,
        LbPolicy::RingHash => BalancerType::RingHash,
        LbPolicy::Maglev => BalancerType::Maglev,
    }
}

/// Errors of building and using load assignments and clusters.
#[derive(Debug, Clone, PartialEq)]
pub enum ClusterError {
    /// A locality holds more endpoints, or more healthy endpoints, than the
    /// balancers can count.
    TooManyEndpoints,
    /// A load assignment names no locality.
    NoLocality,
    /// Internal endpoints offer no gRPC service.
    InternalEndpointGrpc,
    /// The named cluster does not exist (load assignment changes).
    NoClusterFound(String),
    /// The load assignment of a static cluster cannot be removed.
    StaticClusterAssignment(String),
    /// An `ORIGINAL_DST` cluster has no load assignment to remove.
    OriginalDstAssignment(String),
    /// An `ORIGINAL_DST` cluster was handed endpoints.
    OriginalDstEndpointsNotEmpty(String),
    /// The named cluster does not exist (removal).
    NoSuchCluster,
    /// The named cluster does not exist (lookups).
    ClusterNotFound(String),
    /// The port override does not make a valid authority.
    PortOverride(String),
    /// The header that names the destination of an `ORIGINAL_DST` cluster
    /// does not hold a valid authority (the cluster's name).
    InvalidHeaderAuthority(String),
    /// An `ORIGINAL_DST` cluster got a routing context without the
    /// destination it needs (the cluster's name).
    MissingDestination(String),
    /// Building the cluster failed before it reached the registry.
    Build(String),
}

/// Where an internal endpoint sends its traffic.
#[derive(Debug, Clone)]
pub struct InternalEndpointAddress {
    pub server_listener_name: String,
    pub endpoint_id: Option<String>,
}

/// The address of an endpoint: a socket, named by its authority, or an
/// internal listener.
#[derive(Debug, Clone)]
pub enum EndpointAddressType {
    Socket(String),
    Internal(InternalEndpointAddress),
}

/// What an endpoint address holds.
pub enum AddressView {
    Socket(Seq<char>),
    Internal(Seq<char>, Option<Seq<char>>),
}

pub open spec fn opt_view(o: Option<String>) -> Option<Seq<char>> {
    match o {
        Some(s) => Some(s@),
        None => None,
    }
}

pub open spec fn opt_ref_view(o: Option<&String>) -> Option<Seq<char>> {
    match o {
        Some(s) => Some(s@),
        None => None,
    }
}

impl View for EndpointAddressType {
    type V = AddressView;

    open spec fn view(&self) -> AddressView {
        match self {
            EndpointAddressType::Socket(a) => AddressView::Socket(a@),
            EndpointAddressType::Internal(i) => AddressView::Internal(
                i.server_listener_name@,
                opt_view(i.endpoint_id),
            ),
        }
    }
}

fn clone_opt_string(o: &Option<String>) -> (r: Option<String>)
    ensures
        opt_view(r) == opt_view(*o),
{
    match o {
        Some(s) => Some(s.clone()),
        None => None,
    }
}

impl EndpointAddressType {
    /// A copy of the address.
    pub fn duplicate(&self) -> (r: Self)
        ensures
            r@ == self@,
    {
        match self {
            EndpointAddressType::Socket(a) => EndpointAddressType::Socket(a.clone()),
            EndpointAddressType::Internal(i) => EndpointAddressType::Internal(
                InternalEndpointAddress {
                    server_listener_name: i.server_listener_name.clone(),
                    endpoint_id: clone_opt_string(&i.endpoint_id),
                },
            ),
        }
    }
}

/// An endpoint of a cluster.
#[derive(Debug)]
pub struct LbEndpoint {
    /// The name of the cluster it belongs to.
    pub name: String,
    pub address: EndpointAddressType,
    pub weight: u32,
    pub health_status: HealthStatus,
}

/// What an endpoint holds.
pub struct LbEndpointView {
    pub name: Seq<char>,
    pub address: AddressView,
    pub weight: u32,
    pub health_status: HealthStatus,
}

impl View for LbEndpoint {
    type V = LbEndpointView;

    open spec fn view(&self) -> LbEndpointView {
        LbEndpointView {
            name: self.name@,
            address: self.address@,
            weight: self.weight,
            health_status: self.health_status,
        }
    }
}

impl LbEndpoint {
    /// A copy of the endpoint.
    pub fn duplicate(&self) -> (r: Self)
        ensures
            r@ == self@,
    {
        LbEndpoint {
            name: self.name.clone(),
            address: self.address.duplicate(),
            weight: self.weight,
            health_status: self.health_status,
        }
    }

    /// The authority of a socket endpoint. Internal endpoints have none.
    pub fn authority(&self) -> (r: &String)
        requires
            self.address@ is Socket,
        ensures
            AddressView::Socket(r@) == self.address@,
    {
        match &self.address {
            EndpointAddressType::Socket(a) => a,
            EndpointAddressType::Internal(_) => {
                proof {
                    assert(false);
                }
                &self.name
            },
        }
    }

    /// The upstream authority of the endpoint's gRPC service; internal
    /// endpoints have none.
    pub fn grpc_service(&self) -> (r: Result<String, ClusterError>)
        ensures
            grpc_result(self@, r),
    {
        match &self.address {
            EndpointAddressType::Socket(a) => Ok(a.clone()),
            EndpointAddressType::Internal(_) => Err(ClusterError::InternalEndpointGrpc),
        }
    }

    /// The authority of the HTTP channel of a socket endpoint.
    pub fn http_channel(&self) -> (r: Option<&String>)
        ensures
            opt_ref_view(r) == socket_authority(self@.address),
    {
        match &self.address {
            EndpointAddressType::Socket(a) => Some(a),
            EndpointAddressType::Internal(_) => None,
        }
    }

    /// The authority of the TCP connector of a socket endpoint.
    pub fn tcp_channel(&self) -> (r: Option<&String>)
        ensures
            opt_ref_view(r) == socket_authority(self@.address),
    {
        match &self.address {
            EndpointAddressType::Socket(a) => Some(a),
            EndpointAddressType::Internal(_) => None,
        }
    }
}

/// The authority of a socket address.
pub open spec fn socket_authority(a: AddressView) -> Option<Seq<char>> {
    match a {
        AddressView::Socket(s) => Some(s),
        AddressView::Internal(_, _) => None,
    }
}

/// The gRPC outcome for an endpoint: the authority of a socket endpoint,
/// the internal-endpoint error otherwise.
pub open spec fn grpc_result(e: LbEndpointView, r: Result<String, ClusterError>) -> bool {
    match e.address {
        AddressView::Socket(a) => r matches Ok(s) && s@ == a,
        AddressView::Internal(_, _) => r == Err::<String, ClusterError>(ClusterError::InternalEndpointGrpc),
    }
}

/// An endpoint as configured, before it joins a cluster.
#[derive(Debug)]
pub struct PartialLbEndpoint {
    pub address: EndpointAddressType,
    pub weight: u32,
    pub health_status: HealthStatus,
}

/// The endpoint that a configured endpoint becomes in the cluster `name`.
pub open spec fn built_endpoint(name: Seq<char>, p: PartialLbEndpoint) -> LbEndpointView {
    LbEndpointView { name: name, address: p.address@, weight: p.weight, health_status: p.health_status }
}

/// The endpoints of one locality.
#[derive(Debug)]
pub struct LocalityLbEndpoints {
    pub name: String,
    pub endpoints: Vec<LbEndpoint>,
    pub priority: u32,
    pub healthy_endpoints: u32,
    pub total_endpoints: u32,
}

/// What a locality holds.
pub struct LocalityView {
    pub name: Seq<char>,
    pub endpoints: Seq<LbEndpointView>,
    pub priority: u32,
    pub healthy_endpoints: u32,
    pub total_endpoints: u32,
}

pub open spec fn endpoints_view(v: Seq<LbEndpoint>) -> Seq<LbEndpointView> {
    v.map_values(|e: LbEndpoint| e@)
}

impl View for LocalityLbEndpoints {
    type V = LocalityView;

    open spec fn view(&self) -> LocalityView {
        LocalityView {
            name: self.name@,
            endpoints: endpoints_view(self.endpoints@),
            priority: self.priority,
            healthy_endpoints: self.healthy_endpoints,
            total_endpoints: self.total_endpoints,
        }
    }
}

/// The endpoints of one locality as configured.
#[derive(Debug)]
pub struct PartialLocalityLbEndpoints {
    pub endpoints: Vec<PartialLbEndpoint>,
    pub priority: u32,
}

/// How many of the endpoints are healthy.
pub open spec fn healthy_count(s: Seq<LbEndpointView>) -> nat
    decreases s.len(),
{
    if s.len() == 0 {
        0
    } else {
        healthy_count(s.drop_last()) + if s.last().health_status == HealthStatus::Healthy {
            1nat
        } else {
            0nat
        }
    }
}

/// The endpoints that a configured locality holds once it joins the
/// cluster `name`.
pub open spec fn built_endpoints(name: Seq<char>, p: Seq<PartialLbEndpoint>) -> Seq<LbEndpointView> {
    p.map_values(|e: PartialLbEndpoint| built_endpoint(name, e))
}

/// Whether the counts of a locality fit what the balancers can count: the
/// number of endpoints fits in a `u32`, and the number of healthy ones stays
/// small enough to be multiplied by 100.
pub open spec fn counts_fit(s: Seq<LbEndpointView>) -> bool {
    s.len() <= u32::MAX && healthy_count(s) <= u32::MAX / 100
}

/// The locality that a configured locality becomes in the cluster `name`,
/// or the error for too many endpoints.
pub open spec fn locality_outcome(name: Seq<char>, p: PartialLocalityLbEndpoints, r: Result<LocalityLbEndpoints, ClusterError>) -> bool {
    let eps = built_endpoints(name, p.endpoints@);
    if counts_fit(eps) {
        r matches Ok(l) && l@ == LocalityView {
            name: name,
            endpoints: eps,
            priority: p.priority,
            healthy_endpoints: healthy_count(eps) as u32,
            total_endpoints: eps.len() as u32,
        }
    } else {
        r == Err::<LocalityLbEndpoints, ClusterError>(ClusterError::TooManyEndpoints)
    }
}

proof fn lemma_healthy_count_bound(s: Seq<LbEndpointView>)
    ensures
        healthy_count(s) <= s.len(),
    decreases s.len(),
{
    if s.len() > 0 {
        lemma_healthy_count_bound(s.drop_last());
    }
}

/// Builds the endpoints of one locality of the cluster `cluster_name`, and
/// counts them and their healthy ones.
pub fn build_locality(cluster_name: &String, partial: &PartialLocalityLbEndpoints) -> (r: Result<LocalityLbEndpoints, ClusterError>)
    ensures
        locality_outcome(cluster_name@, *partial, r),
{
    let ghost eps_all = built_endpoints(cluster_name@, partial.endpoints@);
    let mut endpoints: Vec<LbEndpoint> = Vec::new();
    let mut healthy: usize = 0;
    let mut i: usize = 0;
    while i < partial.endpoints.len()
        invariant
            i <= partial.endpoints@.len(),
            eps_all == built_endpoints(cluster_name@, partial.endpoints@),
            endpoints_view(endpoints@) =~= eps_all.subrange(0, i as int),
            healthy == healthy_count(eps_all.subrange(0, i as int)),
            healthy <= i,
        decreases partial.endpoints@.len() - i,
    {
        let p = &partial.endpoints[i];
        let e = LbEndpoint {
            name: cluster_name.clone(),
            address: p.address.duplicate(),
            weight: p.weight,
            health_status: p.health_status,
        };
        assert(e@ == eps_all[i as int]);
        let h = e.health_status.is_healthy();
        endpoints.push(e);
        assert(eps_all.subrange(0, i + 1).drop_last() =~= eps_all.subrange(0, i as int));
        if h {
            healthy = healthy + 1;
        }
        i = i + 1;
    }
    assert(eps_all.subrange(0, i as int) =~= eps_all);
    let total = endpoints.len();
    if total > 0xffff_ffff || healthy > 0xffff_ffff / 100 {
        return Err(ClusterError::TooManyEndpoints);
    }
    Ok(LocalityLbEndpoints {
        name: cluster_name.clone(),
        endpoints,
        priority: partial.priority,
        healthy_endpoints: healthy as u32,
        total_endpoints: total as u32,
    })
}

/// A configured load assignment: the localities of a cluster.
#[derive(Debug)]
pub struct PartialClusterLoadAssignment {
    endpoints: Vec<PartialLocalityLbEndpoints>,
}

impl PartialClusterLoadAssignment {
    pub closed spec fn localities(&self) -> Seq<PartialLocalityLbEndpoints> {
        self.endpoints@
    }

    /// A load assignment from its localities; it must name at least one.
    pub fn new(endpoints: Vec<PartialLocalityLbEndpoints>) -> (r: Result<Self, ClusterError>)
        ensures
            endpoints@.len() == 0 ==> r == Err::<Self, ClusterError>(ClusterError::NoLocality),
            endpoints@.len() > 0 ==> (r matches Ok(c) && c.localities() == endpoints@),
    {
        if endpoints.len() == 0 {
            Err(ClusterError::NoLocality)
        } else {
            Ok(PartialClusterLoadAssignment { endpoints })
        }
    }

    /// Whether no locality holds an endpoint.
    pub fn is_empty(&self) -> (r: bool)
        ensures
            r == (forall|i: int| 0 <= i < self.localities().len() ==> (#[trigger] self.localities()[i]).endpoints@.len() == 0),
    {
        let mut i: usize = 0;
        while i < self.endpoints.len()
            invariant
                i <= self.endpoints@.len(),
                forall|t: int| 0 <= t < i ==> (#[trigger] self.endpoints@[t]).endpoints@.len() == 0,
            decreases self.endpoints@.len() - i,
        {
            if self.endpoints[i].endpoints.len() > 0 {
                assert(self.localities()[i as int].endpoints@.len() > 0);
                return false;
            }
            i += 1;
        }
        true
    }
}

/// The load assignment of a cluster: its localities and the balancer that
/// picks among their endpoints.
#[derive(Debug)]
pub struct ClusterLoadAssignment {
    pub cluster_name: String,
    pub balancer: BalancerType,
    pub endpoints: Vec<LocalityLbEndpoints>,
}

/// What a load assignment holds.
pub struct LoadAssignmentView {
    pub cluster_name: Seq<char>,
    pub balancer: BalancerType,
    pub endpoints: Seq<LocalityView>,
}

pub open spec fn localities_view(v: Seq<LocalityLbEndpoints>) -> Seq<LocalityView> {
    v.map_values(|l: LocalityLbEndpoints| l@)
}

impl View for ClusterLoadAssignment {
    type V = LoadAssignmentView;

    open spec fn view(&self) -> LoadAssignmentView {
        LoadAssignmentView {
            cluster_name: self.cluster_name@,
            balancer: self.balancer,
            endpoints: localities_view(self.endpoints@),
        }
    }
}

/// The locality that a configured locality becomes in the cluster `name`,
/// when its counts fit.
pub open spec fn built_locality(name: Seq<char>, p: PartialLocalityLbEndpoints) -> LocalityView {
    let eps = built_endpoints(name, p.endpoints@);
    LocalityView {
        name: name,
        endpoints: eps,
        priority: p.priority,
        healthy_endpoints: healthy_count(eps) as u32,
        total_endpoints: eps.len() as u32,
    }
}

/// Whether the counts of every configured locality fit, once its endpoints
/// join the cluster `name`.
pub open spec fn all_fit(name: Seq<char>, parts: Seq<PartialLocalityLbEndpoints>) -> bool {
    forall|i: int| 0 <= i < parts.len() ==> counts_fit(built_endpoints(name, (#[trigger] parts[i]).endpoints@))
}

/// The load assignment of the cluster `name`: every locality built, in
/// order, behind the balancer of `policy`.
pub open spec fn built_assignment(name: Seq<char>, parts: Seq<PartialLocalityLbEndpoints>, policy: LbPolicy) -> LoadAssignmentView {
    LoadAssignmentView {
        cluster_name: name,
        balancer: balancer_for(policy),
        endpoints: parts.map_values(|p: PartialLocalityLbEndpoints| built_locality(name, p)),
    }
}

/// What building a load assignment for the cluster `name` with `policy`
/// gives: the error for too many endpoints when a locality's counts do not
/// fit, else the built assignment.
pub open spec fn assignment_outcome(
    name: Seq<char>,
    parts: Seq<PartialLocalityLbEndpoints>,
    policy: LbPolicy,
    r: Result<ClusterLoadAssignment, ClusterError>,
) -> bool {
    if all_fit(name, parts) {
        r matches Ok(c) && c@ == built_assignment(name, parts, policy)
    } else {
        r == Err::<ClusterLoadAssignment, ClusterError>(ClusterError::TooManyEndpoints)
    }
}

/// Builds the load assignment of the cluster `cluster_name` from its
/// configured localities, with the balancer of `lb_policy`.
pub fn build_load_assignment(cluster_name: &String, cla: &PartialClusterLoadAssignment, lb_policy: LbPolicy) -> (r: Result<ClusterLoadAssignment, ClusterError>)
    ensures
        assignment_outcome(cluster_name@, cla.localities(), lb_policy, r),
{
    let ghost parts = cla.localities();
    let mut built: Vec<LocalityLbEndpoints> = Vec::new();
    let mut i: usize = 0;
    while i < cla.endpoints.len()
        invariant
            i <= parts.len(),
            parts == cla.endpoints@,
            forall|t: int| 0 <= t < i ==> counts_fit(built_endpoints(cluster_name@, (#[trigger] parts[t]).endpoints@)),
            localities_view(built@) =~= parts.subrange(0, i as int).map_values(
                |p: PartialLocalityLbEndpoints| built_locality(cluster_name@, p),
            ),
        decreases parts.len() - i,
    {
        match build_locality(cluster_name, &cla.endpoints[i]) {
            Ok(l) => {
                let ghost before = built@;
                assert(l@ == built_locality(cluster_name@, parts[i as int]));
                built.push(l);
                assert(built@ =~= before.push(l));
                assert(localities_view(built@) =~= localities_view(before).push(l@));
                assert(parts.subrange(0, i + 1) =~= parts.subrange(0, i as int).push(parts[i as int]));
            },
            Err(e) => {
                assert(!counts_fit(built_endpoints(cluster_name@, parts[i as int].endpoints@)));
                return Err(e);
            },
        }
        i += 1;
    }
    assert(parts.subrange(0, i as int) =~= parts);
    Ok(ClusterLoadAssignment { cluster_name: cluster_name.clone(), balancer: balancer_type_for(lb_policy), endpoints: built })
}

/// All endpoints of the localities, locality by locality.
pub open spec fn all_endpoints(locs: Seq<LocalityView>) -> Seq<LbEndpointView>
    decreases locs.len(),
{
    if locs.len() == 0 {
        Seq::empty()
    } else {
        all_endpoints(locs.drop_last()) + locs.last().endpoints
    }
}

/// The authorities of the socket endpoints, in order.
pub open spec fn socket_authorities(eps: Seq<LbEndpointView>) -> Seq<Seq<char>>
    decreases eps.len(),
{
    if eps.len() == 0 {
        Seq::empty()
    } else {
        let rest = socket_authorities(eps.drop_last());
        match eps.last().address {
            AddressView::Socket(a) => rest.push(a),
            AddressView::Internal(_, _) => rest,
        }
    }
}

pub open spec fn strings_view(v: Seq<String>) -> Seq<Seq<char>> {
    v.map_values(|s: String| s@)
}

proof fn lemma_socket_authorities_append(a: Seq<LbEndpointView>, b: Seq<LbEndpointView>)
    ensures
        socket_authorities(a + b) =~= socket_authorities(a) + socket_authorities(b),
    decreases b.len(),
{
    if b.len() == 0 {
        assert(a + b =~= a);
    } else {
        lemma_socket_authorities_append(a, b.drop_last());
        assert((a + b).drop_last() =~= a + b.drop_last());
        assert((a + b).last() == b.last());
    }
}

/// Appends the authorities of the socket endpoints among `eps`.
fn push_socket_authorities(out: &mut Vec<String>, eps: &Vec<LbEndpoint>)
    ensures
        strings_view(final(out)@) =~= strings_view(old(out)@) + socket_authorities(endpoints_view(eps@)),
{
    let mut i: usize = 0;
    while i < eps.len()
        invariant
            i <= eps@.len(),
            strings_view(out@) =~= strings_view(old(out)@) + socket_authorities(endpoints_view(eps@).subrange(0, i as int)),
        decreases eps@.len() - i,
    {
        let ghost sub = endpoints_view(eps@).subrange(0, i + 1);
        assert(sub.drop_last() =~= endpoints_view(eps@).subrange(0, i as int));
        assert(sub.last() == eps@[i as int]@);
        let ghost before = out@;
        match eps[i].http_channel() {
            Some(a) => {
                out.push(a.clone());
                assert(strings_view(out@) =~= strings_view(before).push(a@));
            },
            None => {},
        }
        i += 1;
    }
    assert(endpoints_view(eps@).subrange(0, i as int) =~= endpoints_view(eps@));
}

impl ClusterLoadAssignment {
    /// The authorities of the HTTP channels of all socket endpoints, locality
    /// by locality.
    pub fn all_http_channels(&self) -> (r: Vec<String>)
        ensures
            strings_view(r@) == socket_authorities(all_endpoints(self@.endpoints)),
    {
        let mut out: Vec<String> = Vec::new();
        let mut i: usize = 0;
        while i < self.endpoints.len()
            invariant
                i <= self.endpoints@.len(),
                strings_view(out@) =~= socket_authorities(all_endpoints(localities_view(self.endpoints@).subrange(0, i as int))),
            decreases self.endpoints@.len() - i,
        {
            let ghost locs = localities_view(self.endpoints@).subrange(0, i + 1);
            assert(locs.drop_last() =~= localities_view(self.endpoints@).subrange(0, i as int));
            proof {
                lemma_socket_authorities_append(all_endpoints(locs.drop_last()), locs.last().endpoints);
            }
            push_socket_authorities(&mut out, &self.endpoints[i].endpoints);
            i += 1;
        }
        assert(localities_view(self.endpoints@).subrange(0, i as int) =~= localities_view(self.endpoints@));
        out
    }

    /// The authorities of the TCP connectors of all socket endpoints, locality
    /// by locality.
    pub fn all_tcp_channels(&self) -> (r: Vec<String>)
        ensures
            strings_view(r@) == socket_authorities(all_endpoints(self@.endpoints)),
    {
        self.all_http_channels()
    }

    /// The gRPC service of every endpoint, locality by locality: the
    /// authority of a socket endpoint, the internal-endpoint error otherwise.
    pub fn try_all_grpc_channels(&self) -> (r: Vec<Result<String, ClusterError>>)
        ensures
            r@.len() == all_endpoints(self@.endpoints).len(),
            forall|k: int| 0 <= k < r@.len() ==> grpc_result(all_endpoints(self@.endpoints)[k], #[trigger] r@[k]),
    {
        let mut out: Vec<Result<String, ClusterError>> = Vec::new();
        let mut i: usize = 0;
        while i < self.endpoints.len()
            invariant
                i <= self.endpoints@.len(),
                out@.len() == all_endpoints(localities_view(self.endpoints@).subrange(0, i as int)).len(),
                forall|k: int| 0 <= k < out@.len() ==> grpc_result(
                    all_endpoints(localities_view(self.endpoints@).subrange(0, i as int))[k],
                    #[trigger] out@[k],
                ),
            decreases self.endpoints@.len() - i,
        {
            let ghost prev = all_endpoints(localities_view(self.endpoints@).subrange(0, i as int));
            let ghost locs = localities_view(self.endpoints@).subrange(0, i + 1);
            assert(locs.drop_last() =~= localities_view(self.endpoints@).subrange(0, i as int));
            let eps = &self.endpoints[i].endpoints;
            assert(locs.last().endpoints == endpoints_view(eps@));
            let ghost start = out@.len();
            let mut j: usize = 0;
            while j < eps.len()
                invariant
                    j <= eps@.len(),
                    start == prev.len(),
                    out@.len() == start + j,
                    forall|k: int| 0 <= k < start ==> grpc_result(prev[k], #[trigger] out@[k]),
                    forall|k: int| start <= k < out@.len() ==> grpc_result(eps@[k - start]@, #[trigger] out@[k]),
                decreases eps@.len() - j,
            {
                let g = eps[j].grpc_service();
                out.push(g);
                j += 1;
            }
            assert forall|k: int| 0 <= k < out@.len() implies grpc_result(all_endpoints(locs)[k], #[trigger] out@[k]) by {
                if k >= start {
                    assert(all_endpoints(locs)[k] == endpoints_view(eps@)[k - start]);
                }
            }
            i += 1;
        }
        assert(localities_view(self.endpoints@).subrange(0, i as int) =~= localities_view(self.endpoints@));
        out
    }
}

/// The endpoint after the balancer learns that the socket endpoint at
/// `authority` has health `h`; other endpoints are unchanged.
pub open spec fn with_health(e: LbEndpointView, authority: Seq<char>, h: HealthStatus) -> LbEndpointView {
    if e.address == AddressView::Socket(authority) {
        LbEndpointView { name: e.name, address: e.address, weight: e.weight, health_status: h }
    } else {
        e
    }
}

/// A locality after the health update of `with_health`. Its counts stay
/// those it was built with.
pub open spec fn locality_with_health(l: LocalityView, authority: Seq<char>, h: HealthStatus) -> LocalityView {
    LocalityView {
        name: l.name,
        endpoints: l.endpoints.map_values(|e: LbEndpointView| with_health(e, authority, h)),
        priority: l.priority,
        healthy_endpoints: l.healthy_endpoints,
        total_endpoints: l.total_endpoints,
    }
}

/// Every endpoint of every locality is a socket endpoint.
pub open spec fn all_socket(locs: Seq<LocalityView>) -> bool {
    forall|i: int, j: int|
        0 <= i < locs.len() && 0 <= j < locs[i].endpoints.len() ==> (#[trigger] locs[i].endpoints[j]).address is Socket
}

impl ClusterLoadAssignment {
    /// Tells the balancer the health of the socket endpoints at `authority`.
    /// Every endpoint must be a socket endpoint: internal endpoints have no
    /// authority to compare.
    pub fn update_endpoint_health(&mut self, authority: &String, health: HealthStatus)
        requires
            all_socket(old(self)@.endpoints),
        ensures
            final(self)@.cluster_name == old(self)@.cluster_name,
            final(self)@.balancer == old(self)@.balancer,
            final(self)@.endpoints == old(self)@.endpoints.map_values(
                |l: LocalityView| locality_with_health(l, authority@, health),
            ),
    {
        let ghost target = old(self)@.endpoints.map_values(|l: LocalityView| locality_with_health(l, authority@, health));
        let mut updated: Vec<LocalityLbEndpoints> = Vec::new();
        let mut i: usize = 0;
        while i < self.endpoints.len()
            invariant
                i <= self.endpoints@.len(),
                self@ == old(self)@,
                target == old(self)@.endpoints.map_values(|l: LocalityView| locality_with_health(l, authority@, health)),
                localities_view(updated@) =~= target.subrange(0, i as int),
            decreases self.endpoints@.len() - i,
        {
            let loc = &self.endpoints[i];
            let ghost lv = loc@;
            let mut eps: Vec<LbEndpoint> = Vec::new();
            let mut j: usize = 0;
            while j < loc.endpoints.len()
                invariant
                    j <= loc.endpoints@.len(),
                    lv == loc@,
                    endpoints_view(eps@) =~= lv.endpoints.subrange(0, j as int).map_values(
                        |e: LbEndpointView| with_health(e, authority@, health),
                    ),
                decreases loc.endpoints@.len() - j,
            {
                let e = &loc.endpoints[j];
                let mut copy = e.duplicate();
                let matches = match &e.address {
                    EndpointAddressType::Socket(a) => *a == *authority,
                    EndpointAddressType::Internal(_) => false,
                };
                if matches {
                    copy.health_status = health;
                }
                assert(copy@ == with_health(lv.endpoints[j as int], authority@, health));
                let ghost before = eps@;
                eps.push(copy);
                assert(endpoints_view(eps@) =~= endpoints_view(before).push(copy@));
                assert(lv.endpoints.subrange(0, j + 1) =~= lv.endpoints.subrange(0, j as int).push(lv.endpoints[j as int]));
                j += 1;
            }
            assert(lv.endpoints.subrange(0, j as int) =~= lv.endpoints);
            let new_loc = LocalityLbEndpoints {
                name: loc.name.clone(),
                endpoints: eps,
                priority: loc.priority,
                healthy_endpoints: loc.healthy_endpoints,
                total_endpoints: loc.total_endpoints,
            };
            assert(new_loc@ == locality_with_health(lv, authority@, health));
            let ghost before = updated@;
            updated.push(new_loc);
            assert(localities_view(updated@) =~= localities_view(before).push(new_loc@));
            assert(target.subrange(0, i + 1) =~= target.subrange(0, i as int).push(target[i as int]));
            i += 1;
        }
        assert(target.subrange(0, i as int) =~= target);
        self.endpoints = updated;
    }
}

/// Each load-balancing policy is served by its namesake balancer (`Random`
/// and `ClusterProvided` by the random one), and two different policies
/// other than those two never share a balancer.
pub proof fn law_policy_picks_its_namesake_balancer(p: LbPolicy, q: LbPolicy)
    ensures
        p == LbPolicy::RoundRobin ==> balancer_for(p) == BalancerType::RoundRobin,
        p == LbPolicy::LeastRequest ==> balancer_for(p) == BalancerType::LeastRequests,
        p == LbPolicy::RingHash ==> balancer_for(p) == BalancerType::RingHash,
        p == LbPolicy::Maglev ==> balancer_for(p) == BalancerType::Maglev,
        p == LbPolicy::Random || p == LbPolicy::ClusterProvided ==> balancer_for(p) == BalancerType::Random,
        p != q && p != LbPolicy::Random && p != LbPolicy::ClusterProvided && q != LbPolicy::Random && q
            != LbPolicy::ClusterProvided ==> balancer_for(p) != balancer_for(q),
{
}

} // verus!
