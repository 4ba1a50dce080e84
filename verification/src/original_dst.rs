//! `ORIGINAL_DST` clusters: their endpoints are the destinations that the
//! requests name, optionally moved to another port, and an endpoint is kept
//! for reuse once a request used it.

use vstd::prelude::*;
use std::time::Duration;
use lru_time_cache::LruCache;
use vstd::utf8::encode_utf8;
use crate::clusters::{ClusterType, ClusterView, OriginalDstCluster, RoutingContext, RoutingRequirement, RoutingView};
use crate::http_parts::{authority_from_bytes, parse_authority};
use crate::load_assignment::{strings_view, ClusterError};
use crate::text::{chars_of, push_char};

verus! {

broadcast use vstd::string::group_string_axioms;

/// The most endpoints an `ORIGINAL_DST` cluster keeps.
pub const MAXIMUM_ENDPOINTS: usize = 10_000;

/// The cleanup interval of an `ORIGINAL_DST` cluster without one of its
/// own, in nanoseconds: an endpoint unused for that long is dropped.
pub const DEFAULT_CLEANUP_INTERVAL_NANOS: u64 = 5_000_000_000;

/// `lru_time_cache::LruCache`, opaque to the proofs: what it holds is
/// named by `lru_keys` and `lru_capacity` below, and the functions that call
/// its methods state what each does to them. The times at which its keys
/// expire are not modelled: a key may drop out whenever the cache is used.
#[verifier::external_type_specification]
#[verifier::external_body]
#[verifier::reject_recursive_types(Key)]
#[verifier::reject_recursive_types(Value)]
pub struct ExLruCache<Key, Value>(LruCache<Key, Value>);

/// The keys that an `LruCache` holds, the most recently used first. Those
/// whose time ran out count until the cache next drops them.
pub uninterp spec fn lru_keys(c: LruCache<String, ()>) -> Seq<Seq<char>>;

/// The capacity that an `LruCache` was made with.
pub uninterp spec fn lru_capacity(c: LruCache<String, ()>) -> usize;

/// `a` is `b` with some of its items left out, the others in their order.
pub open spec fn subsequence_of(a: Seq<Seq<char>>, b: Seq<Seq<char>>) -> bool
    decreases b.len(),
{
    if a.len() == 0 {
        true
    } else if b.len() == 0 {
        false
    } else if a.last() == b.last() {
        subsequence_of(a.drop_last(), b.drop_last())
    } else {
        subsequence_of(a, b.drop_last())
    }
}

/// `listed` is what is left of `held` after the least recently used ones
/// were dropped, with some of the others left out too, in their order.
pub open spec fn listed_from(listed: Seq<Seq<char>>, held: Seq<Seq<char>>) -> bool {
    exists|k: int| 0 <= k <= held.len() && subsequence_of(listed, #[trigger] held.take(k))
}

/// `LruCache::with_expiry_duration_and_capacity`: an empty cache whose
/// entries live for the given time and that holds at most `capacity` keys.
#[verifier::external_body]
fn lru_new(time_to_live_nanos: u64, capacity: usize) -> (c: LruCache<String, ()>)
    ensures
        lru_keys(c) == Seq::<Seq<char>>::empty(),
        lru_capacity(c) == capacity,
{
    LruCache::with_expiry_duration_and_capacity(Duration::from_nanos(time_to_live_nanos), capacity)
}

/// `LruCache::get`: drops the expired keys, which are the least recently
/// used ones, then, when the key is held, makes it the most recently used
/// and answers `true`.
#[verifier::external_body]
fn lru_get(c: &mut EndpointCache, key: &String) -> (found: bool)
    ensures
        lru_capacity(final(c).cache) == lru_capacity(old(c).cache),
        exists|k: int|
            0 <= k <= lru_keys(old(c).cache).len() && found == (first_index_from(#[trigger] lru_keys(old(c).cache).take(k), key@, 0) >= 0)
                && lru_keys(final(c).cache) == (if found {
                touched(lru_keys(old(c).cache).take(k), key@, lru_capacity(old(c).cache) as int)
            } else {
                lru_keys(old(c).cache).take(k)
            }),
{
    c.cache.get(key.as_str()).is_some()
}

/// `LruCache::insert` of a key: drops the expired keys, then makes the key
/// the most recently used; a new key in a full cache pushes out the least
/// recently used ones. It panics on a cache of capacity 0.
#[verifier::external_body]
fn lru_insert(c: &mut EndpointCache, key: String)
    requires
        lru_capacity(old(c).cache) > 0,
    ensures
        lru_capacity(final(c).cache) == lru_capacity(old(c).cache),
        exists|k: int|
            0 <= k <= lru_keys(old(c).cache).len() && lru_keys(final(c).cache) == touched(
                #[trigger] lru_keys(old(c).cache).take(k),
                key@,
                lru_capacity(old(c).cache) as int,
            ),
{
    let _ = c.cache.insert(key, ());
}

/// `LruCache::iter`, run to its end, with each key copied out: drops the
/// expired keys, then hands out the others, the most recently used first,
/// leaving out any whose time runs out meanwhile; each key handed out is
/// used, so the last one becomes the most recently used.
#[verifier::external_body]
fn lru_iter_keys(c: &mut EndpointCache) -> (r: Vec<String>)
    ensures
        lru_capacity(final(c).cache) == lru_capacity(old(c).cache),
        listed_from(strings_view(r@), lru_keys(old(c).cache)),
        lru_keys(final(c).cache) == strings_view(r@).reverse(),
{
    c.cache.iter().map(|(key, _)| key.clone()).collect()
}

/// `LruCache::clone`: a cache with the same keys, times and capacity.
#[verifier::external_body]
fn lru_clone(c: &LruCache<String, ()>) -> (r: LruCache<String, ()>)
    ensures
        lru_keys(r) == lru_keys(*c),
        lru_capacity(r) == lru_capacity(*c),
{
    c.clone()
}

/// `LruCache::len`: how many of the keys have not expired; at most all.
#[verifier::external_body]
fn lru_len(c: &LruCache<String, ()>) -> (r: usize)
    ensures
        r <= lru_keys(*c).len(),
{
    c.len()
}

/// The endpoints kept never repeat and never exceed `MAXIMUM_ENDPOINTS`.
pub open spec fn cache_sound(s: Seq<Seq<char>>) -> bool {
    no_repeats(s) && s.len() <= MAXIMUM_ENDPOINTS
}

/// The endpoints that an `ORIGINAL_DST` cluster keeps, by authority, the
/// most recently used first; one unused for the cleanup interval is dropped,
/// and at most `MAXIMUM_ENDPOINTS` are kept.
pub struct EndpointCache {
    cache: LruCache<String, ()>,
}

impl View for EndpointCache {
    type V = Seq<Seq<char>>;

    closed spec fn view(&self) -> Seq<Seq<char>> {
        lru_keys(self.cache)
    }
}

impl EndpointCache {
    #[verifier::type_invariant]
    spec fn holds_enough(self) -> bool {
        &&& lru_capacity(self.cache) == MAXIMUM_ENDPOINTS
        &&& cache_sound(lru_keys(self.cache))
    }

    /// An empty cache whose endpoints live for `cleanup_interval_nanos`.
    pub fn new(cleanup_interval_nanos: u64) -> (r: Self)
        ensures
            r@ == Seq::<Seq<char>>::empty(),
            cache_sound(r@),
    {
        EndpointCache { cache: lru_new(cleanup_interval_nanos, MAXIMUM_ENDPOINTS) }
    }

    /// Uses the endpoint `authority` when it is kept: answers whether it
    /// was, after the expired ones were dropped.
    pub fn get(&mut self, authority: &String) -> (found: bool)
        ensures
            exists|k: int|
                0 <= k <= old(self)@.len() && found == (first_index_from(#[trigger] old(self)@.take(k), authority@, 0) >= 0)
                    && final(self)@ == (if found {
                    touched(old(self)@.take(k), authority@, MAXIMUM_ENDPOINTS as int)
                } else {
                    old(self)@.take(k)
                }),
            cache_sound(final(self)@),
    {
        proof {
            use_type_invariant(&*self);
        }
        let found = lru_get(self, authority);
        proof {
            let k = choose|k: int|
                0 <= k <= lru_keys(old(self).cache).len() && found == (first_index_from(
                    #[trigger] lru_keys(old(self).cache).take(k),
                    authority@,
                    0,
                ) >= 0) && lru_keys(self.cache) == (if found {
                    touched(lru_keys(old(self).cache).take(k), authority@, lru_capacity(old(self).cache) as int)
                } else {
                    lru_keys(old(self).cache).take(k)
                });
            assert(old(self)@.take(k) == lru_keys(old(self).cache).take(k));
            if found {
                law_touched_keeps_the_cache_sound(old(self)@, authority@, k);
            } else {
                lemma_prefix_sound(old(self)@, k);
            }
        }
        found
    }

    /// Keeps the endpoint `authority` as the most recently used, after the
    /// expired ones were dropped; a new one beyond `MAXIMUM_ENDPOINTS`
    /// pushes out the least recently used.
    pub fn insert(&mut self, authority: String)
        ensures
            exists|k: int|
                0 <= k <= old(self)@.len() && final(self)@ == touched(
                    #[trigger] old(self)@.take(k),
                    authority@,
                    MAXIMUM_ENDPOINTS as int,
                ),
            cache_sound(final(self)@),
    {
        proof {
            use_type_invariant(&*self);
        }
        let ghost a = authority@;
        lru_insert(self, authority);
        proof {
            let k = choose|k: int|
                0 <= k <= lru_keys(old(self).cache).len() && lru_keys(self.cache) == touched(
                    #[trigger] lru_keys(old(self).cache).take(k),
                    a,
                    lru_capacity(old(self).cache) as int,
                );
            assert(old(self)@.take(k) == lru_keys(old(self).cache).take(k));
            law_touched_keeps_the_cache_sound(old(self)@, a, k);
        }
    }

    /// The endpoints in use, the most recently used first, after the
    /// expired ones were dropped; each is used in turn, so that the cache
    /// ends in the reverse order.
    pub fn in_use(&mut self) -> (r: Vec<String>)
        ensures
            listed_from(strings_view(r@), old(self)@),
            final(self)@ == strings_view(r@).reverse(),
            cache_sound(final(self)@),
    {
        proof {
            use_type_invariant(&*self);
        }
        let r = lru_iter_keys(self);
        proof {
            let held = lru_keys(old(self).cache);
            let k = choose|k: int| 0 <= k <= held.len() && subsequence_of(strings_view(r@), #[trigger] held.take(k));
            lemma_prefix_sound(held, k);
            lemma_subsequence_sound(strings_view(r@), held.take(k));
            lemma_reverse_sound(strings_view(r@));
        }
        r
    }

    /// How many endpoints have not expired; at most those kept.
    pub fn len(&self) -> (r: usize)
        ensures
            r <= self@.len(),
    {
        lru_len(&self.cache)
    }

    /// A copy of the cache.
    pub fn duplicate(&self) -> (r: Self)
        ensures
            r@ == self@,
            cache_sound(r@),
    {
        proof {
            use_type_invariant(self);
        }
        EndpointCache { cache: lru_clone(&self.cache) }
    }
}

/// How an `ORIGINAL_DST` cluster finds the destination of a request.
#[derive(Debug, Clone)]
pub enum OriginalDstRoutingMethod {
    /// From a header: the named one, or `x-envoy-original-dst-host`.
    HttpHeader { http_header_name: Option<String> },
    /// From metadata (routed by authority, as metadata is not read).
    MetadataKey(String),
    /// From the request's authority.
    Default,
}

/// The `ORIGINAL_DST` part of a cluster's configuration.
#[derive(Debug, Clone)]
pub struct OriginalDstConfig {
    pub routing_method: OriginalDstRoutingMethod,
    pub upstream_port_override: Option<u16>,
}

/// The routing requirement of an `ORIGINAL_DST` cluster: the header of an
/// `HttpHeader` method (by default `x-envoy-original-dst-host`), and the
/// authority otherwise, also when the cluster is not configured as
/// `ORIGINAL_DST`.
pub open spec fn original_dst_routing(config: Option<OriginalDstConfig>) -> RoutingView {
    match config {
        Some(c) => match c.routing_method {
            OriginalDstRoutingMethod::HttpHeader { http_header_name } => match http_header_name {
                Some(h) => RoutingView::Header(h@),
                None => RoutingView::Header("x-envoy-original-dst-host"@),
            },
            _ => RoutingView::Authority,
        },
        None => RoutingView::Authority,
    }
}

/// What an `ORIGINAL_DST` cluster is built from.
#[derive(Debug, Clone)]
pub struct OriginalDstClusterBuilder {
    pub name: String,
    pub config: Option<OriginalDstConfig>,
    /// How long an unused endpoint is kept, in nanoseconds; by default
    /// `DEFAULT_CLEANUP_INTERVAL_NANOS`.
    pub cleanup_interval: Option<u64>,
}

impl OriginalDstClusterBuilder {
    /// The cluster, with no endpoint yet.
    pub fn build(self) -> (r: ClusterType)
        ensures
            r@ == (ClusterView::OnDemand {
                name: self.name@,
                routing: original_dst_routing(self.config),
                port_override: match self.config {
                    Some(c) => c.upstream_port_override,
                    None => None,
                },
                endpoints: Seq::empty(),
            }),
    {
        let (routing, port_override) = match &self.config {
            Some(c) => {
                let routing = match &c.routing_method {
                    OriginalDstRoutingMethod::HttpHeader { http_header_name } => match http_header_name {
                        Some(h) => RoutingRequirement::Header(h.clone()),
                        None => {
                            let h = "x-envoy-original-dst-host";
                            RoutingRequirement::Header(h.to_owned())
                        },
                    },
                    OriginalDstRoutingMethod::MetadataKey(_) => RoutingRequirement::Authority,
                    OriginalDstRoutingMethod::Default => RoutingRequirement::Authority,
                };
                (routing, c.upstream_port_override)
            },
            None => (RoutingRequirement::Authority, None),
        };
        let cleanup_interval = match self.cleanup_interval {
            Some(i) => i,
            None => DEFAULT_CLEANUP_INTERVAL_NANOS,
        };
        let endpoints = EndpointCache::new(cleanup_interval);
        ClusterType::OnDemand(
            OriginalDstCluster {
                name: self.name,
                routing_requirements: routing,
                upstream_port_override: port_override,
                endpoints,
            },
        )
    }
}

/// The position of the last `c` before position `k`, or -1.
pub open spec fn last_index_before(s: Seq<char>, c: char, k: int) -> int
    decreases k,
{
    if k <= 0 {
        -1
    } else if s[k - 1] == c {
        k - 1
    } else {
        last_index_before(s, c, k - 1)
    }
}

/// The position of the first `c` from position `k` on, or -1.
pub open spec fn first_index_from<A>(s: Seq<A>, c: A, k: int) -> int
    decreases s.len() - k,
{
    if k < 0 || k >= s.len() {
        -1
    } else if s[k] == c {
        k
    } else {
        first_index_from(s, c, k + 1)
    }
}

proof fn lemma_first_index_found<A>(s: Seq<A>, c: A, k: int)
    requires
        first_index_from(s, c, k) >= 0,
    ensures
        k <= first_index_from(s, c, k) < s.len(),
        s[first_index_from(s, c, k)] == c,
    decreases s.len() - k,
{
    if k >= 0 && k < s.len() && s[k] != c {
        lemma_first_index_found(s, c, k + 1);
    }
}

/// The host of an authority, as `http::uri::Authority::host` reads it:
/// what follows the last `@`; of that, a bracketed IPv6 address up to its
/// `]`, or else the text before the first `:`.
pub open spec fn authority_host(a: Seq<char>) -> Seq<char> {
    let start = last_index_before(a, '@', a.len() as int) + 1;
    if start < a.len() && a[start] == '[' {
        let e = first_index_from(a, ']', start);
        if e < 0 {
            a.subrange(start, a.len() as int)
        } else {
            a.subrange(start, e + 1)
        }
    } else {
        let e = first_index_from(a, ':', start);
        if e < 0 {
            a.subrange(start, a.len() as int)
        } else {
            a.subrange(start, e)
        }
    }
}

fn last_index(s: &Vec<char>, c: char) -> (r: usize)
    ensures
        r as int == last_index_before(s@, c, s@.len() as int) + 1,
        r <= s@.len(),
{
    let mut k = s.len();
    while k > 0 && s[k - 1] != c
        invariant
            k <= s@.len(),
            last_index_before(s@, c, s@.len() as int) == last_index_before(s@, c, k as int),
        decreases k,
    {
        k -= 1;
    }
    k
}

fn first_index(s: &Vec<char>, c: char, from: usize) -> (r: Option<usize>)
    requires
        from <= s@.len(),
    ensures
        match r {
            Some(e) => e as int == first_index_from(s@, c, from as int) && from <= e < s@.len(),
            None => first_index_from(s@, c, from as int) == -1,
        },
{
    let mut k = from;
    while k < s.len() && s[k] != c
        invariant
            from <= k <= s@.len(),
            first_index_from(s@, c, from as int) == first_index_from(s@, c, k as int),
        decreases s@.len() - k,
    {
        k += 1;
    }
    if k < s.len() {
        Some(k)
    } else {
        None
    }
}

fn push_range(out: &mut String, s: &Vec<char>, from: usize, to: usize)
    requires
        from <= to <= s@.len(),
    ensures
        final(out)@ == old(out)@ + s@.subrange(from as int, to as int),
{
    let mut k = from;
    while k < to
        invariant
            from <= k <= to,
            to <= s@.len(),
            out@ == old(out)@ + s@.subrange(from as int, k as int),
        decreases to - k,
    {
        push_char(out, s[k]);
        assert(s@.subrange(from as int, k + 1) =~= s@.subrange(from as int, k as int).push(s@[k as int]));
        k += 1;
    }
}

/// The host of an authority.
pub fn host_of(authority: &str) -> (r: String)
    ensures
        r@ == authority_host(authority@),
{
    let s = chars_of(authority);
    let start = last_index(&s, '@');
    let mut out = String::new();
    let end = if start < s.len() && s[start] == '[' {
        match first_index(&s, ']', start) {
            Some(e) => e + 1,
            None => s.len(),
        }
    } else {
        match first_index(&s, ':', start) {
            Some(e) => e,
            None => s.len(),
        }
    };
    push_range(&mut out, &s, start, end);
    assert(out@ =~= authority_host(authority@));
    out
}

/// The digit character of a number below 10.
pub open spec fn digit_char(d: nat) -> char {
    (d + 48) as char
}

/// The decimal digits of a number, without leading zeros.
pub open spec fn decimal_text(n: nat) -> Seq<char>
    decreases n,
{
    if n < 10 {
        seq![digit_char(n)]
    } else {
        decimal_text(n / 10).push(digit_char(n % 10))
    }
}

/// Appends the decimal digits of a number.
pub fn push_decimal(out: &mut String, n: u64)
    ensures
        final(out)@ == old(out)@ + decimal_text(n as nat),
    decreases n,
{
    if n >= 10 {
        push_decimal(out, n / 10);
    }
    let d: u8 = (n % 10) as u8;
    assert(d == n % 10);
    let c = (d + 48) as char;
    assert(c == digit_char((n % 10) as nat));
    push_char(out, c);
}

/// The text of an authority moved to another port: its host, `:`, and the
/// port in decimal.
pub open spec fn with_port(authority: Seq<char>, port: u16) -> Seq<char> {
    authority_host(authority) + seq![':'] + decimal_text(port as nat)
}

/// The authority that an `ORIGINAL_DST` cluster connects to for a request's
/// authority: the same one, or with the cluster's port override when it has
/// one, and then checked to be a valid authority.
pub open spec fn overridden_authority(port_override: Option<u16>, authority: Seq<char>, r: Result<String, ClusterError>) -> bool {
    match port_override {
        None => r matches Ok(a) && a@ == authority,
        Some(p) => match authority_from_bytes(encode_utf8(with_port(authority, p))) {
            Some(a) => r matches Ok(x) && x@ == a,
            None => r matches Err(ClusterError::PortOverride(_)),
        },
    }
}

impl OriginalDstCluster {
    /// Applies the cluster's port override to an authority.
    pub fn apply_port_override(&self, authority: &String) -> (r: Result<String, ClusterError>)
        ensures
            overridden_authority(self.upstream_port_override, authority@, r),
    {
        match self.upstream_port_override {
            Some(port) => {
                let mut text = host_of(authority.as_str());
                push_char(&mut text, ':');
                push_decimal(&mut text, port as u64);
                assert(text@ =~= with_port(authority@, port));
                match parse_authority(text.as_str().as_bytes()) {
                    Some(a) => Ok(a),
                    None => Err(ClusterError::PortOverride(text)),
                }
            },
            None => Ok(authority.clone()),
        }
    }
}

/// The keys of a cache after `a` was used: `a` first, as the most recently
/// used, then the others in their order; a new key in a cache that holds
/// `capacity` keys or more pushes out the least recently used ones.
pub open spec fn touched(endpoints: Seq<Seq<char>>, a: Seq<char>, capacity: int) -> Seq<Seq<char>> {
    let p = first_index_from(endpoints, a, 0);
    if p >= 0 {
        seq![a] + endpoints.remove(p)
    } else if endpoints.len() >= capacity {
        seq![a] + endpoints.take(capacity - 1)
    } else {
        seq![a] + endpoints
    }
}

/// No authority occurs twice.
pub open spec fn no_repeats(s: Seq<Seq<char>>) -> bool {
    forall|i: int, j: int| 0 <= i < s.len() && 0 <= j < s.len() && i != j ==> #[trigger] s[i] != #[trigger] s[j]
}

/// The outcome of a connection request for an authority: the overridden
/// authority is used, and becomes the most recently used endpoint.
pub open spec fn connection_outcome(
    old_c: OriginalDstCluster,
    new_c: OriginalDstCluster,
    authority: Seq<char>,
    r: Result<String, ClusterError>,
) -> bool {
    &&& new_c.name@ == old_c.name@
    &&& new_c.routing_requirements@ == old_c.routing_requirements@
    &&& new_c.upstream_port_override == old_c.upstream_port_override
    &&& overridden_authority(old_c.upstream_port_override, authority, r)
    &&& r matches Ok(a) ==> exists|k: int|
        0 <= k <= old_c.endpoints@.len() && new_c.endpoints@ == touched(
            #[trigger] old_c.endpoints@.take(k),
            a@,
            MAXIMUM_ENDPOINTS as int,
        )
    &&& r is Err ==> new_c.endpoints@ == old_c.endpoints@
}

impl OriginalDstCluster {
    /// Uses the endpoint for an authority that the request names, after the
    /// port override; hands back the authority that the channel reaches.
    pub fn get_http_connection_by_authority(&mut self, authority: &String) -> (r: Result<String, ClusterError>)
        ensures
            connection_outcome(*old(self), *final(self), authority@, r),
    {
        let authority = self.apply_port_override(authority)?;
        let ghost before = self.endpoints@;
        let found = self.endpoints.get(&authority);
        if !found {
            let ghost between = self.endpoints@;
            self.endpoints.insert(authority.clone());
            proof {
                let k1 = choose|k: int|
                    0 <= k <= before.len() && found == (first_index_from(#[trigger] before.take(k), authority@, 0) >= 0)
                        && between == before.take(k);
                let k2 = choose|k: int|
                    0 <= k <= between.len() && self.endpoints@ == touched(
                        #[trigger] between.take(k),
                        authority@,
                        MAXIMUM_ENDPOINTS as int,
                    );
                assert(between.take(k2) =~= before.take(k2));
                assert(self.endpoints@ == touched(before.take(k2), authority@, MAXIMUM_ENDPOINTS as int));
            }
        }
        Ok(authority)
    }

    /// Uses the endpoint that a header value names as its authority.
    pub fn get_http_connection_by_header(&mut self, header_value: &Vec<u8>) -> (r: Result<String, ClusterError>)
        ensures
            match authority_from_bytes(header_value@) {
                Some(a) => connection_outcome(*old(self), *final(self), a, r),
                None => (r matches Err(ClusterError::InvalidHeaderAuthority(n)) && n@ == old(self).name@)
                    && *final(self) == *old(self),
            },
    {
        match parse_authority(header_value.as_slice()) {
            Some(a) => self.get_http_connection_by_authority(&a),
            None => Err(ClusterError::InvalidHeaderAuthority(self.name.clone())),
        }
    }

    /// The HTTP channel for a request: by its authority or by the header that
    /// names its destination; other contexts are refused.
    pub fn get_http_connection<H>(&mut self, context: RoutingContext<H>) -> (r: Result<String, ClusterError>)
        ensures
            match context {
                RoutingContext::Authority(a, _) => connection_outcome(*old(self), *final(self), a@, r),
                RoutingContext::Header(v) => match authority_from_bytes(v@) {
                    Some(a) => connection_outcome(*old(self), *final(self), a, r),
                    None => (r matches Err(ClusterError::InvalidHeaderAuthority(n)) && n@ == old(self).name@)
                        && *final(self) == *old(self),
                },
                _ => (r matches Err(ClusterError::MissingDestination(n)) && n@ == old(self).name@) && *final(self) == *old(self),
            },
    {
        match context {
            RoutingContext::Authority(a, _) => self.get_http_connection_by_authority(&a),
            RoutingContext::Header(v) => self.get_http_connection_by_header(&v),
            _ => Err(ClusterError::MissingDestination(self.name.clone())),
        }
    }

    /// The TCP connector for a request: by its authority only.
    pub fn get_tcp_connection<H>(&mut self, context: RoutingContext<H>) -> (r: Result<String, ClusterError>)
        ensures
            match context {
                RoutingContext::Authority(a, _) => connection_outcome(*old(self), *final(self), a@, r),
                _ => (r matches Err(ClusterError::MissingDestination(n)) && n@ == old(self).name@) && *final(self) == *old(self),
            },
    {
        match context {
            RoutingContext::Authority(a, _) => self.get_http_connection_by_authority(&a),
            _ => Err(ClusterError::MissingDestination(self.name.clone())),
        }
    }

    /// The gRPC service for a request: by its authority only.
    pub fn get_grpc_connection<H>(&mut self, context: RoutingContext<H>) -> (r: Result<String, ClusterError>)
        ensures
            match context {
                RoutingContext::Authority(a, _) => connection_outcome(*old(self), *final(self), a@, r),
                _ => (r matches Err(ClusterError::MissingDestination(n)) && n@ == old(self).name@) && *final(self) == *old(self),
            },
    {
        self.get_tcp_connection(context)
    }
}

proof fn lemma_first_index_absent<A>(s: Seq<A>, c: A, k: int)
    requires
        0 <= k,
        first_index_from(s, c, k) < 0,
    ensures
        forall|i: int| k <= i < s.len() ==> s[i] != c,
    decreases s.len() - k,
{
    if k < s.len() {
        lemma_first_index_absent(s, c, k + 1);
    }
}

proof fn lemma_prefix_sound(s: Seq<Seq<char>>, k: int)
    requires
        cache_sound(s),
        0 <= k <= s.len(),
    ensures
        cache_sound(s.take(k)),
{
    let t = s.take(k);
    assert forall|i: int, j: int| 0 <= i < t.len() && 0 <= j < t.len() && i != j implies #[trigger] t[i] != #[trigger] t[j] by {
        assert(t[i] == s[i] && t[j] == s[j]);
    }
}

proof fn lemma_subsequence_sound(a: Seq<Seq<char>>, b: Seq<Seq<char>>)
    requires
        subsequence_of(a, b),
    ensures
        a.len() <= b.len(),
        forall|i: int| 0 <= i < a.len() ==> b.contains(#[trigger] a[i]),
        no_repeats(b) ==> no_repeats(a),
    decreases b.len(),
{
    if a.len() == 0 {
    } else if b.len() == 0 {
    } else if a.last() == b.last() {
        let a0 = a.drop_last();
        let b0 = b.drop_last();
        lemma_subsequence_sound(a0, b0);
        assert forall|i: int| 0 <= i < a.len() implies b.contains(#[trigger] a[i]) by {
            if i < a.len() - 1 {
                assert(a[i] == a0[i]);
                let j = choose|j: int| 0 <= j < b0.len() && b0[j] == a0[i];
                assert(b[j] == b0[j]);
            } else {
                assert(b[b.len() - 1] == a[i]);
            }
        }
        if no_repeats(b) {
            assert(no_repeats(b0)) by {
                assert forall|i: int, j: int| 0 <= i < b0.len() && 0 <= j < b0.len() && i != j implies #[trigger] b0[i]
                    != #[trigger] b0[j] by {
                    assert(b0[i] == b[i] && b0[j] == b[j]);
                }
            }
            assert forall|i: int, j: int| 0 <= i < a.len() && 0 <= j < a.len() && i != j implies #[trigger] a[i] != #[trigger] a[j] by {
                if i < a.len() - 1 && j < a.len() - 1 {
                    assert(a[i] == a0[i] && a[j] == a0[j]);
                } else {
                    let x = if i < a.len() - 1 { i } else { j };
                    assert(a[x] == a0[x]);
                    let m = choose|m: int| 0 <= m < b0.len() && b0[m] == a0[x];
                    assert(b[m] == b0[m]);
                    assert(b[m] != b[b.len() - 1]);
                }
            }
        }
    } else {
        let b0 = b.drop_last();
        lemma_subsequence_sound(a, b0);
        assert forall|i: int| 0 <= i < a.len() implies b.contains(#[trigger] a[i]) by {
            let j = choose|j: int| 0 <= j < b0.len() && b0[j] == a[i];
            assert(b[j] == b0[j]);
        }
        if no_repeats(b) {
            assert forall|i: int, j: int| 0 <= i < b0.len() && 0 <= j < b0.len() && i != j implies #[trigger] b0[i]
                != #[trigger] b0[j] by {
                assert(b0[i] == b[i] && b0[j] == b[j]);
            }
        }
    }
}

proof fn lemma_reverse_sound(s: Seq<Seq<char>>)
    ensures
        s.reverse().len() == s.len(),
        no_repeats(s) ==> no_repeats(s.reverse()),
{
    let r = s.reverse();
    if no_repeats(s) {
        assert forall|i: int, j: int| 0 <= i < r.len() && 0 <= j < r.len() && i != j implies #[trigger] r[i] != #[trigger] r[j] by {
            assert(r[i] == s[s.len() - 1 - i] && r[j] == s[s.len() - 1 - j]);
        }
    }
}

/// The endpoint a request went to becomes the most recently used, whatever
/// expired before; the endpoints kept never repeat and never exceed
/// `MAXIMUM_ENDPOINTS`.
pub proof fn law_touched_keeps_the_cache_sound(endpoints: Seq<Seq<char>>, a: Seq<char>, k: int)
    requires
        no_repeats(endpoints),
        endpoints.len() <= MAXIMUM_ENDPOINTS,
        0 <= k <= endpoints.len(),
    ensures
        touched(endpoints.take(k), a, MAXIMUM_ENDPOINTS as int).len() > 0,
        touched(endpoints.take(k), a, MAXIMUM_ENDPOINTS as int)[0] == a,
        touched(endpoints.take(k), a, MAXIMUM_ENDPOINTS as int).len() <= MAXIMUM_ENDPOINTS,
        no_repeats(touched(endpoints.take(k), a, MAXIMUM_ENDPOINTS as int)),
{
    let kept = endpoints.take(k);
    let p = first_index_from(kept, a, 0);
    let t = touched(kept, a, MAXIMUM_ENDPOINTS as int);
    assert(no_repeats(kept));
    if p >= 0 {
        lemma_first_index_found(kept, a, 0);
        assert forall|i: int, j: int| 0 <= i < t.len() && 0 <= j < t.len() && i != j implies #[trigger] t[i] != #[trigger] t[j] by {
            if i == 0 && j > 0 {
                let jj = if j - 1 < p { j - 1 } else { j };
                assert(t[j] == kept[jj]);
            } else if j == 0 && i > 0 {
                let ii = if i - 1 < p { i - 1 } else { i };
                assert(t[i] == kept[ii]);
            } else if i > 0 && j > 0 {
                let ii = if i - 1 < p { i - 1 } else { i };
                let jj = if j - 1 < p { j - 1 } else { j };
                assert(t[i] == kept[ii]);
                assert(t[j] == kept[jj]);
            }
        }
    } else {
        lemma_first_index_absent(kept, a, 0);
        assert forall|i: int, j: int| 0 <= i < t.len() && 0 <= j < t.len() && i != j implies #[trigger] t[i] != #[trigger] t[j] by {
            if i > 0 {
                assert(t[i] == kept[i - 1]);
            }
            if j > 0 {
                assert(t[j] == kept[j - 1]);
            }
        }
    }
}

proof fn lemma_char_absent_before(s: Seq<char>, c: char, k: int)
    requires
        0 <= k <= s.len(),
        forall|i: int| 0 <= i < k ==> #[trigger] s[i] != c,
    ensures
        last_index_before(s, c, k) == -1,
    decreases k,
{
    if k > 0 {
        lemma_char_absent_before(s, c, k - 1);
    }
}

proof fn lemma_char_absent_from(s: Seq<char>, c: char, k: int)
    requires
        0 <= k <= s.len(),
        forall|i: int| k <= i < s.len() ==> #[trigger] s[i] != c,
    ensures
        first_index_from(s, c, k) == -1,
    decreases s.len() - k,
{
    if k < s.len() {
        lemma_char_absent_from(s, c, k + 1);
    }
}

proof fn lemma_char_first_at(s: Seq<char>, c: char, k: int, e: int)
    requires
        0 <= k <= e < s.len(),
        forall|i: int| k <= i < e ==> #[trigger] s[i] != c,
        s[e] == c,
    ensures
        first_index_from(s, c, k) == e,
    decreases e - k,
{
    if k < e {
        lemma_char_first_at(s, c, k + 1, e);
    }
}

/// The host of an authority that is a bare host name or address (no user
/// part, no bracket, no port) is the whole authority; so moving it to
/// another port appends `:` and that port.
pub proof fn law_bare_authority_is_its_host(a: Seq<char>, port: u16)
    requires
        forall|i: int| 0 <= i < a.len() ==> #[trigger] a[i] != '@' && a[i] != '[' && a[i] != ':',
    ensures
        authority_host(a) == a,
        with_port(a, port) == a + seq![':'] + decimal_text(port as nat),
{
    lemma_char_absent_before(a, '@', a.len() as int);
    lemma_char_absent_from(a, ':', 0);
    assert(a.subrange(0, a.len() as int) =~= a);
}

/// The host of `host:port`, for a host without user part, bracket or
/// colon, is that host: the port is dropped, whatever it is (so long as it
/// holds no `@`); moving it to another port replaces the port.
pub proof fn law_port_is_dropped_from_host(h: Seq<char>, port_text: Seq<char>, port: u16)
    requires
        forall|i: int| 0 <= i < h.len() ==> #[trigger] h[i] != '@' && h[i] != '[' && h[i] != ':',
        forall|i: int| 0 <= i < port_text.len() ==> #[trigger] port_text[i] != '@',
    ensures
        authority_host(h + seq![':'] + port_text) == h,
        with_port(h + seq![':'] + port_text, port) == h + seq![':'] + decimal_text(port as nat),
{
    let a = h + seq![':'] + port_text;
    let n = h.len() as int;
    assert forall|i: int| 0 <= i < a.len() implies #[trigger] a[i] != '@' by {
        if i < n {
            assert(a[i] == h[i]);
        } else if i > n {
            assert(a[i] == port_text[i - n - 1]);
        }
    }
    lemma_char_absent_before(a, '@', a.len() as int);
    assert forall|i: int| 0 <= i < n implies #[trigger] a[i] != ':' by {
        assert(a[i] == h[i]);
    }
    assert(a[n] == ':');
    lemma_char_first_at(a, ':', 0, n);
    if n > 0 {
        assert(a[0] == h[0]);
    }
    assert(a.subrange(0, n) =~= h);
}

/// The host of a bracketed address (`[...]`, without `@` inside), alone or
/// followed by a port, is the bracketed address, brackets included.
pub proof fn law_bracketed_host_is_kept(inner: Seq<char>, rest: Seq<char>)
    requires
        forall|i: int| 0 <= i < inner.len() ==> #[trigger] inner[i] != '@' && inner[i] != ']',
        forall|i: int| 0 <= i < rest.len() ==> #[trigger] rest[i] != '@',
    ensures
        authority_host(seq!['['] + inner + seq![']'] + rest) == seq!['['] + inner + seq![']'],
{
    let h = seq!['['] + inner + seq![']'];
    let a = h + rest;
    let n = inner.len() as int;
    assert forall|i: int| 0 <= i < a.len() implies #[trigger] a[i] != '@' by {
        if 1 <= i <= n {
            assert(a[i] == inner[i - 1]);
        } else if i > n + 1 {
            assert(a[i] == rest[i - n - 2]);
        }
    }
    lemma_char_absent_before(a, '@', a.len() as int);
    assert(a[0] == '[');
    assert forall|i: int| 0 <= i < n + 1 implies #[trigger] a[i] != ']' by {
        if i >= 1 {
            assert(a[i] == inner[i - 1]);
        }
    }
    assert(a[n + 1] == ']');
    lemma_char_first_at(a, ']', 0, n + 1);
    assert(a.subrange(0, n + 2) =~= h);
}

} // verus!
