//! The override-host load balancer: a request header names the endpoints
//! it wants (authorities separated by commas); the healthy ones among the
//! cluster's endpoints are used in that order, the first as the primary
//! and the others for failover; when none is usable, the fallback balancer
//! chooses.

use vstd::prelude::*;
use crate::ag_ext_proc::{is_visible_ascii, visible_ascii_bytes};
use crate::http_parts::{authority_from_bytes, parse_authority};
use crate::keyed::{distinct_keys, find_key, keyed_map, lemma_keyed_empty, lemma_keyed_push, lemma_keyed_set};
use crate::load_assignment::{
    all_socket, localities_view, socket_authority, strings_view, AddressView, EndpointAddressType, HealthStatus, LbEndpoint, LbEndpointView,
    LocalityLbEndpoints, LocalityView,
};

verus! {

/// Whether a byte is trimmed from the ends of a name (a space or a tab:
/// the only white space a visible header value holds).
pub open spec fn is_trim_byte(b: u8) -> bool {
    b == 32 || b == 9
}

/// The bytes without their leading white space.
pub open spec fn trim_front(p: Seq<u8>) -> Seq<u8>
    decreases p.len(),
{
    if p.len() > 0 && is_trim_byte(p[0]) {
        trim_front(p.drop_first())
    } else {
        p
    }
}

/// The bytes without their trailing white space.
pub open spec fn trim_back(p: Seq<u8>) -> Seq<u8>
    decreases p.len(),
{
    if p.len() > 0 && is_trim_byte(p.last()) {
        trim_back(p.drop_last())
    } else {
        p
    }
}

/// The bytes without white space at either end.
pub open spec fn trimmed(p: Seq<u8>) -> Seq<u8> {
    trim_back(trim_front(p))
}

/// The pieces of the bytes between commas (one piece more than commas).
pub open spec fn split_commas(v: Seq<u8>) -> Seq<Seq<u8>>
    decreases v.len(),
{
    if v.len() == 0 {
        seq![Seq::empty()]
    } else {
        let prev = split_commas(v.drop_last());
        if v.last() == 44 {
            prev.push(Seq::empty())
        } else {
            prev.update(prev.len() - 1, prev.last().push(v.last()))
        }
    }
}

/// The endpoint a piece of the header names, if it is usable: the trimmed
/// piece is a valid authority of a healthy endpoint.
pub open spec fn piece_pick(m: Map<Seq<char>, bool>, p: Seq<u8>) -> Option<Seq<char>> {
    let t = trimmed(p);
    if t.len() == 0 {
        None
    } else {
        match authority_from_bytes(t) {
            Some(a) => if m.contains_key(a) && m[a] {
                Some(a)
            } else {
                None
            },
            None => None,
        }
    }
}

/// The usable endpoints that the pieces name, in order.
pub open spec fn picks(m: Map<Seq<char>, bool>, pieces: Seq<Seq<u8>>) -> Seq<Seq<char>>
    decreases pieces.len(),
{
    if pieces.len() == 0 {
        Seq::empty()
    } else {
        let rest = picks(m, pieces.drop_last());
        match piece_pick(m, pieces.last()) {
            Some(a) => rest.push(a),
            None => rest,
        }
    }
}

/// The endpoints of the localities, in order.
pub open spec fn endpoints_of(locs: Seq<LocalityView>) -> Seq<LbEndpointView>
    decreases locs.len(),
{
    if locs.len() == 0 {
        Seq::empty()
    } else {
        endpoints_of(locs.drop_last()) + locs.last().endpoints
    }
}

/// The authority of a socket endpoint.
pub open spec fn authority_text(e: LbEndpointView) -> Seq<char> {
    match e.address {
        AddressView::Socket(a) => a,
        AddressView::Internal(n, _) => n,
    }
}

/// Whether each endpoint is healthy, by authority: the previous balancer's
/// knowledge where it has some, else the endpoint's own status; a later
/// endpoint with the same authority wins.
pub open spec fn health_map(eps: Seq<LbEndpointView>, prev: Option<Map<Seq<char>, bool>>) -> Map<Seq<char>, bool>
    decreases eps.len(),
{
    if eps.len() == 0 {
        Map::empty()
    } else {
        let e = eps.last();
        let key = authority_text(e);
        let healthy = match prev {
            Some(p) => if p.contains_key(key) {
                p[key]
            } else {
                e.health_status == HealthStatus::Healthy
            },
            None => e.health_status == HealthStatus::Healthy,
        };
        health_map(eps.drop_last(), prev).insert(key, healthy)
    }
}

/// What the balancer chose.
#[derive(Debug)]
pub enum OverrideChoice {
    /// No named endpoint is usable: the fallback balancer chooses.
    Fallback,
    /// The usable named endpoints, in order: the first is the primary.
    Endpoints(Vec<String>),
}

/// The channels a request may go to: one, or a primary with failovers
/// tried in order; each channel is named by its authority.
#[derive(Debug, Clone, PartialEq, Eq)]
pub enum HttpChannels {
    Single(String),
    MultiWithFailover { channel: String, failover_channels: Vec<String> },
}

/// Why no channel can be chosen for a request.
#[derive(Debug, Clone, Copy, PartialEq, Eq, Structural)]
pub enum OverrideSelectionError {
    /// The fallback balancer has no active endpoint.
    NoActiveEndpoint,
    /// The endpoint chosen has no HTTP channel (an internal endpoint).
    NoHttpChannel,
}

/// The channels for a request, given what the override header asked for
/// and, when the fallback balancer chooses, the endpoint it picked (none
/// when it has no active endpoint): the first endpoint named in the header
/// with the others as failovers, in order; else the fallback endpoint's
/// channel. The overriding endpoints are socket endpoints, whose channel
/// goes to their authority.
pub fn override_channels(choice: OverrideChoice, fallback_pick: Option<&LbEndpoint>) -> (r: Result<
    HttpChannels,
    OverrideSelectionError,
>)
    ensures
        match choice {
            OverrideChoice::Endpoints(l) if l@.len() > 0 => r matches Ok(HttpChannels::MultiWithFailover { channel, failover_channels })
                && channel@ == l@[0]@ && strings_view(failover_channels@) == strings_view(l@).drop_first(),
            _ => match fallback_pick {
                None => r == Err::<HttpChannels, OverrideSelectionError>(OverrideSelectionError::NoActiveEndpoint),
                Some(e) => match socket_authority(e@.address) {
                    Some(a) => r matches Ok(HttpChannels::Single(c)) && c@ == a,
                    None => r == Err::<HttpChannels, OverrideSelectionError>(OverrideSelectionError::NoHttpChannel),
                },
            },
        },
{
    let named = match choice {
        OverrideChoice::Endpoints(l) => l,
        OverrideChoice::Fallback => Vec::new(),
    };
    if named.len() > 0 {
        let ghost all = strings_view(named@);
        let mut rest = named;
        let channel = rest.remove(0);
        assert(strings_view(rest@) =~= all.drop_first());
        Ok(HttpChannels::MultiWithFailover { channel, failover_channels: rest })
    } else {
        match fallback_pick {
            None => Err(OverrideSelectionError::NoActiveEndpoint),
            Some(e) => match e.http_channel() {
                Some(c) => Ok(HttpChannels::Single(c.clone())),
                None => Err(OverrideSelectionError::NoHttpChannel),
            },
        }
    }
}

/// The override-host balancer: the header it reads, and whether each
/// endpoint of the cluster is healthy, by authority.
#[derive(Debug)]
pub struct OverrideHostLoadBalancer {
    header: String,
    endpoints: Vec<(String, bool)>,
}

impl OverrideHostLoadBalancer {
    #[verifier::type_invariant]
    spec fn well_formed(self) -> bool {
        distinct_keys(self.endpoints@)
    }

    /// Whether each endpoint is healthy, by authority.
    pub closed spec fn view(&self) -> Map<Seq<char>, bool> {
        keyed_map(self.endpoints@)
    }

    /// The name of the header.
    pub closed spec fn header_name(&self) -> Seq<char> {
        self.header@
    }

    /// A balancer for the endpoints of the localities; the health is taken
    /// from the previous balancer where it knows the endpoint. Every
    /// endpoint must be a socket endpoint: internal endpoints have no
    /// authority.
    pub fn build(header: String, localities: &Vec<LocalityLbEndpoints>, previous: Option<&OverrideHostLoadBalancer>) -> (r: Self)
        requires
            all_socket(localities_view(localities@)),
        ensures
            r@ == health_map(
                endpoints_of(localities_view(localities@)),
                match previous {
                    Some(p) => Some(p@),
                    None => None,
                },
            ),
            r.header_name() == header@,
    {
        let ghost prev = match previous {
            Some(p) => Some(p@),
            None => None,
        };
        let ghost locs = localities_view(localities@);
        let mut entries: Vec<(String, bool)> = Vec::new();
        proof {
            lemma_keyed_empty(entries@);
        }
        let mut i: usize = 0;
        while i < localities.len()
            invariant
                i <= localities@.len(),
                locs == localities_view(localities@),
                all_socket(locs),
                distinct_keys(entries@),
                prev == match previous {
                    Some(p) => Some(p@),
                    None => None,
                },
                keyed_map(entries@) == health_map(endpoints_of(locs.subrange(0, i as int)), prev),
            decreases localities@.len() - i,
        {
            let ghost before_eps = endpoints_of(locs.subrange(0, i as int));
            assert(locs.subrange(0, i + 1).drop_last() =~= locs.subrange(0, i as int));
            let eps = &localities[i].endpoints;
            let ghost epv = locs[i as int].endpoints;
            assert(epv == eps@.map_values(|e: crate::load_assignment::LbEndpoint| e@));
            let mut j: usize = 0;
            while j < eps.len()
                invariant
                    j <= eps@.len(),
                    i < localities@.len(),
                    eps == &localities@[i as int].endpoints,
                    locs == localities_view(localities@),
                    epv == locs[i as int].endpoints,
                    all_socket(locs),
                    distinct_keys(entries@),
                    prev == match previous {
                        Some(p) => Some(p@),
                        None => None,
                    },
                    keyed_map(entries@) == health_map(before_eps + epv.subrange(0, j as int), prev),
                decreases eps@.len() - j,
            {
                let ep = &eps[j];
                assert(ep@ == epv[j as int]);
                assert(locs[i as int].endpoints[j as int].address is Socket);
                let key = ep.authority().clone();
                let own = ep.health_status.is_healthy();
                let healthy = match previous {
                    Some(p) => {
                        proof {
                            use_type_invariant(p);
                        }
                        match find_key(&p.endpoints, &key) {
                            Some(k) => p.endpoints[k].1,
                            None => own,
                        }
                    },
                    None => own,
                };
                let ghost seq_now = before_eps + epv.subrange(0, j + 1);
                assert(seq_now.drop_last() =~= before_eps + epv.subrange(0, j as int));
                assert(seq_now.last() == epv[j as int]);
                assert(authority_text(epv[j as int]) == key@);
                match find_key(&entries, &key) {
                    Some(k) => {
                        proof {
                            lemma_keyed_set(entries@, k as int, (key, healthy));
                        }
                        entries.set(k, (key, healthy));
                    },
                    None => {
                        proof {
                            lemma_keyed_push(entries@, (key, healthy));
                        }
                        entries.push((key, healthy));
                    },
                }
                j += 1;
            }
            assert(epv.subrange(0, eps@.len() as int) =~= epv);
            assert(endpoints_of(locs.subrange(0, i + 1)) == before_eps + epv);
            i += 1;
        }
        assert(locs.subrange(0, localities@.len() as int) =~= locs);
        OverrideHostLoadBalancer { header, endpoints: entries }
    }

    /// The name of the header the balancer reads.
    pub fn header(&self) -> (r: String)
        ensures
            r@ == self.header_name(),
    {
        self.header.clone()
    }

    /// Records the health of the endpoint at `authority`, if it is one of
    /// the cluster's.
    pub fn update_health(&mut self, authority: &String, healthy: bool)
        ensures
            final(self)@ == (if old(self)@.contains_key(authority@) {
                old(self)@.insert(authority@, healthy)
            } else {
                old(self)@
            }),
            final(self).header_name() == old(self).header_name(),
    {
        proof {
            use_type_invariant(&*self);
        }
        match find_key(&self.endpoints, authority) {
            Some(k) => {
                let key = self.endpoints[k].0.clone();
                proof {
                    lemma_keyed_set(self.endpoints@, k as int, (key, healthy));
                }
                let mut entries: Vec<(String, bool)> = Vec::new();
                std::mem::swap(&mut entries, &mut self.endpoints);
                entries.set(k, (key, healthy));
                self.endpoints = entries;
            },
            None => {},
        }
    }
}

proof fn lemma_trim_front_skip(p: Seq<u8>, a: int)
    requires
        0 <= a <= p.len(),
        forall|k: int| 0 <= k < a ==> is_trim_byte(#[trigger] p[k]),
    ensures
        trim_front(p) == trim_front(p.subrange(a, p.len() as int)),
    decreases a,
{
    if a > 0 {
        assert(p.drop_first().subrange(a - 1, p.drop_first().len() as int) =~= p.subrange(a, p.len() as int));
        lemma_trim_front_skip(p.drop_first(), a - 1);
    } else {
        assert(p.subrange(0, p.len() as int) =~= p);
    }
}

proof fn lemma_trim_back_skip(p: Seq<u8>, b: int)
    requires
        0 <= b <= p.len(),
        forall|k: int| b <= k < p.len() ==> is_trim_byte(#[trigger] p[k]),
    ensures
        trim_back(p) == trim_back(p.subrange(0, b)),
    decreases p.len() - b,
{
    if b < p.len() {
        assert(p.drop_last().subrange(0, b) =~= p.subrange(0, b));
        lemma_trim_back_skip(p.drop_last(), b);
    } else {
        assert(p.subrange(0, b) =~= p);
    }
}

/// The bytes without white space at either end.
fn trim(p: &Vec<u8>) -> (r: Vec<u8>)
    ensures
        r@ == trimmed(p@),
{
    let n = p.len();
    let mut a: usize = 0;
    while a < n && (p[a] == 32 || p[a] == 9)
        invariant
            a <= n,
            n == p@.len(),
            forall|k: int| 0 <= k < a ==> is_trim_byte(#[trigger] p@[k]),
        decreases n - a,
    {
        a += 1;
    }
    proof {
        lemma_trim_front_skip(p@, a as int);
    }
    let ghost q = p@.subrange(a as int, n as int);
    let mut b: usize = n;
    while b > a && (p[b - 1] == 32 || p[b - 1] == 9)
        invariant
            a <= b <= n,
            n == p@.len(),
            q == p@.subrange(a as int, n as int),
            forall|k: int| b - a <= k < q.len() ==> is_trim_byte(#[trigger] q[k]),
        decreases b,
    {
        assert(q[b - 1 - a] == p@[b - 1]);
        b -= 1;
    }
    proof {
        lemma_trim_back_skip(q, b - a);
        if a < n {
            assert(!is_trim_byte(p@[a as int]));
            assert(trim_front(q) == q) by {
                assert(q[0] == p@[a as int]);
            }
        } else {
            assert(q.len() == 0);
        }
        if b > a {
            assert(!is_trim_byte(q[b - 1 - a]));
            assert(q.subrange(0, b - a)[b - a - 1] == q[b - 1 - a]);
        }
        assert(trim_back(q.subrange(0, b - a)) == q.subrange(0, b - a));
    }
    let mut out: Vec<u8> = Vec::new();
    let mut k: usize = a;
    while k < b
        invariant
            a <= k <= b <= n,
            n == p@.len(),
            out@ == p@.subrange(a as int, k as int),
        decreases b - k,
    {
        out.push(p[k]);
        assert(p@.subrange(a as int, k + 1) =~= p@.subrange(a as int, k as int).push(p@[k as int]));
        k += 1;
    }
    assert(out@ =~= q.subrange(0, b - a));
    out
}

impl OverrideHostLoadBalancer {
    fn pick(&self, piece: &Vec<u8>) -> (r: Option<String>)
        ensures
            match r {
                Some(a) => piece_pick(self@, piece@) == Some(a@),
                None => piece_pick(self@, piece@) is None,
            },
    {
        proof {
            use_type_invariant(self);
        }
        let t = trim(piece);
        if t.len() == 0 {
            return None;
        }
        match parse_authority(t.as_slice()) {
            Some(a) => match find_key(&self.endpoints, &a) {
                Some(k) => if self.endpoints[k].1 {
                    Some(a)
                } else {
                    None
                },
                None => None,
            },
            None => None,
        }
    }

    /// The endpoints that the header's value asks for: the value must be
    /// visible text, else the fallback chooses; the usable endpoints named
    /// between its commas are taken in order, and the fallback chooses when
    /// there is none.
    pub fn select_override(&self, header_value: &[u8]) -> (r: OverrideChoice)
        ensures
            !is_visible_ascii(header_value@) ==> r is Fallback,
            is_visible_ascii(header_value@) ==> {
                let ps = picks(self@, split_commas(header_value@));
                if ps.len() == 0 {
                    r is Fallback
                } else {
                    r matches OverrideChoice::Endpoints(l) && strings_view(l@) == ps
                }
            },
    {
        if !visible_ascii_bytes(header_value) {
            return OverrideChoice::Fallback;
        }
        let ghost v = header_value@;
        let ghost m = self@;
        let ghost mut done: Seq<Seq<u8>> = Seq::empty();
        let mut current: Vec<u8> = Vec::new();
        let mut out: Vec<String> = Vec::new();
        let mut i: usize = 0;
        while i < header_value.len()
            invariant
                i <= v.len(),
                v == header_value@,
                m == self@,
                split_commas(v.subrange(0, i as int)) == done.push(current@),
                strings_view(out@) == picks(m, done),
            decreases v.len() - i,
        {
            let c = header_value[i];
            assert(v.subrange(0, i + 1).drop_last() =~= v.subrange(0, i as int));
            assert(v.subrange(0, i + 1).last() == c);
            if c == 44 {
                let picked = self.pick(&current);
                assert(done.push(current@).drop_last() =~= done);
                let ghost before = out@;
                match picked {
                    Some(a) => {
                        out.push(a);
                        assert(strings_view(out@) =~= strings_view(before).push(a@));
                    },
                    None => {},
                }
                proof {
                    done = done.push(current@);
                }
                current = Vec::new();
                assert(split_commas(v.subrange(0, i + 1)) =~= done.push(current@));
            } else {
                let ghost cur0 = current@;
                current.push(c);
                assert(split_commas(v.subrange(0, i + 1)) =~= done.push(current@));
            }
            i += 1;
        }
        assert(v.subrange(0, i as int) =~= v);
        let picked = self.pick(&current);
        let ghost all = done.push(current@);
        assert(all.drop_last() =~= done);
        let ghost before = out@;
        match picked {
            Some(a) => {
                out.push(a);
                assert(strings_view(out@) =~= strings_view(before).push(a@));
            },
            None => {},
        }
        if out.len() == 0 {
            OverrideChoice::Fallback
        } else {
            OverrideChoice::Endpoints(out)
        }
    }
}

/// Every endpoint the balancer picks from the header is one of the
/// cluster's endpoints, and a healthy one.
pub proof fn law_picked_endpoints_are_healthy(m: Map<Seq<char>, bool>, pieces: Seq<Seq<u8>>)
    ensures
        forall|i: int| 0 <= i < picks(m, pieces).len() ==> m.contains_key(#[trigger] picks(m, pieces)[i]) && m[picks(m, pieces)[i]],
    decreases pieces.len(),
{
    if pieces.len() > 0 {
        law_picked_endpoints_are_healthy(m, pieces.drop_last());
        let rest = picks(m, pieces.drop_last());
        match piece_pick(m, pieces.last()) {
            Some(a) => {
                assert forall|i: int| 0 <= i < picks(m, pieces).len() implies m.contains_key(#[trigger] picks(m, pieces)[i])
                    && m[picks(m, pieces)[i]] by {
                    if i < rest.len() {
                        assert(picks(m, pieces)[i] == rest[i]);
                    }
                }
            },
            None => {},
        }
    }
}

/// A header without commas names one endpoint: the balancer picks it when
/// it is a known healthy endpoint, and otherwise falls back.
pub proof fn law_single_name(m: Map<Seq<char>, bool>, v: Seq<u8>)
    requires
        forall|i: int| 0 <= i < v.len() ==> v[i] != 44,
    ensures
        split_commas(v) == seq![v],
        picks(m, split_commas(v)) == match piece_pick(m, v) {
            Some(a) => seq![a],
            None => Seq::<Seq<char>>::empty(),
        },
    decreases v.len(),
{
    if v.len() > 0 {
        law_single_name(m, v.drop_last());
        assert(v.last() != 44) by {
            assert(v[v.len() - 1] != 44);
        }
        assert(v.drop_last().push(v.last()) =~= v);
        assert(split_commas(v) =~= seq![v]);
    } else {
        assert(v =~= Seq::<u8>::empty());
        assert(split_commas(v) =~= seq![v]);
    }
    let ps = split_commas(v);
    assert(ps.drop_last() =~= Seq::<Seq<u8>>::empty());
    assert(ps.last() == v);
    assert(picks(m, ps.drop_last()) =~= Seq::<Seq<char>>::empty());
    match piece_pick(m, v) {
        Some(a) => {
            assert(picks(m, ps) =~= Seq::<Seq<char>>::empty().push(a));
            assert(Seq::<Seq<char>>::empty().push(a) =~= seq![a]);
        },
        None => {},
    }
}

} // verus!
