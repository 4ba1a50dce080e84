//! Format string evaluator: Envoy-style substitution of command operators.
//!
//! A format string mixes literal text with command operators such as
//! `%REQ(:authority)%`, `%DOWNSTREAM_REMOTE_ADDRESS%`, `%UPSTREAM_HOST%`,
//! `%PROTOCOL%`, `%REQ_METHOD%`, `%REQ_PATH%`, `%REQ_AUTHORITY%` and
//! `%ROUTE_NAME%`. An operator may carry a maximum length (`%REQ(ua):10%`);
//! a missing value is rendered as `-`, and an unknown operator is rendered
//! as itself between `%` signs.

use vstd::prelude::*;
use vstd::utf8::{decode_utf8, valid_utf8};
use vstd::string::StringSliceAdditionalSpecFns;
use crate::text::{ascii_lower, chars_of, is_ascii_text, lowercase, push_char, to_lowercase, utf8_to_string};

verus! {

broadcast use vstd::string::group_string_axioms;

/// The value of an optional string, by its characters.
pub open spec fn opt_chars(o: Option<String>) -> Option<Seq<char>> {
    match o {
        Some(s) => Some(s@),
        None => None,
    }
}

/// What a context holds, as mathematical values. Header names are the keys of
/// `headers`, already lowercased.
pub struct RequestContextView {
    pub headers: Map<Seq<char>, Seq<char>>,
    pub downstream_remote_address: Option<Seq<char>>,
    pub downstream_local_address: Option<Seq<char>>,
    pub upstream_host: Option<Seq<char>>,
    pub protocol: Option<Seq<char>>,
    pub method: Option<Seq<char>>,
    pub path: Option<Seq<char>>,
    pub route_name: Option<Seq<char>>,
}

/// The value stored under `key`, if any.
pub open spec fn header_lookup(headers: Map<Seq<char>, Seq<char>>, key: Seq<char>) -> Option<Seq<char>> {
    if headers.contains_key(key) {
        Some(headers[key])
    } else {
        None
    }
}

/// The `:authority` header, or else the `host` header.
pub open spec fn authority_of(ctx: RequestContextView) -> Option<Seq<char>> {
    match header_lookup(ctx.headers, lowercase(":authority"@)) {
        Some(a) => Some(a),
        None => header_lookup(ctx.headers, lowercase("host"@)),
    }
}

/// The map that a list of (name, value) pairs with distinct names stands for.
pub open spec fn pairs_map(pairs: Seq<(String, String)>) -> Map<Seq<char>, Seq<char>> {
    Map::new(
        |k: Seq<char>| exists|i: int| 0 <= i < pairs.len() && #[trigger] pairs[i].0@ == k,
        |k: Seq<char>| pairs[choose|i: int| 0 <= i < pairs.len() && #[trigger] pairs[i].0@ == k].1@,
    )
}

/// The names in a list of pairs are pairwise distinct.
pub open spec fn distinct_names(pairs: Seq<(String, String)>) -> bool {
    forall|i: int, j: int|
        0 <= i < pairs.len() && 0 <= j < pairs.len() && i != j ==> #[trigger] pairs[i].0@ != #[trigger] pairs[j].0@
}

proof fn lemma_pairs_map_at(pairs: Seq<(String, String)>, i: int)
    requires
        distinct_names(pairs),
        0 <= i < pairs.len(),
    ensures
        pairs_map(pairs).contains_key(pairs[i].0@),
        pairs_map(pairs)[pairs[i].0@] == pairs[i].1@,
{
    let k = pairs[i].0@;
    assert(pairs_map(pairs).dom().contains(k));
    let j = choose|j: int| 0 <= j < pairs.len() && #[trigger] pairs[j].0@ == k;
    assert(pairs[j].0@ == k);
}

proof fn lemma_pairs_map_set(pairs: Seq<(String, String)>, i: int, p: (String, String))
    requires
        distinct_names(pairs),
        0 <= i < pairs.len(),
        p.0@ == pairs[i].0@,
    ensures
        distinct_names(pairs.update(i, p)),
        pairs_map(pairs.update(i, p)) =~= pairs_map(pairs).insert(p.0@, p.1@),
{
    let n = pairs.update(i, p);
    assert(distinct_names(n)) by {
        assert forall|a: int, b: int| 0 <= a < n.len() && 0 <= b < n.len() && a != b implies #[trigger] n[a].0@
            != #[trigger] n[b].0@ by {
            assert(pairs[a].0@ != pairs[b].0@);
        }
    }
    let m = pairs_map(pairs).insert(p.0@, p.1@);
    assert forall|k: Seq<char>| #[trigger] pairs_map(n).contains_key(k) <==> m.contains_key(k) by {
        if pairs_map(n).contains_key(k) {
            let j = choose|j: int| 0 <= j < n.len() && #[trigger] n[j].0@ == k;
            if j != i {
                assert(pairs[j].0@ == k);
            }
        }
        if m.contains_key(k) && k != p.0@ {
            let j = choose|j: int| 0 <= j < pairs.len() && #[trigger] pairs[j].0@ == k;
            assert(n[j].0@ == k);
        }
        if k == p.0@ {
            assert(n[i].0@ == k);
        }
    }
    assert forall|k: Seq<char>| #[trigger] pairs_map(n).contains_key(k) implies pairs_map(n)[k] == m[k] by {
        let j = choose|j: int| 0 <= j < n.len() && #[trigger] n[j].0@ == k;
        lemma_pairs_map_at(n, j);
        if j != i {
            lemma_pairs_map_at(pairs, j);
        }
    }
}

proof fn lemma_pairs_map_push(pairs: Seq<(String, String)>, p: (String, String))
    requires
        distinct_names(pairs),
        !pairs_map(pairs).contains_key(p.0@),
    ensures
        distinct_names(pairs.push(p)),
        pairs_map(pairs.push(p)) =~= pairs_map(pairs).insert(p.0@, p.1@),
{
    let n = pairs.push(p);
    assert(distinct_names(n)) by {
        assert forall|a: int, b: int| 0 <= a < n.len() && 0 <= b < n.len() && a != b implies #[trigger] n[a].0@
            != #[trigger] n[b].0@ by {
            if a == pairs.len() as int {
                assert(pairs_map(pairs).dom().contains(pairs[b].0@) || pairs[b].0@ != p.0@);
            } else if b == pairs.len() as int {
                assert(pairs_map(pairs).dom().contains(pairs[a].0@) || pairs[a].0@ != p.0@);
            }
        }
    }
    let m = pairs_map(pairs).insert(p.0@, p.1@);
    assert forall|k: Seq<char>| #[trigger] pairs_map(n).contains_key(k) <==> m.contains_key(k) by {
        if pairs_map(n).contains_key(k) {
            let j = choose|j: int| 0 <= j < n.len() && #[trigger] n[j].0@ == k;
            if j < pairs.len() {
                assert(pairs[j].0@ == k);
            }
        }
        if m.contains_key(k) && k != p.0@ {
            let j = choose|j: int| 0 <= j < pairs.len() && #[trigger] pairs[j].0@ == k;
            assert(n[j].0@ == k);
        }
        if k == p.0@ {
            assert(n[pairs.len() as int].0@ == k);
        }
    }
    assert forall|k: Seq<char>| #[trigger] pairs_map(n).contains_key(k) implies pairs_map(n)[k] == m[k] by {
        let j = choose|j: int| 0 <= j < n.len() && #[trigger] n[j].0@ == k;
        lemma_pairs_map_at(n, j);
        if j < pairs.len() {
            lemma_pairs_map_at(pairs, j);
        }
    }
}

/// Finds the position of `key` among the names of `pairs`.
fn find_name(pairs: &Vec<(String, String)>, key: &String) -> (r: Option<usize>)
    requires
        distinct_names(pairs@),
    ensures
        r matches Some(i) ==> i < pairs@.len() && pairs@[i as int].0@ == key@,
        r is None ==> !pairs_map(pairs@).contains_key(key@),
{
    let mut i: usize = 0;
    while i < pairs.len()
        invariant
            i <= pairs@.len(),
            forall|t: int| 0 <= t < i ==> pairs@[t].0@ != key@,
        decreases pairs@.len() - i,
    {
        if pairs[i].0 == *key {
            return Some(i);
        }
        i += 1;
    }
    proof {
        if pairs_map(pairs@).contains_key(key@) {
            let j = choose|j: int| 0 <= j < pairs@.len() && #[trigger] pairs@[j].0@ == key@;
            assert(pairs@[j].0@ == key@);
        }
    }
    None
}

/// Request context holding what format string evaluation may refer to.
#[derive(Debug)]
pub struct RequestContext {
    /// Request headers, by lowercase name.
    headers: Vec<(String, String)>,
    /// Downstream (client) remote address, as text.
    downstream_remote_address: Option<String>,
    /// Downstream local address (what the client connected to), as text.
    downstream_local_address: Option<String>,
    /// Upstream host address.
    upstream_host: Option<String>,
    /// Protocol (HTTP/1.1, HTTP/2, etc.).
    protocol: Option<String>,
    /// Request method (GET, POST, etc.).
    method: Option<String>,
    /// Request path.
    path: Option<String>,
    /// Route name.
    route_name: Option<String>,
}

impl RequestContext {
    #[verifier::type_invariant]
    spec fn names_distinct(self) -> bool {
        distinct_names(self.headers@)
    }

    /// The context's contents.
    pub closed spec fn view(&self) -> RequestContextView {
        RequestContextView {
            headers: pairs_map(self.headers@),
            downstream_remote_address: opt_chars(self.downstream_remote_address),
            downstream_local_address: opt_chars(self.downstream_local_address),
            upstream_host: opt_chars(self.upstream_host),
            protocol: opt_chars(self.protocol),
            method: opt_chars(self.method),
            path: opt_chars(self.path),
            route_name: opt_chars(self.route_name),
        }
    }

    /// Creates a new empty request context.
    pub fn new() -> (r: Self)
        ensures
            r@.headers == Map::<Seq<char>, Seq<char>>::empty(),
            r@.downstream_remote_address is None,
            r@.downstream_local_address is None,
            r@.upstream_host is None,
            r@.protocol is None,
            r@.method is None,
            r@.path is None,
            r@.route_name is None,
    {
        let r = RequestContext {
            headers: Vec::new(),
            downstream_remote_address: None,
            downstream_local_address: None,
            upstream_host: None,
            protocol: None,
            method: None,
            path: None,
            route_name: None,
        };
        assert(r@.headers =~= Map::<Seq<char>, Seq<char>>::empty());
        r
    }

    /// Sets a request header; the name is stored lowercased, and a header of
    /// the same lowercased name is replaced.
    pub fn with_header(self, name: &str, value: &str) -> (r: Self)
        ensures
            r@ == (RequestContextView { headers: self@.headers.insert(lowercase(name@), value@), ..self@ }),
            is_ascii_text(name@) ==> lowercase(name@) == ascii_lower(name@),
    {
        proof {
            use_type_invariant(&self);
        }
        let key = to_lowercase(name);
        let entry = (key.clone(), value.to_owned());
        let RequestContext {
            mut headers,
            downstream_remote_address,
            downstream_local_address,
            upstream_host,
            protocol,
            method,
            path,
            route_name,
        } = self;
        let ghost old_headers = headers@;
        match find_name(&headers, &key) {
            Some(i) => {
                proof {
                    lemma_pairs_map_set(old_headers, i as int, entry);
                }
                headers.set(i, entry);
            },
            None => {
                proof {
                    lemma_pairs_map_push(old_headers, entry);
                }
                headers.push(entry);
            },
        }
        RequestContext {
            headers,
            downstream_remote_address,
            downstream_local_address,
            upstream_host,
            protocol,
            method,
            path,
            route_name,
        }
    }

    /// Sets the downstream remote address (its textual form, such as `10.0.0.1:80`).
    pub fn with_downstream_remote_address(self, addr: &str) -> (r: Self)
        ensures
            r@ == (RequestContextView { downstream_remote_address: Some(addr@), ..self@ }),
    {
        proof {
            use_type_invariant(&self);
        }
        RequestContext { downstream_remote_address: Some(addr.to_owned()), ..self }
    }

    /// Sets the downstream local address (its textual form).
    pub fn with_downstream_local_address(self, addr: &str) -> (r: Self)
        ensures
            r@ == (RequestContextView { downstream_local_address: Some(addr@), ..self@ }),
    {
        proof {
            use_type_invariant(&self);
        }
        RequestContext { downstream_local_address: Some(addr.to_owned()), ..self }
    }

    /// Sets the upstream host.
    pub fn with_upstream_host(self, host: &str) -> (r: Self)
        ensures
            r@ == (RequestContextView { upstream_host: Some(host@), ..self@ }),
    {
        proof {
            use_type_invariant(&self);
        }
        RequestContext { upstream_host: Some(host.to_owned()), ..self }
    }

    /// Sets the protocol.
    pub fn with_protocol(self, protocol: &str) -> (r: Self)
        ensures
            r@ == (RequestContextView { protocol: Some(protocol@), ..self@ }),
    {
        proof {
            use_type_invariant(&self);
        }
        RequestContext { protocol: Some(protocol.to_owned()), ..self }
    }

    /// Sets the request method.
    pub fn with_method(self, method: &str) -> (r: Self)
        ensures
            r@ == (RequestContextView { method: Some(method@), ..self@ }),
    {
        proof {
            use_type_invariant(&self);
        }
        RequestContext { method: Some(method.to_owned()), ..self }
    }

    /// Sets the request path.
    pub fn with_path(self, path: &str) -> (r: Self)
        ensures
            r@ == (RequestContextView { path: Some(path@), ..self@ }),
    {
        proof {
            use_type_invariant(&self);
        }
        RequestContext { path: Some(path.to_owned()), ..self }
    }

    /// Sets the route name.
    pub fn with_route_name(self, route_name: &str) -> (r: Self)
        ensures
            r@ == (RequestContextView { route_name: Some(route_name@), ..self@ }),
    {
        proof {
            use_type_invariant(&self);
        }
        RequestContext { route_name: Some(route_name.to_owned()), ..self }
    }

    /// Gets a header value; the name is compared after lowercasing.
    pub fn get_header(&self, name: &str) -> (r: Option<&String>)
        ensures
            match r {
                Some(v) => header_lookup(self@.headers, lowercase(name@)) == Some(v@),
                None => header_lookup(self@.headers, lowercase(name@)) is None,
            },
            is_ascii_text(name@) ==> lowercase(name@) == ascii_lower(name@),
    {
        proof {
            use_type_invariant(self);
        }
        let key = to_lowercase(name);
        match find_name(&self.headers, &key) {
            Some(i) => {
                proof {
                    lemma_pairs_map_at(self.headers@, i as int);
                }
                Some(&self.headers[i].1)
            },
            None => None,
        }
    }

    /// Gets the `:authority` header, or else the `host` header.
    pub fn get_authority(&self) -> (r: Option<&String>)
        ensures
            match r {
                Some(v) => authority_of(self@) == Some(v@),
                None => authority_of(self@) is None,
            },
    {
        match self.get_header(":authority") {
            Some(v) => Some(v),
            None => self.get_header("host"),
        }
    }
}

fn clone_pairs(pairs: &Vec<(String, String)>) -> (r: Vec<(String, String)>)
    ensures
        r@.len() == pairs@.len(),
        forall|i: int| 0 <= i < pairs@.len() ==> #[trigger] r@[i].0@ == pairs@[i].0@ && r@[i].1@ == pairs@[i].1@,
{
    let mut r: Vec<(String, String)> = Vec::new();
    let mut i: usize = 0;
    while i < pairs.len()
        invariant
            i <= pairs@.len(),
            r@.len() == i,
            forall|t: int| 0 <= t < i ==> #[trigger] r@[t].0@ == pairs@[t].0@ && r@[t].1@ == pairs@[t].1@,
        decreases pairs@.len() - i,
    {
        let p = &pairs[i];
        r.push((p.0.clone(), p.1.clone()));
        i += 1;
    }
    r
}

fn clone_opt(o: &Option<String>) -> (r: Option<String>)
    ensures
        opt_chars(r) == opt_chars(*o),
{
    match o {
        Some(s) => Some(s.clone()),
        None => None,
    }
}

impl Clone for RequestContext {
    fn clone(&self) -> (r: Self)
        ensures
            r@ == self@,
    {
        proof {
            use_type_invariant(self);
        }
        let headers = clone_pairs(&self.headers);
        proof {
            assert(distinct_names(headers@)) by {
                assert forall|a: int, b: int|
                    0 <= a < headers@.len() && 0 <= b < headers@.len() && a != b implies #[trigger] headers@[a].0@
                    != #[trigger] headers@[b].0@ by {
                    assert(self.headers@[a].0@ != self.headers@[b].0@);
                }
            }
            assert forall|k: Seq<char>| #[trigger] pairs_map(headers@).contains_key(k) <==> pairs_map(self.headers@).contains_key(k) by {
                if pairs_map(headers@).contains_key(k) {
                    let j = choose|j: int| 0 <= j < headers@.len() && #[trigger] headers@[j].0@ == k;
                    assert(self.headers@[j].0@ == k);
                }
                if pairs_map(self.headers@).contains_key(k) {
                    let j = choose|j: int| 0 <= j < self.headers@.len() && #[trigger] self.headers@[j].0@ == k;
                    assert(headers@[j].0@ == k);
                }
            }
            assert forall|k: Seq<char>| #[trigger] pairs_map(headers@).contains_key(k) implies pairs_map(headers@)[k] == pairs_map(self.headers@)[k] by {
                let j = choose|j: int| 0 <= j < headers@.len() && #[trigger] headers@[j].0@ == k;
                lemma_pairs_map_at(headers@, j);
                lemma_pairs_map_at(self.headers@, j);
            }
            assert(pairs_map(headers@) =~= pairs_map(self.headers@));
        }
        RequestContext {
            headers,
            downstream_remote_address: clone_opt(&self.downstream_remote_address),
            downstream_local_address: clone_opt(&self.downstream_local_address),
            upstream_host: clone_opt(&self.upstream_host),
            protocol: clone_opt(&self.protocol),
            method: clone_opt(&self.method),
            path: clone_opt(&self.path),
            route_name: clone_opt(&self.route_name),
        }
    }
}

impl Default for RequestContext {
    fn default() -> (r: Self)
        ensures
            r@.headers == Map::<Seq<char>, Seq<char>>::empty(),
            r@.downstream_remote_address is None,
            r@.downstream_local_address is None,
            r@.upstream_host is None,
            r@.protocol is None,
            r@.method is None,
            r@.path is None,
            r@.route_name is None,
    {
        Self::new()
    }
}


// ---------------------------------------------------------------------------
// Evaluation

/// `%`
pub open spec fn is_percent(b: u8) -> bool { b == 37 }

/// An uppercase ASCII letter or `_`: a byte of a command operator's name.
pub open spec fn is_command_byte(b: u8) -> bool {
    (65 <= b && b <= 90) || b == 95
}

/// An ASCII decimal digit.
pub open spec fn is_digit_byte(b: u8) -> bool {
    48 <= b && b <= 57
}

/// The end of the run of command bytes that starts at `j`.
pub open spec fn command_end(s: Seq<u8>, j: int) -> int
    decreases s.len() - j,
{
    if 0 <= j < s.len() && is_command_byte(s[j]) {
        command_end(s, j + 1)
    } else {
        j
    }
}

/// The position of the first `)` at or after `j` (or the end of `s`).
pub open spec fn paren_close(s: Seq<u8>, j: int) -> int
    decreases s.len() - j,
{
    if 0 <= j < s.len() && s[j] != 41 {
        paren_close(s, j + 1)
    } else {
        j
    }
}

/// The end of the run of digits that starts at `j`.
pub open spec fn digits_end(s: Seq<u8>, j: int) -> int
    decreases s.len() - j,
{
    if 0 <= j < s.len() && is_digit_byte(s[j]) {
        digits_end(s, j + 1)
    } else {
        j
    }
}

/// The end of the literal text that starts at `j`: the next `%`, or the
/// end of `s`.
pub open spec fn literal_end(s: Seq<u8>, j: int) -> int
    decreases s.len() - j,
{
    if 0 <= j < s.len() && !is_percent(s[j]) {
        literal_end(s, j + 1)
    } else {
        j
    }
}

/// The decimal number that a run of digits denotes.
pub open spec fn digits_value(d: Seq<u8>) -> int
    decreases d.len(),
{
    if d.len() == 0 {
        0
    } else {
        digits_value(d.drop_last()) * 10 + (d.last() - 48)
    }
}

/// A run of digits read as a `usize`: none when the number does not fit.
pub open spec fn parse_usize(d: Seq<u8>) -> Option<usize> {
    if digits_value(d) <= usize::MAX {
        Some(digits_value(d) as usize)
    } else {
        None
    }
}

/// A command operator as it was read: the positions of its name, of its
/// argument between parentheses, its maximum length, and the position just
/// after its closing `%`.
pub struct Directive {
    pub name_start: int,
    pub name_end: int,
    pub arg: Option<(int, int)>,
    pub max_len: Option<usize>,
    pub next: int,
}

/// The optional `(argument)` after a name ending at `e`: `None` when a `(`
/// is never closed, else the argument's range and the position after it.
pub open spec fn arg_part(s: Seq<u8>, e: int) -> Option<(Option<(int, int)>, int)> {
    if 0 <= e < s.len() && s[e] == 40 {
        let c = paren_close(s, e + 1);
        if c >= s.len() {
            None
        } else {
            Some((Some((e + 1, c)), c + 1))
        }
    } else {
        Some((None, e))
    }
}

/// The optional `:length` at `j`: `None` when `:` has no digits after it,
/// else the parsed length and the position after the digits.
pub open spec fn length_part(s: Seq<u8>, j: int) -> Option<(Option<usize>, int)> {
    if 0 <= j < s.len() && s[j] == 58 {
        let d = digits_end(s, j + 1);
        if d == j + 1 {
            None
        } else {
            Some((parse_usize(s.subrange(j + 1, d)), d))
        }
    } else {
        Some((None, j))
    }
}

/// Reads the command operator whose `%` is at `i`; `None` when the text there
/// is not a well-formed operator.
pub open spec fn parse_directive(s: Seq<u8>, i: int) -> Option<Directive> {
    let e = command_end(s, i + 1);
    if e == i + 1 {
        None
    } else {
        match arg_part(s, e) {
            None => None,
            Some((arg, j)) => match length_part(s, j) {
                None => None,
                Some((max_len, k)) => if 0 <= k < s.len() && is_percent(s[k]) {
                    Some(Directive { name_start: i + 1, name_end: e, arg, max_len, next: k + 1 })
                } else {
                    None
                },
            },
        }
    }
}

/// The command operators that have a meaning.
pub enum Command {
    Req,
    DownstreamRemoteAddress,
    DownstreamLocalAddress,
    UpstreamHost,
    Protocol,
    ReqMethod,
    ReqPath,
    ReqAuthority,
    RouteName,
    Unknown,
}

/// `REQ`
pub open spec fn name_req() -> Seq<u8> { seq![82u8, 69u8, 81u8] }
/// `DOWNSTREAM_REMOTE_ADDRESS`
pub open spec fn name_downstream_remote_address() -> Seq<u8> {
    seq![68u8, 79u8, 87u8, 78u8, 83u8, 84u8, 82u8, 69u8, 65u8, 77u8, 95u8, 82u8, 69u8, 77u8, 79u8, 84u8, 69u8, 95u8, 65u8, 68u8, 68u8, 82u8, 69u8, 83u8, 83u8]
}
/// `DOWNSTREAM_LOCAL_ADDRESS`
pub open spec fn name_downstream_local_address() -> Seq<u8> {
    seq![68u8, 79u8, 87u8, 78u8, 83u8, 84u8, 82u8, 69u8, 65u8, 77u8, 95u8, 76u8, 79u8, 67u8, 65u8, 76u8, 95u8, 65u8, 68u8, 68u8, 82u8, 69u8, 83u8, 83u8]
}
/// `UPSTREAM_HOST`
pub open spec fn name_upstream_host() -> Seq<u8> {
    seq![85u8, 80u8, 83u8, 84u8, 82u8, 69u8, 65u8, 77u8, 95u8, 72u8, 79u8, 83u8, 84u8]
}
/// `PROTOCOL`
pub open spec fn name_protocol() -> Seq<u8> { seq![80u8, 82u8, 79u8, 84u8, 79u8, 67u8, 79u8, 76u8] }
/// `REQ_METHOD`
pub open spec fn name_req_method() -> Seq<u8> { seq![82u8, 69u8, 81u8, 95u8, 77u8, 69u8, 84u8, 72u8, 79u8, 68u8] }
/// `REQ_PATH`
pub open spec fn name_req_path() -> Seq<u8> { seq![82u8, 69u8, 81u8, 95u8, 80u8, 65u8, 84u8, 72u8] }
/// `REQ_AUTHORITY`
pub open spec fn name_req_authority() -> Seq<u8> {
    seq![82u8, 69u8, 81u8, 95u8, 65u8, 85u8, 84u8, 72u8, 79u8, 82u8, 73u8, 84u8, 89u8]
}
/// `ROUTE_NAME`
pub open spec fn name_route_name() -> Seq<u8> { seq![82u8, 79u8, 85u8, 84u8, 69u8, 95u8, 78u8, 65u8, 77u8, 69u8] }

/// The command that an operator name denotes.
pub open spec fn command_of(name: Seq<u8>) -> Command {
    if name == name_req() {
        Command::Req
    } else if name == name_downstream_remote_address() {
        Command::DownstreamRemoteAddress
    } else if name == name_downstream_local_address() {
        Command::DownstreamLocalAddress
    } else if name == name_upstream_host() {
        Command::UpstreamHost
    } else if name == name_protocol() {
        Command::Protocol
    } else if name == name_req_method() {
        Command::ReqMethod
    } else if name == name_req_path() {
        Command::ReqPath
    } else if name == name_req_authority() {
        Command::ReqAuthority
    } else if name == name_route_name() {
        Command::RouteName
    } else {
        Command::Unknown
    }
}

/// `-`, the rendering of a missing value.
pub open spec fn dash() -> Seq<char> { seq!['-'] }

/// A value, or `-` when it is missing.
pub open spec fn or_dash(v: Option<Seq<char>>) -> Seq<char> {
    match v {
        Some(s) => s,
        None => dash(),
    }
}

/// Bytes taken one by one as characters (each byte is its own character).
pub open spec fn bytes_as_chars(b: Seq<u8>) -> Seq<char> {
    Seq::new(b.len(), |k: int| b[k] as char)
}

/// The value a command operator stands for in a context.
pub open spec fn command_value(name: Seq<u8>, arg: Option<Seq<u8>>, ctx: RequestContextView) -> Seq<char> {
    match command_of(name) {
        Command::Req => match arg {
            Some(a) => if valid_utf8(a) {
                or_dash(header_lookup(ctx.headers, lowercase(decode_utf8(a))))
            } else {
                dash()
            },
            None => dash(),
        },
        Command::DownstreamRemoteAddress => or_dash(ctx.downstream_remote_address),
        Command::DownstreamLocalAddress => or_dash(ctx.downstream_local_address),
        Command::UpstreamHost => or_dash(ctx.upstream_host),
        Command::Protocol => or_dash(ctx.protocol),
        Command::ReqMethod => or_dash(ctx.method),
        Command::ReqPath => or_dash(ctx.path),
        Command::ReqAuthority => or_dash(authority_of(ctx)),
        Command::RouteName => or_dash(ctx.route_name),
        Command::Unknown => seq!['%'] + bytes_as_chars(name) + seq!['%'],
    }
}

/// A value cut to at most `max_len` characters.
pub open spec fn truncate(v: Seq<char>, max_len: Option<usize>) -> Seq<char> {
    match max_len {
        Some(n) => if v.len() > n {
            v.take(n as int)
        } else {
            v
        },
        None => v,
    }
}

/// The bytes of an operator's argument, if it has one.
pub open spec fn arg_bytes(s: Seq<u8>, arg: Option<(int, int)>) -> Option<Seq<u8>> {
    match arg {
        Some((a, b)) => Some(s.subrange(a, b)),
        None => None,
    }
}

pub proof fn lemma_scans_advance(s: Seq<u8>, j: int)
    requires
        0 <= j <= s.len(),
    ensures
        j <= command_end(s, j) <= s.len(),
        j <= paren_close(s, j) <= s.len(),
        j <= digits_end(s, j) <= s.len(),
        j <= literal_end(s, j) <= s.len(),
        j < s.len() && !is_percent(s[j]) ==> j < literal_end(s, j),
        literal_end(s, j) < s.len() ==> is_percent(s[literal_end(s, j)]),
    decreases s.len() - j,
{
    if j < s.len() {
        lemma_scans_advance(s, j + 1);
    }
}

pub proof fn lemma_directive_advances(s: Seq<u8>, i: int)
    requires
        0 <= i < s.len(),
        parse_directive(s, i) is Some,
    ensures
        ({
            let d = parse_directive(s, i)->0;
            &&& i < d.name_start <= d.name_end < d.next <= s.len()
            &&& (d.arg matches Some((a, b)) ==> d.name_end < a <= b < d.next)
            &&& is_percent(s[d.next - 1])
        }),
{
    lemma_scans_advance(s, i + 1);
    let e = command_end(s, i + 1);
    if 0 <= e < s.len() && s[e] == 40 {
        lemma_scans_advance(s, e + 1);
    }
    let (arg, j) = arg_part(s, e)->0;
    if 0 <= j < s.len() && s[j] == 58 {
        lemma_scans_advance(s, j + 1);
    }
}

/// The text that a format string evaluates to, from byte `i` onwards.
pub open spec fn evaluate_from(s: Seq<u8>, i: int, ctx: RequestContextView) -> Seq<char>
    decreases s.len() - i,
{
    if i < 0 || i >= s.len() {
        Seq::empty()
    } else if !is_percent(s[i]) {
        proof {
            lemma_scans_advance(s, i);
        }
        decode_utf8(s.subrange(i, literal_end(s, i))) + evaluate_from(s, literal_end(s, i), ctx)
    } else {
        match parse_directive(s, i) {
            Some(d) => {
                proof {
                    lemma_directive_advances(s, i);
                }
                truncate(command_value(s.subrange(d.name_start, d.name_end), arg_bytes(s, d.arg), ctx), d.max_len)
                    + evaluate_from(s, d.next, ctx)
            },
            None => seq!['%'] + evaluate_from(s, i + 1, ctx),
        }
    }
}

/// The text that a format string (given by its UTF-8 bytes) evaluates to.
/// Each run of literal text, up to the next `%`, is copied as the text it
/// encodes; each well-formed operator is replaced by its value, cut to its
/// maximum length; a `%` that starts no operator is copied.
pub open spec fn spec_evaluate(format: Seq<u8>, ctx: RequestContextView) -> Seq<char> {
    evaluate_from(format, 0, ctx)
}

/// Format string evaluator that substitutes command operators with values.
#[derive(Debug, Clone)]
pub struct FormatStringEvaluator {}

impl FormatStringEvaluator {
    /// Creates a new format string evaluator.
    pub fn new() -> (r: Self)
        ensures
            r == (FormatStringEvaluator {}),
    {
        FormatStringEvaluator {}
    }
}

impl Default for FormatStringEvaluator {
    fn default() -> (r: Self)
        ensures
            r == (FormatStringEvaluator {}),
    {
        Self::new()
    }
}

fn scan_command(s: &[u8], j: usize) -> (e: usize)
    requires
        j <= s@.len(),
    ensures
        e == command_end(s@, j as int),
        j <= e <= s@.len(),
{
    let mut e = j;
    while e < s.len() && ((65 <= s[e] && s[e] <= 90) || s[e] == 95)
        invariant
            j <= e <= s@.len(),
            command_end(s@, e as int) == command_end(s@, j as int),
        decreases s@.len() - e,
    {
        e += 1;
    }
    e
}

fn scan_paren(s: &[u8], j: usize) -> (e: usize)
    requires
        j <= s@.len(),
    ensures
        e == paren_close(s@, j as int),
        j <= e <= s@.len(),
{
    let mut e = j;
    while e < s.len() && s[e] != 41
        invariant
            j <= e <= s@.len(),
            paren_close(s@, e as int) == paren_close(s@, j as int),
        decreases s@.len() - e,
    {
        e += 1;
    }
    e
}

fn scan_digits(s: &[u8], j: usize) -> (e: usize)
    requires
        j <= s@.len(),
    ensures
        e == digits_end(s@, j as int),
        j <= e <= s@.len(),
        forall|t: int| j <= t < e ==> is_digit_byte(#[trigger] s@[t]),
{
    let mut e = j;
    while e < s.len() && 48 <= s[e] && s[e] <= 57
        invariant
            j <= e <= s@.len(),
            digits_end(s@, e as int) == digits_end(s@, j as int),
            forall|t: int| j <= t < e ==> is_digit_byte(#[trigger] s@[t]),
        decreases s@.len() - e,
    {
        e += 1;
    }
    e
}

proof fn lemma_digits_value_nonneg(d: Seq<u8>)
    requires
        forall|t: int| 0 <= t < d.len() ==> is_digit_byte(#[trigger] d[t]),
    ensures
        digits_value(d) >= 0,
    decreases d.len(),
{
    if d.len() > 0 {
        assert(is_digit_byte(d[d.len() - 1]));
        lemma_digits_value_nonneg(d.drop_last());
    }
}

/// Reads a run of digits as a `usize`, as `str::parse::<usize>` does on such text.
fn parse_digits(s: &[u8], a: usize, b: usize) -> (r: Option<usize>)
    requires
        a <= b <= s@.len(),
        forall|t: int| a <= t < b ==> is_digit_byte(#[trigger] s@[t]),
    ensures
        r == parse_usize(s@.subrange(a as int, b as int)),
{
    let mut acc: Option<usize> = Some(0);
    let mut k = a;
    assert(s@.subrange(a as int, a as int) =~= Seq::<u8>::empty());
    while k < b
        invariant
            a <= k <= b <= s@.len(),
            forall|t: int| a <= t < b ==> is_digit_byte(#[trigger] s@[t]),
            acc == parse_usize(s@.subrange(a as int, k as int)),
        decreases b - k,
    {
        let ghost prev = s@.subrange(a as int, k as int);
        let ghost next = s@.subrange(a as int, k + 1);
        assert(next.drop_last() =~= prev);
        assert(is_digit_byte(s@[k as int]));
        proof {
            lemma_digits_value_nonneg(prev);
        }
        let digit = (s[k] - 48) as usize;
        acc = match acc {
            Some(v) => match v.checked_mul(10) {
                Some(m) => m.checked_add(digit),
                None => None,
            },
            None => None,
        };
        k += 1;
    }
    acc
}

/// A command operator as read from the format bytes.
struct ParsedDirective {
    name_start: usize,
    name_end: usize,
    arg: Option<(usize, usize)>,
    max_len: Option<usize>,
    next: usize,
}

spec fn directive_view(d: ParsedDirective) -> Directive {
    Directive {
        name_start: d.name_start as int,
        name_end: d.name_end as int,
        arg: match d.arg {
            Some((a, b)) => Some((a as int, b as int)),
            None => None,
        },
        max_len: d.max_len,
        next: d.next as int,
    }
}

fn read_directive(s: &[u8], i: usize) -> (r: Option<ParsedDirective>)
    requires
        i < s@.len(),
    ensures
        match r {
            Some(d) => parse_directive(s@, i as int) == Some(directive_view(d)),
            None => parse_directive(s@, i as int) is None,
        },
{
    let n = s.len();
    assert(i < n);
    let e = scan_command(s, i + 1);
    if e == i + 1 {
        return None;
    }
    let mut j = e;
    let mut arg: Option<(usize, usize)> = None;
    if e < s.len() && s[e] == 40 {
        let c = scan_paren(s, e + 1);
        if c >= s.len() {
            return None;
        }
        arg = Some((e + 1, c));
        j = c + 1;
    }
    assert(arg_part(s@, e as int) == Some((
        match arg {
            Some((a, b)) => Some((a as int, b as int)),
            None => None,
        },
        j as int,
    )));
    let mut max_len: Option<usize> = None;
    let mut k = j;
    if j < s.len() && s[j] == 58 {
        let dd = scan_digits(s, j + 1);
        if dd == j + 1 {
            return None;
        }
        max_len = parse_digits(s, j + 1, dd);
        k = dd;
    }
    assert(length_part(s@, j as int) == Some((max_len, k as int)));
    if k < s.len() && s[k] == 37 {
        Some(ParsedDirective { name_start: i + 1, name_end: e, arg, max_len, next: k + 1 })
    } else {
        None
    }
}

/// Whether `s[a..b]` holds exactly the bytes of `lit`.
fn range_eq(s: &[u8], a: usize, b: usize, lit: &[u8]) -> (r: bool)
    requires
        a <= b <= s@.len(),
    ensures
        r == (s@.subrange(a as int, b as int) == lit@),
{
    if b - a != lit.len() {
        return false;
    }
    let mut k: usize = 0;
    while k < lit.len()
        invariant
            a <= b <= s@.len(),
            b - a == lit@.len(),
            k <= lit@.len(),
            forall|t: int| 0 <= t < k ==> s@[a + t] == lit@[t],
        decreases lit@.len() - k,
    {
        if s[a + k] != lit[k] {
            assert(s@.subrange(a as int, b as int)[k as int] != lit@[k as int]);
            return false;
        }
        k += 1;
    }
    assert(s@.subrange(a as int, b as int) =~= lit@);
    true
}

fn command_at(s: &[u8], a: usize, b: usize) -> (c: Command)
    requires
        a <= b <= s@.len(),
    ensures
        c == command_of(s@.subrange(a as int, b as int)),
{
    let req: [u8; 3] = [82u8, 69u8, 81u8];
    assert(req@ =~= name_req());
    if range_eq(s, a, b, &req) {
        return Command::Req;
    }
    let dra: [u8; 25] = [68u8, 79u8, 87u8, 78u8, 83u8, 84u8, 82u8, 69u8, 65u8, 77u8, 95u8, 82u8, 69u8, 77u8, 79u8, 84u8, 69u8, 95u8, 65u8, 68u8, 68u8, 82u8, 69u8, 83u8, 83u8];
    assert(dra@ =~= name_downstream_remote_address());
    if range_eq(s, a, b, &dra) {
        return Command::DownstreamRemoteAddress;
    }
    let dla: [u8; 24] = [68u8, 79u8, 87u8, 78u8, 83u8, 84u8, 82u8, 69u8, 65u8, 77u8, 95u8, 76u8, 79u8, 67u8, 65u8, 76u8, 95u8, 65u8, 68u8, 68u8, 82u8, 69u8, 83u8, 83u8];
    assert(dla@ =~= name_downstream_local_address());
    if range_eq(s, a, b, &dla) {
        return Command::DownstreamLocalAddress;
    }
    let uh: [u8; 13] = [85u8, 80u8, 83u8, 84u8, 82u8, 69u8, 65u8, 77u8, 95u8, 72u8, 79u8, 83u8, 84u8];
    assert(uh@ =~= name_upstream_host());
    if range_eq(s, a, b, &uh) {
        return Command::UpstreamHost;
    }
    let pr: [u8; 8] = [80u8, 82u8, 79u8, 84u8, 79u8, 67u8, 79u8, 76u8];
    assert(pr@ =~= name_protocol());
    if range_eq(s, a, b, &pr) {
        return Command::Protocol;
    }
    let rm: [u8; 10] = [82u8, 69u8, 81u8, 95u8, 77u8, 69u8, 84u8, 72u8, 79u8, 68u8];
    assert(rm@ =~= name_req_method());
    if range_eq(s, a, b, &rm) {
        return Command::ReqMethod;
    }
    let rp: [u8; 8] = [82u8, 69u8, 81u8, 95u8, 80u8, 65u8, 84u8, 72u8];
    assert(rp@ =~= name_req_path());
    if range_eq(s, a, b, &rp) {
        return Command::ReqPath;
    }
    let ra: [u8; 13] = [82u8, 69u8, 81u8, 95u8, 65u8, 85u8, 84u8, 72u8, 79u8, 82u8, 73u8, 84u8, 89u8];
    assert(ra@ =~= name_req_authority());
    if range_eq(s, a, b, &ra) {
        return Command::ReqAuthority;
    }
    let rn: [u8; 10] = [82u8, 79u8, 85u8, 84u8, 69u8, 95u8, 78u8, 65u8, 77u8, 69u8];
    assert(rn@ =~= name_route_name());
    if range_eq(s, a, b, &rn) {
        return Command::RouteName;
    }
    Command::Unknown
}

fn dash_string() -> (r: String)
    ensures
        r@ == dash(),
{
    let mut r = String::new();
    push_char(&mut r, '-');
    r
}

fn value_or_dash(o: &Option<String>) -> (r: String)
    ensures
        r@ == or_dash(opt_chars(*o)),
{
    match o {
        Some(v) => v.clone(),
        None => dash_string(),
    }
}

fn ref_or_dash(o: Option<&String>) -> (r: String)
    ensures
        r@ == or_dash(
            match o {
                Some(v) => Some(v@),
                None => None,
            },
        ),
{
    match o {
        Some(v) => v.clone(),
        None => dash_string(),
    }
}

fn copy_range(s: &[u8], a: usize, b: usize) -> (r: Vec<u8>)
    requires
        a <= b <= s@.len(),
    ensures
        r@ == s@.subrange(a as int, b as int),
{
    let mut r: Vec<u8> = Vec::new();
    let mut k = a;
    while k < b
        invariant
            a <= k <= b <= s@.len(),
            r@ == s@.subrange(a as int, k as int),
        decreases b - k,
    {
        r.push(s[k]);
        k += 1;
        assert(r@ =~= s@.subrange(a as int, k as int));
    }
    r
}

/// Appends characters to a string.
fn push_chars(out: &mut String, v: &Vec<char>, n: usize)
    requires
        n <= v@.len(),
    ensures
        final(out)@ == old(out)@ + v@.take(n as int),
{
    let mut k: usize = 0;
    while k < n
        invariant
            k <= n <= v@.len(),
            out@ == old(out)@ + v@.take(k as int),
        decreases n - k,
    {
        push_char(out, v[k]);
        k += 1;
        assert(out@ =~= old(out)@ + v@.take(k as int));
    }
}

impl FormatStringEvaluator {
    /// Evaluates a single command operator.
    fn evaluate_command(&self, s: &[u8], d: &ParsedDirective, ctx: &RequestContext) -> (v: String)
        requires
            d.name_start <= d.name_end <= s@.len(),
            d.arg matches Some((a, b)) ==> a <= b <= s@.len(),
        ensures
            v@ == command_value(
                s@.subrange(d.name_start as int, d.name_end as int),
                arg_bytes(s@, directive_view(*d).arg),
                ctx@,
            ),
    {
        match command_at(s, d.name_start, d.name_end) {
            Command::Req => match d.arg {
                Some((a, b)) => match utf8_to_string(copy_range(s, a, b)) {
                    Some(name) => ref_or_dash(ctx.get_header(name.as_str())),
                    None => dash_string(),
                },
                None => dash_string(),
            },
            Command::DownstreamRemoteAddress => value_or_dash(&ctx.downstream_remote_address),
            Command::DownstreamLocalAddress => value_or_dash(&ctx.downstream_local_address),
            Command::UpstreamHost => value_or_dash(&ctx.upstream_host),
            Command::Protocol => value_or_dash(&ctx.protocol),
            Command::ReqMethod => value_or_dash(&ctx.method),
            Command::ReqPath => value_or_dash(&ctx.path),
            Command::ReqAuthority => ref_or_dash(ctx.get_authority()),
            Command::RouteName => value_or_dash(&ctx.route_name),
            Command::Unknown => {
                let mut r = String::new();
                push_char(&mut r, '%');
                let mut k = d.name_start;
                while k < d.name_end
                    invariant
                        d.name_start <= k <= d.name_end <= s@.len(),
                        r@ == seq!['%'] + bytes_as_chars(s@.subrange(d.name_start as int, k as int)),
                    decreases d.name_end - k,
                {
                    push_char(&mut r, s[k] as char);
                    k += 1;
                    assert(r@ =~= seq!['%'] + bytes_as_chars(s@.subrange(d.name_start as int, k as int)));
                }
                push_char(&mut r, '%');
                r
            },
        }
    }

    /// Appends a value cut to at most `max_len` characters.
    fn apply_max_length(&self, out: &mut String, value: &String, max_len: Option<usize>)
        ensures
            final(out)@ == old(out)@ + truncate(value@, max_len),
    {
        let chars = chars_of(value.as_str());
        let n = match max_len {
            Some(m) => if chars.len() > m {
                m
            } else {
                chars.len()
            },
            None => chars.len(),
        };
        push_chars(out, &chars, n);
        assert(chars@.take(chars@.len() as int) =~= chars@);
    }

    /// Evaluates a format string with the given request context: literal text
    /// is copied, each command operator is replaced by its value.
    pub fn evaluate(&self, format: &str, ctx: &RequestContext) -> (out: String)
        ensures
            out@ == spec_evaluate(format.spec_bytes(), ctx@),
    {
        let s = format.as_bytes();
        proof {
            vstd::utf8::encode_utf8_valid_utf8(format@);
            assert(s@.subrange(0, s@.len() as int) =~= s@);
        }
        let mut out = String::new();
        let mut i: usize = 0;
        while i < s.len()
            invariant
                i <= s@.len(),
                valid_utf8(s@.subrange(i as int, s@.len() as int)),
                out@ + evaluate_from(s@, i as int, ctx@) == evaluate_from(s@, 0, ctx@),
            decreases s@.len() - i,
        {
            let ghost before = out@;
            let b = s[i];
            if b != 37 {
                let j = literal_end_of(s, i);
                proof {
                    lemma_scans_advance(s@, i as int);
                    if j < s.len() {
                        lemma_split_at_ascii(s@, i as int, j as int);
                    } else {
                        assert(s@.subrange(i as int, j as int) =~= s@.subrange(i as int, s@.len() as int));
                        assert(valid_utf8(s@.subrange(j as int, s@.len() as int))) by {
                            assert(s@.subrange(j as int, s@.len() as int).len() == 0);
                        }
                    }
                }
                match utf8_to_string(copy_range(s, i, j)) {
                    Some(text) => {
                        let chars = chars_of(text.as_str());
                        push_chars(&mut out, &chars, chars.len());
                        assert(chars@.take(chars@.len() as int) =~= chars@);
                    },
                    None => {
                        assert(false);
                    },
                }
                assert(out@ + evaluate_from(s@, j as int, ctx@) =~= before + evaluate_from(s@, i as int, ctx@));
                i = j;
            } else {
                match read_directive(s, i) {
                    Some(d) => {
                        proof {
                            lemma_directive_advances(s@, i as int);
                            lemma_split_at_ascii(s@, i as int, d.next - 1);
                        }
                        let value = self.evaluate_command(s, &d, ctx);
                        self.apply_max_length(&mut out, &value, d.max_len);
                        assert(out@ + evaluate_from(s@, d.next as int, ctx@) =~= before + evaluate_from(
                            s@,
                            i as int,
                            ctx@,
                        ));
                        i = d.next;
                    },
                    None => {
                        proof {
                            lemma_split_at_ascii(s@, i as int, i as int);
                        }
                        push_char(&mut out, '%');
                        assert(out@ + evaluate_from(s@, i + 1, ctx@) =~= before + evaluate_from(
                            s@,
                            i as int,
                            ctx@,
                        ));
                        i += 1;
                    },
                }
            }
        }
        assert(evaluate_from(s@, i as int, ctx@) =~= Seq::<char>::empty());
        assert(out@ =~= evaluate_from(s@, 0, ctx@));
        out
    }
}

/// Where literal text ends: at the next `%` from `i`, or at the end.
fn literal_end_of(s: &[u8], i: usize) -> (j: usize)
    requires
        i <= s@.len(),
    ensures
        j as int == literal_end(s@, i as int),
{
    let mut j = i;
    while j < s.len() && s[j] != 37
        invariant
            i <= j <= s@.len(),
            literal_end(s@, i as int) == literal_end(s@, j as int),
        decreases s@.len() - j,
    {
        j += 1;
    }
    j
}

/// In well-formed UTF-8 that starts at `i`, an ASCII byte at `k` splits the
/// text: what comes before it, and what comes from it and after it, are
/// well-formed too.
proof fn lemma_split_at_ascii(s: Seq<u8>, i: int, k: int)
    requires
        0 <= i <= k < s.len(),
        valid_utf8(s.subrange(i, s.len() as int)),
        s[k] < 128,
    ensures
        valid_utf8(s.subrange(i, k)),
        valid_utf8(s.subrange(k, s.len() as int)),
        valid_utf8(s.subrange(k + 1, s.len() as int)),
{
    let t = s.subrange(i, s.len() as int);
    assert(t[k - i] == s[k]);
    vstd::utf8::is_char_boundary_iff_not_is_continuation_byte(t, k - i);
    vstd::utf8::valid_utf8_split(t, k - i);
    assert(t.subrange(0, k - i) =~= s.subrange(i, k));
    let u = t.subrange(k - i, t.len() as int);
    assert(u =~= s.subrange(k, s.len() as int));
    assert(u[0] == s[k]);
    assert(vstd::utf8::pop_first_scalar(u) =~= s.subrange(k + 1, s.len() as int));
}

/// No byte of the UTF-8 encoding of a character other than `%` is a `%`.
proof fn lemma_scalar_has_no_percent(v: u32)
    requires
        vstd::utf8::is_scalar(v),
        v != 37,
    ensures
        forall|k: int| 0 <= k < vstd::utf8::encode_scalar(v).len() ==> !is_percent(#[trigger] vstd::utf8::encode_scalar(v)[k]),
{
    let e = vstd::utf8::encode_scalar(v);
    if vstd::utf8::has_width_1_encoding(v) {
        assert(v <= 0x7f ==> (v & 0x7f) == v) by (bit_vector);
        assert(e[0] == v);
    } else {
        assert(forall|x: u8| #[trigger] (0xC0u8 | x) >= 0xC0) by (bit_vector);
        assert(forall|x: u8| #[trigger] (0xE0u8 | x) >= 0xE0) by (bit_vector);
        assert(forall|x: u8| #[trigger] (0xF0u8 | x) >= 0xF0) by (bit_vector);
        assert(forall|x: u8| #[trigger] (0x80u8 | x) >= 0x80) by (bit_vector);
    }
}

/// The UTF-8 encoding of text without `%` holds no `%` byte.
proof fn lemma_text_has_no_percent(text: Seq<char>)
    requires
        forall|i: int| 0 <= i < text.len() ==> #[trigger] text[i] != '%',
    ensures
        forall|k: int| 0 <= k < vstd::utf8::encode_utf8(text).len() ==> !is_percent(#[trigger] vstd::utf8::encode_utf8(text)[k]),
    decreases text.len(),
{
    if text.len() > 0 {
        let c = text[0];
        vstd::utf8::char_is_scalar(c);
        if (c as u32) == 37 {
            vstd::utf8::char_u32_cast(c, 37u32);
            assert(false);
        }
        lemma_scalar_has_no_percent(c as u32);
        let rest = text.drop_first();
        assert forall|i: int| 0 <= i < rest.len() implies #[trigger] rest[i] != '%' by {
            assert(rest[i] == text[i + 1]);
        }
        lemma_text_has_no_percent(rest);
        let e = vstd::utf8::encode_scalar(c as u32);
        let all = vstd::utf8::encode_utf8(text);
        assert(all == e + vstd::utf8::encode_utf8(rest));
        assert forall|k: int| 0 <= k < all.len() implies !is_percent(#[trigger] all[k]) by {
            if k < e.len() {
                assert(all[k] == e[k]);
            } else {
                assert(all[k] == vstd::utf8::encode_utf8(rest)[k - e.len()]);
            }
        }
    }
}

/// Text without a `%` evaluates to itself, whatever the request.
pub proof fn law_text_without_operators_is_kept(text: Seq<char>, ctx: RequestContextView)
    requires
        forall|i: int| 0 <= i < text.len() ==> #[trigger] text[i] != '%',
    ensures
        spec_evaluate(vstd::utf8::encode_utf8(text), ctx) == text,
{
    let s = vstd::utf8::encode_utf8(text);
    lemma_text_has_no_percent(text);
    vstd::utf8::encode_utf8_decode_utf8(text);
    if s.len() > 0 {
        lemma_literal_runs_to_end(s, 0);
        assert(s.subrange(0, s.len() as int) =~= s);
        assert(evaluate_from(s, s.len() as int, ctx) =~= Seq::<char>::empty());
        assert(spec_evaluate(s, ctx) =~= decode_utf8(s));
    } else {
        assert(text.len() == 0) by {
            if text.len() > 0 {
                vstd::utf8::char_is_scalar(text[0]);
                assert(vstd::utf8::encode_scalar(text[0] as u32).len() > 0);
            }
        }
    }
}

proof fn lemma_literal_runs_to_end(s: Seq<u8>, j: int)
    requires
        0 <= j <= s.len(),
        forall|k: int| 0 <= k < s.len() ==> !is_percent(#[trigger] s[k]),
    ensures
        literal_end(s, j) == s.len(),
    decreases s.len() - j,
{
    if j < s.len() {
        lemma_literal_runs_to_end(s, j + 1);
    }
}

/// The decimal digits of a number, as ASCII bytes, without leading zeros.
pub open spec fn decimal_bytes(n: nat) -> Seq<u8>
    decreases n,
{
    if n < 10 {
        seq![(n + 48) as u8]
    } else {
        decimal_bytes(n / 10).push(((n % 10) + 48) as u8)
    }
}

proof fn lemma_decimal_bytes(n: nat)
    ensures
        decimal_bytes(n).len() > 0,
        forall|k: int| 0 <= k < decimal_bytes(n).len() ==> is_digit_byte(#[trigger] decimal_bytes(n)[k]),
        digits_value(decimal_bytes(n)) == n,
    decreases n,
{
    if n >= 10 {
        lemma_decimal_bytes(n / 10);
        let d = decimal_bytes(n);
        assert(d.drop_last() =~= decimal_bytes(n / 10));
        assert(n == (n / 10) * 10 + n % 10) by (nonlinear_arith);
        assert(n % 10 < 10);
        assert(d.last() == ((n % 10) + 48) as u8);
        assert(d.last() == (n % 10) + 48);
        assert(digits_value(d) == digits_value(d.drop_last()) * 10 + (d.last() - 48));
        assert forall|k: int| 0 <= k < d.len() implies is_digit_byte(#[trigger] d[k]) by {
            if k < d.len() - 1 {
                assert(d[k] == decimal_bytes(n / 10)[k]);
            }
        }
    } else {
        let d = decimal_bytes(n);
        assert(d.drop_last() =~= Seq::<u8>::empty());
        assert(d.last() == n + 48);
        assert(digits_value(d) == digits_value(d.drop_last()) * 10 + (d.last() - 48));
    }
}

proof fn lemma_paren_close_at(s: Seq<u8>, j: int, end: int)
    requires
        0 <= j <= end < s.len(),
        forall|k: int| j <= k < end ==> #[trigger] s[k] != 41,
        s[end] == 41,
    ensures
        paren_close(s, j) == end,
    decreases end - j,
{
    if j < end {
        lemma_paren_close_at(s, j + 1, end);
    }
}

proof fn lemma_digits_end_at(s: Seq<u8>, j: int, end: int)
    requires
        0 <= j <= end < s.len(),
        forall|k: int| j <= k < end ==> is_digit_byte(#[trigger] s[k]),
        !is_digit_byte(s[end]),
    ensures
        digits_end(s, j) == end,
    decreases end - j,
{
    if j < end {
        lemma_digits_end_at(s, j + 1, end);
    }
}

/// The bytes of the operator `%REQ(name):n%`.
pub open spec fn req_operator(name: Seq<u8>, n: nat) -> Seq<u8> {
    seq![37u8, 82u8, 69u8, 81u8, 40u8] + name + seq![41u8, 58u8] + decimal_bytes(n) + seq![37u8]
}

/// `%REQ(name):n%` evaluates to the value of the header `name` (matched
/// through `lowercase`), or `-` when there is none, cut to its first `n`
/// characters: truncation counts characters, so a character is never
/// split, and a value of at most `n` characters is kept whole.
pub proof fn law_req_length_counts_characters(name: Seq<u8>, n: nat, ctx: RequestContextView)
    requires
        valid_utf8(name),
        forall|k: int| 0 <= k < name.len() ==> #[trigger] name[k] != 41,
        n <= usize::MAX,
    ensures
        ({
            let v = or_dash(header_lookup(ctx.headers, lowercase(decode_utf8(name))));
            &&& spec_evaluate(req_operator(name, n), ctx) == v.take(if v.len() > n { n as int } else { v.len() as int })
            &&& v.len() <= n ==> spec_evaluate(req_operator(name, n), ctx) == v
        }),
{
    let s = req_operator(name, n);
    let l = name.len() as int;
    let db = decimal_bytes(n);
    lemma_decimal_bytes(n);
    let dl = db.len() as int;
    let c = 5 + l;
    assert(s.len() == c + 3 + dl);
    assert(s[0] == 37u8 && s[1] == 82u8 && s[2] == 69u8 && s[3] == 81u8 && s[4] == 40u8);
    assert forall|k: int| 0 <= k < l implies #[trigger] s[5 + k] == name[k] by {}
    assert(s[c] == 41u8 && s[c + 1] == 58u8);
    assert forall|k: int| 0 <= k < dl implies #[trigger] s[c + 2 + k] == db[k] by {}
    assert(s[c + 2 + dl] == 37u8);
    // the name of the operator
    assert(command_end(s, 4) == 4);
    assert(command_end(s, 3) == 4);
    assert(command_end(s, 2) == 4);
    assert(command_end(s, 1) == 4);
    // its argument
    assert forall|k: int| 5 <= k < c implies #[trigger] s[k] != 41 by {
        assert(s[5 + (k - 5)] == name[k - 5]);
    }
    lemma_paren_close_at(s, 5, c);
    // its length
    assert forall|k: int| c + 2 <= k < c + 2 + dl implies is_digit_byte(#[trigger] s[k]) by {
        assert(s[c + 2 + (k - c - 2)] == db[k - c - 2]);
    }
    lemma_digits_end_at(s, c + 2, c + 2 + dl);
    assert(s.subrange(c + 2, c + 2 + dl) =~= db);
    assert(s.subrange(1, 4) =~= name_req());
    assert(s.subrange(5, c) =~= name);
    let d = parse_directive(s, 0)->0;
    assert(parse_directive(s, 0) == Some(Directive { name_start: 1, name_end: 4, arg: Some((5, c)), max_len: Some(n as usize), next: s.len() as int }));
    assert(evaluate_from(s, s.len() as int, ctx) == Seq::<char>::empty());
    let v = or_dash(header_lookup(ctx.headers, lowercase(decode_utf8(name))));
    assert(command_value(s.subrange(1, 4), arg_bytes(s, Some((5, c))), ctx) == v);
    assert(evaluate_from(s, 0, ctx) == truncate(v, Some(n as usize)) + Seq::<char>::empty());
    assert(truncate(v, Some(n as usize)) + Seq::<char>::empty() =~= truncate(v, Some(n as usize)));
    if v.len() <= n {
        assert(v.take(v.len() as int) =~= v);
    }
}

} // verus!
