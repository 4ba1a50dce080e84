//! The HTTP connection manager: the protocols it offers by ALPN, how it is
//! built, how it picks the virtual host and the route of a request, how it
//! tells when a transaction is complete, and how it classifies response
//! statuses for its metrics.

use vstd::prelude::*;

verus! {

/// The HTTP codec that a connection manager is configured with.
#[derive(Debug, Clone, Copy, PartialEq, Eq, Structural)]
pub enum CodecType {
    Auto,
    Http1,
    Http2,
}

/// A protocol offered by ALPN.
#[derive(Debug, Clone, Copy, PartialEq, Eq, Structural)]
pub enum AlpnCodecs {
    Http1,
    Http2,
}

/// The ALPN name of a protocol: `h2` or `http/1.1`.
pub open spec fn alpn_name(c: AlpnCodecs) -> Seq<u8> {
    match c {
        AlpnCodecs::Http2 => seq![104u8, 50u8],
        AlpnCodecs::Http1 => seq![104u8, 116u8, 116u8, 112u8, 47u8, 49u8, 46u8, 49u8],
    }
}

/// The protocols offered for a codec, preferred first: HTTP/2 then HTTP/1.1
/// for `Auto`, else the codec's own.
pub open spec fn codecs_for(codec: CodecType) -> Seq<AlpnCodecs> {
    match codec {
        CodecType::Auto => seq![AlpnCodecs::Http2, AlpnCodecs::Http1],
        CodecType::Http2 => seq![AlpnCodecs::Http2],
        CodecType::Http1 => seq![AlpnCodecs::Http1],
    }
}

impl AlpnCodecs {
    /// The protocol's ALPN name.
    pub fn as_bytes(&self) -> (r: Vec<u8>)
        ensures
            r@ == alpn_name(*self),
    {
        match self {
            AlpnCodecs::Http2 => {
                let r = vec![104u8, 50u8];
                assert(r@ =~= alpn_name(*self));
                r
            },
            AlpnCodecs::Http1 => {
                let r = vec![104u8, 116u8, 116u8, 112u8, 47u8, 49u8, 46u8, 49u8];
                assert(r@ =~= alpn_name(*self));
                r
            },
        }
    }

    /// The protocols offered for a codec.
    pub fn from_codec(codec: CodecType) -> (r: Vec<AlpnCodecs>)
        ensures
            r@ == codecs_for(codec),
    {
        let r = match codec {
            CodecType::Auto => vec![AlpnCodecs::Http2, AlpnCodecs::Http1],
            CodecType::Http2 => vec![AlpnCodecs::Http2],
            CodecType::Http1 => vec![AlpnCodecs::Http1],
        };
        assert(r@ =~= codecs_for(codec));
        r
    }
}

/// Why a connection manager cannot be built.
#[derive(Debug, Clone, Copy, PartialEq, Eq, Structural)]
pub enum HcmError {
    /// The listener name is not set.
    ListenerNameNotSet,
}

/// Builds a connection manager from its configuration `P`, once the name of
/// its listener is known.
#[derive(Debug, Clone)]
pub struct HttpConnectionManagerBuilder<P> {
    pub listener_name: Option<String>,
    pub filter_chain_match_hash: Option<u64>,
    pub connection_manager: P,
}

/// A connection manager: its listener, the hash of its filter chain match,
/// and its configuration.
#[derive(Debug, Clone)]
pub struct HttpConnectionManager<P> {
    pub listener_name: String,
    pub filter_chain_match_hash: u64,
    pub connection_manager: P,
}

impl<P> HttpConnectionManagerBuilder<P> {
    /// A builder for a configuration, without listener name nor hash.
    pub fn new(connection_manager: P) -> (r: Self)
        ensures
            r.listener_name is None,
            r.filter_chain_match_hash is None,
            r.connection_manager == connection_manager,
    {
        HttpConnectionManagerBuilder { listener_name: None, filter_chain_match_hash: None, connection_manager }
    }

    /// Sets the listener name.
    pub fn with_listener_name(self, name: &str) -> (r: Self)
        ensures
            r.listener_name matches Some(n) && n@ == name@,
            r.filter_chain_match_hash == self.filter_chain_match_hash,
            r.connection_manager == self.connection_manager,
    {
        HttpConnectionManagerBuilder { listener_name: Some(name.to_owned()), ..self }
    }

    /// Sets the hash of the filter chain match.
    pub fn with_filter_chain_match_hash(self, value: u64) -> (r: Self)
        ensures
            r.filter_chain_match_hash == Some(value),
            r.listener_name == self.listener_name,
            r.connection_manager == self.connection_manager,
    {
        HttpConnectionManagerBuilder { filter_chain_match_hash: Some(value), ..self }
    }

    /// The connection manager: it needs the listener name; the hash is 0
    /// when not set.
    pub fn build(self) -> (r: Result<HttpConnectionManager<P>, HcmError>)
        ensures
            self.listener_name is None ==> r == Err::<HttpConnectionManager<P>, HcmError>(HcmError::ListenerNameNotSet),
            self.listener_name matches Some(n) ==> (r matches Ok(m) && m.listener_name == n && m.filter_chain_match_hash
                == match self.filter_chain_match_hash {
                Some(h) => h,
                None => 0,
            } && m.connection_manager == self.connection_manager),
    {
        let listener_name = match self.listener_name {
            Some(n) => n,
            None => {
                return Err(HcmError::ListenerNameNotSet);
            },
        };
        let filter_chain_match_hash = match self.filter_chain_match_hash {
            Some(h) => h,
            None => 0,
        };
        Ok(HttpConnectionManager { listener_name, filter_chain_match_hash, connection_manager: self.connection_manager })
    }
}

impl<P> HttpConnectionManager<P> {
    /// The key of its traces: its listener name and its hash.
    pub fn get_tracing_key(&self) -> (r: (String, u64))
        ensures
            r.0@ == self.listener_name@,
            r.1 == self.filter_chain_match_hash,
    {
        (self.listener_name.clone(), self.filter_chain_match_hash)
    }
}

/// Counts the messages of a transaction that are complete.
#[derive(Debug)]
pub struct TransactionPhases {
    phase: usize,
}

impl TransactionPhases {
    /// How many messages completed (counted modulo the size of a `usize`).
    pub closed spec fn completed(&self) -> usize {
        self.phase
    }

    /// No message completed yet.
    pub fn new() -> (r: Self)
        ensures
            r.completed() == 0,
    {
        TransactionPhases { phase: 0 }
    }

    /// Records that a message (the request or the response) completed, and
    /// tells whether the transaction is now complete: whether a message had
    /// completed before.
    pub fn message_complete(&mut self) -> (r: TransactionComplete)
        ensures
            r.0 == (old(self).completed() > 0),
            final(self).completed() == (if old(self).completed() == usize::MAX {
                0
            } else {
                (old(self).completed() + 1) as usize
            }),
    {
        let before = self.phase;
        self.phase = if before == usize::MAX {
            0
        } else {
            before + 1
        };
        TransactionComplete(before > 0)
    }
}

/// Whether a transaction is complete.
#[derive(Debug, Clone, Copy, PartialEq, Eq, Structural)]
pub struct TransactionComplete(pub bool);

/// The class of a response status, for the metrics.
#[derive(Debug, Clone, Copy, PartialEq, Eq, Structural)]
pub enum StatusClass {
    Informational,
    Success,
    Redirection,
    ClientError,
    ServerError,
}

/// The class of a status: 1xx to 5xx; none for other codes.
pub open spec fn class_of(code: u16) -> Option<StatusClass> {
    if 100 <= code < 200 {
        Some(StatusClass::Informational)
    } else if 200 <= code < 300 {
        Some(StatusClass::Success)
    } else if 300 <= code < 400 {
        Some(StatusClass::Redirection)
    } else if 400 <= code < 500 {
        Some(StatusClass::ClientError)
    } else if 500 <= code < 600 {
        Some(StatusClass::ServerError)
    } else {
        None
    }
}

/// What the metrics and traces record of a transaction's outcome: the
/// class of its status, and whether its spans are marked as 5xx errors.
/// A transaction that failed counts as a server error.
#[derive(Debug, Clone, Copy, PartialEq, Eq, Structural)]
pub struct StatusTrace {
    pub class: Option<StatusClass>,
    pub error_span: bool,
}

/// Classifies the outcome of a transaction: its response status, or `None`
/// when it failed.
pub fn trace_status_code(status: Option<u16>) -> (r: StatusTrace)
    ensures
        match status {
            Some(code) => r.class == class_of(code) && r.error_span == (r.class == Some(StatusClass::ServerError)),
            None => r.class == Some(StatusClass::ServerError) && r.error_span,
        },
{
    match status {
        Some(code) => {
            let class = if 100 <= code && code < 200 {
                Some(StatusClass::Informational)
            } else if 200 <= code && code < 300 {
                Some(StatusClass::Success)
            } else if 300 <= code && code < 400 {
                Some(StatusClass::Redirection)
            } else if 400 <= code && code < 500 {
                Some(StatusClass::ClientError)
            } else if 500 <= code && code < 600 {
                Some(StatusClass::ServerError)
            } else {
                None
            };
            let error_span = match class {
                Some(StatusClass::ServerError) => true,
                _ => false,
            };
            StatusTrace { class, error_span }
        },
        None => StatusTrace { class: Some(StatusClass::ServerError), error_span: true },
    }
}

/// The best score among a virtual host's domains for a request: the
/// largest of those that match, or none.
pub open spec fn best_score(scores: Seq<Option<u64>>) -> Option<u64>
    decreases scores.len(),
{
    if scores.len() == 0 {
        None
    } else {
        let rest = best_score(scores.drop_last());
        match (rest, scores.last()) {
            (Some(a), Some(b)) => Some(if b >= a { b } else { a }),
            (None, b) => b,
            (a, None) => a,
        }
    }
}

/// The virtual host chosen among the first `n`: the last one whose best
/// score is the largest, among those with a score.
pub open spec fn chosen_host(hosts: Seq<Seq<Option<u64>>>, n: int) -> Option<int>
    decreases n,
{
    if n <= 0 {
        None
    } else {
        let prev = chosen_host(hosts, n - 1);
        match best_score(hosts[n - 1]) {
            None => prev,
            Some(s) => match prev {
                None => Some(n - 1),
                Some(p) => if s >= best_score(hosts[p]).unwrap() {
                    Some(n - 1)
                } else {
                    prev
                },
            },
        }
    }
}

fn best_score_of(scores: &Vec<Option<u64>>) -> (r: Option<u64>)
    ensures
        r == best_score(scores@),
{
    let mut best: Option<u64> = None;
    let mut i: usize = 0;
    while i < scores.len()
        invariant
            i <= scores@.len(),
            best == best_score(scores@.subrange(0, i as int)),
        decreases scores@.len() - i,
    {
        let ghost sub = scores@.subrange(0, i + 1);
        assert(sub.drop_last() =~= scores@.subrange(0, i as int));
        best = match (best, scores[i]) {
            (Some(a), Some(b)) => Some(if b >= a { b } else { a }),
            (None, b) => b,
            (a, None) => a,
        };
        i += 1;
    }
    assert(scores@.subrange(0, i as int) =~= scores@);
    best
}

proof fn lemma_chosen_has_score(hosts: Seq<Seq<Option<u64>>>, n: int)
    requires
        0 <= n <= hosts.len(),
    ensures
        chosen_host(hosts, n) matches Some(p) ==> 0 <= p < n && best_score(hosts[p]) is Some,
    decreases n,
{
    if n > 0 {
        lemma_chosen_has_score(hosts, n - 1);
    }
}

/// Picks the virtual host of a request from the scores of each host's
/// domains (`None` for a domain that does not match the request's host).
pub fn select_virtual_host(hosts: &Vec<Vec<Option<u64>>>) -> (r: Option<usize>)
    ensures
        match r {
            Some(i) => chosen_host(hosts@.map_values(|h: Vec<Option<u64>>| h@), hosts@.len() as int) == Some(i as int),
            None => chosen_host(hosts@.map_values(|h: Vec<Option<u64>>| h@), hosts@.len() as int) is None,
        },
{
    let ghost hv = hosts@.map_values(|h: Vec<Option<u64>>| h@);
    let mut chosen: Option<usize> = None;
    let mut chosen_score: u64 = 0;
    let mut i: usize = 0;
    while i < hosts.len()
        invariant
            i <= hosts@.len(),
            hv == hosts@.map_values(|h: Vec<Option<u64>>| h@),
            match chosen {
                Some(c) => chosen_host(hv, i as int) == Some(c as int) && best_score(hv[c as int]) == Some(chosen_score),
                None => chosen_host(hv, i as int) is None,
            },
        decreases hosts@.len() - i,
    {
        let score = best_score_of(&hosts[i]);
        assert(hv[i as int] == hosts@[i as int]@);
        match score {
            Some(s) => {
                match chosen {
                    Some(_) => {
                        if s >= chosen_score {
                            chosen = Some(i);
                            chosen_score = s;
                        }
                    },
                    None => {
                        chosen = Some(i);
                        chosen_score = s;
                    },
                }
            },
            None => {},
        }
        i += 1;
    }
    chosen
}

/// The route of a request: the first one (of the chosen virtual host) that
/// matches it.
pub fn first_matching_route(matches: &Vec<bool>) -> (r: Option<usize>)
    ensures
        match r {
            Some(i) => i < matches@.len() && matches@[i as int] && forall|j: int| 0 <= j < i ==> !matches@[j],
            None => forall|j: int| 0 <= j < matches@.len() ==> !matches@[j],
        },
{
    let mut i: usize = 0;
    while i < matches.len()
        invariant
            i <= matches@.len(),
            forall|j: int| 0 <= j < i ==> !matches@[j],
        decreases matches@.len() - i,
    {
        if matches[i] {
            return Some(i);
        }
        i += 1;
    }
    None
}

/// The phase counter after a message completed.
pub open spec fn next_phase(completed: usize) -> usize {
    if completed == usize::MAX {
        0
    } else {
        (completed + 1) as usize
    }
}

/// A transaction completes with its second message, not its first: from
/// a fresh counter, the first completion reports an incomplete transaction
/// and the second a complete one.
pub proof fn law_transaction_completes_on_second_message()
    ensures
        !(0usize > 0),
        next_phase(0) > 0,
{
}

} // verus!
