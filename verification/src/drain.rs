//! Drain signalling: when a listener is updated or removed, or the proxy
//! restarts, its connections are drained, that is closed gracefully, within
//! timeouts. Durations are counted in nanoseconds.

use vstd::prelude::*;
use crate::clock::{elapsed_nanos, instant_now};
use crate::headers::HeaderMap;
use crate::keyed::{distinct_keys, find_key, keyed_map, lemma_keyed_at, lemma_keyed_empty, lemma_keyed_push, lemma_keyed_remove, lemma_keyed_set};

verus! {

broadcast use vstd::string::group_string_axioms;

/// Nanoseconds in a second.
pub const NANOS_PER_SECOND: u128 = 1_000_000_000;

/// The global drain timeout of a manager built with `new`: 600 s.
pub const DEFAULT_GLOBAL_DRAIN_TIMEOUT: u128 = 600_000_000_000;

/// The HTTP drain timeout of a manager built with `new`: 5000 ms.
pub const DEFAULT_HTTP_DRAIN_TIMEOUT: u128 = 5_000_000_000;

/// When a listener drains its connections, as configured.
#[derive(Debug, Clone, Copy, PartialEq, Eq, Structural)]
pub enum DrainType {
    /// In every drain scenario.
    Default,
    /// Only when the listener is modified or the proxy restarts.
    ModifyOnly,
}

/// Why connections are being drained.
#[derive(Debug, Clone, Copy, PartialEq, Eq, Structural)]
pub enum DrainScenario {
    HealthCheckFail,
    ListenerUpdate,
    HotRestart,
}

/// Whether a scenario drains a listener of a drain type: `Default` drains
/// always, `ModifyOnly` drains on updates and restarts but not on failed
/// health checks.
pub open spec fn drains(scenario: DrainScenario, drain_type: DrainType) -> bool {
    drain_type == DrainType::Default || scenario != DrainScenario::HealthCheckFail
}

impl DrainScenario {
    /// Whether this scenario drains a listener of `drain_type`.
    pub fn should_drain(self, drain_type: DrainType) -> (r: bool)
        ensures
            r == drains(self, drain_type),
    {
        match (self, drain_type) {
            (_, DrainType::Default) | (DrainScenario::ListenerUpdate | DrainScenario::HotRestart, DrainType::ModifyOnly) => true,
            (DrainScenario::HealthCheckFail, DrainType::ModifyOnly) => false,
        }
    }
}

/// How a listener's connections are drained.
#[derive(Debug, Clone, Copy, PartialEq, Eq, Structural)]
pub enum DrainStrategy {
    /// Close the connections within the global timeout.
    Tcp { global_timeout: u128 },
    /// Signal HTTP clients, wait `drain_timeout`, close within the global
    /// timeout.
    Http { global_timeout: u128, drain_timeout: u128 },
    /// Close at once.
    Immediate,
    /// Close gradually, within 600 s.
    Gradual,
}

/// The time after which a drain with this strategy is forced to end:
/// the configured global timeout, none for `Immediate`, 600 s for `Gradual`.
pub open spec fn global_timeout_of(strategy: DrainStrategy) -> u128 {
    match strategy {
        DrainStrategy::Tcp { global_timeout } => global_timeout,
        DrainStrategy::Http { global_timeout, .. } => global_timeout,
        DrainStrategy::Immediate => 0,
        DrainStrategy::Gradual => (600 * NANOS_PER_SECOND) as u128,
    }
}

/// The HTTP drain timeout of a strategy: only `Http` has one.
pub open spec fn http_drain_timeout_of(strategy: DrainStrategy) -> Option<u128> {
    match strategy {
        DrainStrategy::Http { drain_timeout, .. } => Some(drain_timeout),
        _ => None,
    }
}

/// How HTTP clients are told that a listener drains.
#[derive(Debug, Clone, Copy, PartialEq, Eq, Structural)]
pub enum ProtocolDrainBehavior {
    /// HTTP/1.1, with or without a `Connection: close` header.
    Http1 { connection_close: bool },
    /// HTTP/2 (GOAWAY frames).
    Http2,
    /// Plain TCP.
    Tcp,
    /// Whatever the protocol of the connection calls for.
    Auto,
}

/// Whether a behavior tells HTTP/1.1 clients with `Connection: close`.
pub open spec fn closes_http1(b: ProtocolDrainBehavior) -> bool {
    b == (ProtocolDrainBehavior::Http1 { connection_close: true }) || b == ProtocolDrainBehavior::Auto
}

/// A listener-wide drain in progress.
#[derive(Debug, Clone, Copy)]
pub struct ListenerDrainState {
    pub started_at: std::time::Instant,
    pub protocol_behavior: ProtocolDrainBehavior,
    pub drain_scenario: DrainScenario,
    pub drain_type: DrainType,
}

/// The drain of one listener.
#[derive(Debug)]
pub struct ListenerDrainContext {
    pub listener_id: String,
    pub strategy: DrainStrategy,
    pub drain_start: std::time::Instant,
    pub initial_connections: usize,
    active_connections: usize,
    completed: bool,
}

/// What a listener's drain holds.
pub struct DrainContextView {
    pub listener_id: Seq<char>,
    pub strategy: DrainStrategy,
    pub drain_start: std::time::Instant,
    pub initial_connections: usize,
    pub active_connections: usize,
    pub completed: bool,
}

impl View for ListenerDrainContext {
    type V = DrainContextView;

    closed spec fn view(&self) -> DrainContextView {
        DrainContextView {
            listener_id: self.listener_id@,
            strategy: self.strategy,
            drain_start: self.drain_start,
            initial_connections: self.initial_connections,
            active_connections: self.active_connections,
            completed: self.completed,
        }
    }
}

impl ListenerDrainContext {
    /// A drain that starts now with `initial_connections` open.
    pub fn new(listener_id: String, strategy: DrainStrategy, initial_connections: usize) -> (r: Self)
        ensures
            r@.listener_id == listener_id@,
            r@.strategy == strategy,
            r@.initial_connections == initial_connections,
            r@.active_connections == initial_connections,
            !r@.completed,
    {
        ListenerDrainContext {
            listener_id,
            strategy,
            drain_start: instant_now(),
            initial_connections,
            active_connections: initial_connections,
            completed: false,
        }
    }

    /// A copy of the drain.
    pub fn duplicate(&self) -> (r: Self)
        ensures
            r@ == self@,
    {
        ListenerDrainContext {
            listener_id: self.listener_id.clone(),
            strategy: self.strategy,
            drain_start: self.drain_start,
            initial_connections: self.initial_connections,
            active_connections: self.active_connections,
            completed: self.completed,
        }
    }

    /// Records how many connections are still open; none open completes the
    /// drain, and a completed drain stays completed.
    pub fn update_connection_count(&mut self, count: usize)
        ensures
            final(self)@ == (DrainContextView {
                active_connections: count,
                completed: old(self)@.completed || count == 0,
                ..old(self)@
            }),
    {
        self.active_connections = count;
        if count == 0 {
            self.completed = true;
        }
    }

    /// Whether the drain completed.
    pub fn is_completed(&self) -> (r: bool)
        ensures
            r == self@.completed,
    {
        self.completed
    }

    /// How many connections are still open.
    pub fn get_active_connections(&self) -> (r: usize)
        ensures
            r == self@.active_connections,
    {
        self.active_connections
    }

    /// Whether a drain that has run for `elapsed` nanoseconds is past its
    /// global timeout.
    pub fn timeout_exceeded_after(&self, elapsed: u128) -> (r: bool)
        ensures
            r == (elapsed >= global_timeout_of(self@.strategy)),
    {
        let global_timeout: u128 = match self.strategy {
            DrainStrategy::Tcp { global_timeout } | DrainStrategy::Http { global_timeout, .. } => global_timeout,
            DrainStrategy::Immediate => 0,
            DrainStrategy::Gradual => 600 * NANOS_PER_SECOND,
        };
        elapsed >= global_timeout
    }

    /// Whether the drain is past its global timeout now. The time is read
    /// from the clock, so only this is stated: a drain without timeout is
    /// always past it.
    pub fn is_timeout_exceeded(&self) -> (r: bool)
        ensures
            global_timeout_of(self@.strategy) == 0 ==> r,
    {
        let elapsed = elapsed_nanos(&self.drain_start);
        self.timeout_exceeded_after(elapsed)
    }

    /// The HTTP drain timeout, for an HTTP drain.
    pub fn get_http_drain_timeout(&self) -> (r: Option<u128>)
        ensures
            r == http_drain_timeout_of(self@.strategy),
    {
        match self.strategy {
            DrainStrategy::Http { drain_timeout, .. } => Some(drain_timeout),
            _ => None,
        }
    }
}

/// What the drain monitor does after a check.
#[derive(Debug, Clone, Copy, PartialEq, Eq, Structural)]
pub enum DrainProgress {
    /// Keep waiting.
    Continue,
    /// All connections closed: the drain ended.
    Completed,
    /// The global timeout passed: the drain was forced to end.
    ForceCompleted,
    /// The manager no longer tracks the listener.
    Untracked,
}

/// Errors of drain signalling.
#[derive(Debug, Clone, Copy, PartialEq, Eq, Structural)]
pub enum DrainError {
    /// Listeners still drained when the wait for completion ran out.
    Timeout,
}

/// Tracks the drains of listeners, and the listener-wide drain.
#[derive(Debug)]
pub struct DrainSignalingManager {
    drain_contexts: Vec<(String, ListenerDrainContext)>,
    global_drain_timeout: u128,
    default_http_drain_timeout: u128,
    listener_drain_state: Option<ListenerDrainState>,
}

/// What a drain manager holds.
pub struct DrainManagerView {
    pub contexts: Map<Seq<char>, DrainContextView>,
    pub global_drain_timeout: u128,
    pub default_http_drain_timeout: u128,
    pub listener_drain_state: Option<ListenerDrainState>,
}

impl DrainSignalingManager {
    #[verifier::type_invariant]
    spec fn well_formed(self) -> bool {
        &&& distinct_keys(self.drain_contexts@)
        &&& forall|i: int| 0 <= i < self.drain_contexts@.len() ==> #[trigger] self.drain_contexts@[i].0@ == self.drain_contexts@[i].1.listener_id@
    }

    pub closed spec fn view(&self) -> DrainManagerView {
        DrainManagerView {
            contexts: keyed_map(self.drain_contexts@).map_values(|c: ListenerDrainContext| c@),
            global_drain_timeout: self.global_drain_timeout,
            default_http_drain_timeout: self.default_http_drain_timeout,
            listener_drain_state: self.listener_drain_state,
        }
    }

    /// A manager with the default timeouts: 600 s overall, 5000 ms for HTTP.
    pub fn new() -> (r: Self)
        ensures
            r@.contexts == Map::<Seq<char>, DrainContextView>::empty(),
            r@.global_drain_timeout == DEFAULT_GLOBAL_DRAIN_TIMEOUT,
            r@.default_http_drain_timeout == DEFAULT_HTTP_DRAIN_TIMEOUT,
            r@.listener_drain_state is None,
    {
        Self::with_timeouts(DEFAULT_GLOBAL_DRAIN_TIMEOUT, DEFAULT_HTTP_DRAIN_TIMEOUT)
    }

    /// A copy of the manager: the same drains, timeouts and listener-wide
    /// drain.
    pub fn duplicate(&self) -> (r: Self)
        ensures
            r@ == self@,
    {
        proof {
            use_type_invariant(self);
        }
        let mut contexts: Vec<(String, ListenerDrainContext)> = Vec::new();
        let mut i: usize = 0;
        while i < self.drain_contexts.len()
            invariant
                i <= self.drain_contexts@.len(),
                distinct_keys(self.drain_contexts@),
                forall|k: int| 0 <= k < self.drain_contexts@.len() ==> #[trigger] self.drain_contexts@[k].0@ == self.drain_contexts@[k].1.listener_id@,
                contexts@.len() == i,
                forall|k: int| 0 <= k < i ==> (#[trigger] contexts@[k]).0@ == self.drain_contexts@[k].0@
                    && contexts@[k].1@ == self.drain_contexts@[k].1@,
            decreases self.drain_contexts@.len() - i,
        {
            let entry = &self.drain_contexts[i];
            contexts.push((entry.0.clone(), entry.1.duplicate()));
            i += 1;
        }
        let ghost a = self.drain_contexts@;
        let ghost b = contexts@;
        assert(distinct_keys(b)) by {
            assert forall|x: int, y: int| 0 <= x < b.len() && 0 <= y < b.len() && x != y implies #[trigger] b[x].0@
                != #[trigger] b[y].0@ by {
                assert(a[x].0@ != a[y].0@);
            }
        }
        assert forall|x: int| 0 <= x < b.len() implies #[trigger] b[x].0@ == b[x].1.listener_id@ by {
            assert(a[x].0@ == a[x].1.listener_id@);
        }
        let r = DrainSignalingManager {
            drain_contexts: contexts,
            global_drain_timeout: self.global_drain_timeout,
            default_http_drain_timeout: self.default_http_drain_timeout,
            listener_drain_state: self.listener_drain_state,
        };
        assert(r@.contexts =~= self@.contexts) by {
            assert forall|k: Seq<char>| #[trigger] keyed_map(b).contains_key(k) == keyed_map(a).contains_key(k) by {
                if keyed_map(b).contains_key(k) {
                    let x = choose|x: int| 0 <= x < b.len() && #[trigger] b[x].0@ == k;
                    lemma_keyed_at(a, x);
                }
                if keyed_map(a).contains_key(k) {
                    let x = choose|x: int| 0 <= x < a.len() && #[trigger] a[x].0@ == k;
                    lemma_keyed_at(b, x);
                }
            }
            assert forall|k: Seq<char>| #[trigger] keyed_map(b).contains_key(k) implies keyed_map(b)[k]@ == keyed_map(a)[k]@ by {
                let x = choose|x: int| 0 <= x < b.len() && #[trigger] b[x].0@ == k;
                lemma_keyed_at(a, x);
                lemma_keyed_at(b, x);
            }
        }
        r
    }

    /// A manager with the given timeouts.
    pub fn with_timeouts(global_drain_timeout: u128, default_http_drain_timeout: u128) -> (r: Self)
        ensures
            r@.contexts == Map::<Seq<char>, DrainContextView>::empty(),
            r@.global_drain_timeout == global_drain_timeout,
            r@.default_http_drain_timeout == default_http_drain_timeout,
            r@.listener_drain_state is None,
    {
        let r = DrainSignalingManager {
            drain_contexts: Vec::new(),
            global_drain_timeout,
            default_http_drain_timeout,
            listener_drain_state: None,
        };
        proof {
            lemma_keyed_empty(r.drain_contexts@);
        }
        assert(r@.contexts =~= Map::<Seq<char>, DrainContextView>::empty());
        r
    }

    /// Starts a listener-wide drain, unless its scenario does not drain its
    /// drain type.
    pub fn start_listener_draining(&mut self, drain_state: ListenerDrainState)
        ensures
            final(self)@.contexts == old(self)@.contexts,
            final(self)@.global_drain_timeout == old(self)@.global_drain_timeout,
            final(self)@.default_http_drain_timeout == old(self)@.default_http_drain_timeout,
            final(self)@.listener_drain_state == if drains(drain_state.drain_scenario, drain_state.drain_type) {
                Some(drain_state)
            } else {
                old(self)@.listener_drain_state
            },
    {
        proof {
            use_type_invariant(&*self);
        }
        if !drain_state.drain_scenario.should_drain(drain_state.drain_type) {
            return;
        }
        self.listener_drain_state = Some(drain_state);
    }

    /// Stops the listener-wide drain and forgets the drains of all
    /// listeners.
    pub fn stop_listener_draining(&mut self)
        ensures
            final(self)@.contexts == Map::<Seq<char>, DrainContextView>::empty(),
            final(self)@.listener_drain_state is None,
            final(self)@.global_drain_timeout == old(self)@.global_drain_timeout,
            final(self)@.default_http_drain_timeout == old(self)@.default_http_drain_timeout,
    {
        self.drain_contexts = Vec::new();
        proof {
            use_type_invariant(&*self);
        }
        self.listener_drain_state = None;
        proof {
            lemma_keyed_empty(self.drain_contexts@);
        }
        assert(self@.contexts =~= Map::<Seq<char>, DrainContextView>::empty());
    }

    /// Whether a listener-wide drain is in progress.
    pub fn is_listener_draining(&self) -> (r: bool)
        ensures
            r == self@.listener_drain_state is Some,
    {
        self.listener_drain_state.is_some()
    }

    /// Whether a response must carry `Connection: close`: during a
    /// listener-wide drain whose behavior closes HTTP/1.1 connections.
    pub fn closes_http1_connections(&self) -> (r: bool)
        ensures
            r == (self@.listener_drain_state matches Some(s) && closes_http1(s.protocol_behavior)),
    {
        match &self.listener_drain_state {
            Some(s) => match s.protocol_behavior {
                ProtocolDrainBehavior::Http1 { connection_close: true } | ProtocolDrainBehavior::Auto => true,
                _ => false,
            },
            None => false,
        }
    }

    /// Adds `Connection: close` to a response's headers when the
    /// listener-wide drain closes HTTP/1.1 connections.
    pub fn apply_http1_drain_signal(&self, headers: &mut HeaderMap)
        ensures
            (self@.listener_drain_state matches Some(s) && closes_http1(s.protocol_behavior)) ==> final(headers)@
                == old(headers)@.insert("connection"@, seq![close_value()]),
            !(self@.listener_drain_state matches Some(s) && closes_http1(s.protocol_behavior)) ==> final(headers)@
                == old(headers)@,
    {
        if self.closes_http1_connections() {
            Self::apply_http1_drain_signal_sync(headers);
        }
    }

    /// Adds `Connection: close` to a response's headers.
    pub fn apply_http1_drain_signal_sync(headers: &mut HeaderMap) -> (r: bool)
        ensures
            r,
            final(headers)@ == old(headers)@.insert("connection"@, seq![close_value()]),
    {
        let name = "connection";
        let value: Vec<u8> = vec![99u8, 108u8, 111u8, 115u8, 101u8];
        assert(value@ =~= close_value());
        headers.insert(name, value);
        true
    }

    /// The HTTP/2 drain timeout for a listener: that of its drain, or the
    /// default one when it does not drain.
    pub fn get_http2_drain_timeout(&self, listener_id: &str) -> (r: Option<u128>)
        ensures
            self@.contexts.contains_key(listener_id@) ==> r == http_drain_timeout_of(self@.contexts[listener_id@].strategy),
            !self@.contexts.contains_key(listener_id@) ==> r == Some(self@.default_http_drain_timeout),
    {
        proof {
            use_type_invariant(self);
        }
        let key = listener_id.to_owned();
        match find_key(&self.drain_contexts, &key) {
            Some(i) => self.drain_contexts[i].1.get_http_drain_timeout(),
            None => Some(self.default_http_drain_timeout),
        }
    }

    /// Starts draining a listener with `active_connections` open: an HTTP
    /// listener drains with the manager's global timeout and the given HTTP
    /// drain timeout (or the default one), another one as TCP. A drain of
    /// the same listener that was in progress is replaced. Hands back a copy
    /// of the new drain as it starts; the drain as it goes on is the one the
    /// manager holds (`get_drain_context`).
    pub fn initiate_listener_drain(
        &mut self,
        listener_id: String,
        is_http: bool,
        http_drain_timeout: Option<u128>,
        active_connections: usize,
    ) -> (r: Result<ListenerDrainContext, DrainError>)
        ensures
            r matches Ok(c) && c@.listener_id == listener_id@ && c@.strategy == initiated_strategy(
                old(self)@,
                is_http,
                http_drain_timeout,
            ) && c@.initial_connections == active_connections && c@.active_connections == active_connections
                && !c@.completed && final(self)@.contexts == old(self)@.contexts.insert(listener_id@, c@),
            final(self)@.global_drain_timeout == old(self)@.global_drain_timeout,
            final(self)@.default_http_drain_timeout == old(self)@.default_http_drain_timeout,
            final(self)@.listener_drain_state == old(self)@.listener_drain_state,
    {
        proof {
            use_type_invariant(&*self);
        }
        let strategy = if is_http {
            DrainStrategy::Http {
                global_timeout: self.global_drain_timeout,
                drain_timeout: match http_drain_timeout {
                    Some(t) => t,
                    None => self.default_http_drain_timeout,
                },
            }
        } else {
            DrainStrategy::Tcp { global_timeout: self.global_drain_timeout }
        };
        let context = ListenerDrainContext::new(listener_id.clone(), strategy, active_connections);
        let copy = context.duplicate();
        let entry = (listener_id, context);
        let ghost before = self.drain_contexts@;
        let ghost cv = copy@;
        match find_key(&self.drain_contexts, &entry.0) {
            Some(i) => {
                proof {
                    lemma_keyed_set(before, i as int, entry);
                }
                let mut storage = Vec::new();
                std::mem::swap(&mut storage, &mut self.drain_contexts);
                storage.set(i, entry);
                self.drain_contexts = storage;
            },
            None => {
                proof {
                    lemma_keyed_push(before, entry);
                }
                let mut storage = Vec::new();
                std::mem::swap(&mut storage, &mut self.drain_contexts);
                storage.push(entry);
                self.drain_contexts = storage;
            },
        }
        assert(self@.contexts =~= old(self)@.contexts.insert(cv.listener_id, cv));
        Ok(copy)
    }

    fn remove_context(&mut self, listener_id: &str) -> (r: Option<ListenerDrainContext>)
        ensures
            old(self)@.contexts.contains_key(listener_id@) ==> (r matches Some(c) && c@ == old(self)@.contexts[listener_id@]
                && final(self)@.contexts == old(self)@.contexts.remove(listener_id@)),
            !old(self)@.contexts.contains_key(listener_id@) ==> r is None && final(self)@.contexts == old(self)@.contexts,
            final(self)@.global_drain_timeout == old(self)@.global_drain_timeout,
            final(self)@.default_http_drain_timeout == old(self)@.default_http_drain_timeout,
            final(self)@.listener_drain_state == old(self)@.listener_drain_state,
    {
        proof {
            use_type_invariant(&*self);
        }
        let key = listener_id.to_owned();
        match find_key(&self.drain_contexts, &key) {
            Some(i) => {
                let ghost before = self.drain_contexts@;
                proof {
                    lemma_keyed_remove(before, i as int);
                    lemma_keyed_at(before, i as int);
                }
                let mut storage = Vec::new();
                std::mem::swap(&mut storage, &mut self.drain_contexts);
                let (_, c) = storage.remove(i);
                self.drain_contexts = storage;
                assert(self@.contexts =~= old(self)@.contexts.remove(listener_id@));
                Some(c)
            },
            None => None,
        }
    }

    /// Ends the drain of a listener whose connections all closed, and hands
    /// it back.
    pub fn complete_drain(&mut self, listener_id: &str) -> (r: Option<ListenerDrainContext>)
        ensures
            old(self)@.contexts.contains_key(listener_id@) ==> (r matches Some(c) && c@ == old(self)@.contexts[listener_id@]),
            !old(self)@.contexts.contains_key(listener_id@) ==> r is None,
            final(self)@.contexts == old(self)@.contexts.remove(listener_id@),
            final(self)@.global_drain_timeout == old(self)@.global_drain_timeout,
            final(self)@.default_http_drain_timeout == old(self)@.default_http_drain_timeout,
            final(self)@.listener_drain_state == old(self)@.listener_drain_state,
    {
        let r = self.remove_context(listener_id);
        assert(self@.contexts =~= old(self)@.contexts.remove(listener_id@));
        r
    }

    /// Forces the drain of a listener to end, marked completed, and hands it
    /// back.
    pub fn force_complete_drain(&mut self, listener_id: &str) -> (r: Option<ListenerDrainContext>)
        ensures
            old(self)@.contexts.contains_key(listener_id@) ==> (r matches Some(c) && c@ == (DrainContextView {
                completed: true,
                ..old(self)@.contexts[listener_id@]
            })),
            !old(self)@.contexts.contains_key(listener_id@) ==> r is None,
            final(self)@.contexts == old(self)@.contexts.remove(listener_id@),
            final(self)@.global_drain_timeout == old(self)@.global_drain_timeout,
            final(self)@.default_http_drain_timeout == old(self)@.default_http_drain_timeout,
            final(self)@.listener_drain_state == old(self)@.listener_drain_state,
    {
        let r = match self.remove_context(listener_id) {
            Some(mut c) => {
                c.completed = true;
                Some(c)
            },
            None => None,
        };
        assert(self@.contexts =~= old(self)@.contexts.remove(listener_id@));
        r
    }

    /// Records how many connections of a draining listener are still open;
    /// `false` when the listener does not drain.
    pub fn update_connection_count(&mut self, listener_id: &str, count: usize) -> (r: bool)
        ensures
            r == old(self)@.contexts.contains_key(listener_id@),
            r ==> final(self)@.contexts == old(self)@.contexts.insert(
                listener_id@,
                DrainContextView {
                    active_connections: count,
                    completed: old(self)@.contexts[listener_id@].completed || count == 0,
                    ..old(self)@.contexts[listener_id@]
                },
            ),
            !r ==> final(self)@.contexts == old(self)@.contexts,
            final(self)@.global_drain_timeout == old(self)@.global_drain_timeout,
            final(self)@.default_http_drain_timeout == old(self)@.default_http_drain_timeout,
            final(self)@.listener_drain_state == old(self)@.listener_drain_state,
    {
        proof {
            use_type_invariant(&*self);
        }
        let key = listener_id.to_owned();
        match find_key(&self.drain_contexts, &key) {
            Some(i) => {
                let mut c = self.drain_contexts[i].1.duplicate();
                c.update_connection_count(count);
                let entry = (key, c);
                let ghost before = self.drain_contexts@;
                let ghost ev = entry;
                proof {
                    lemma_keyed_set(before, i as int, entry);
                }
                let mut storage = Vec::new();
                std::mem::swap(&mut storage, &mut self.drain_contexts);
                storage.set(i, entry);
                self.drain_contexts = storage;
                assert(self@.contexts =~= old(self)@.contexts.insert(ev.0@, ev.1@));
                true
            },
            None => false,
        }
    }

    /// One check of the drain monitor of a listener: a completed drain ends,
    /// a drain past its global timeout is forced to end, another one goes
    /// on. `elapsed` is how long the drain has run, in nanoseconds.
    pub fn check_drain_after(&mut self, listener_id: &str, elapsed: u128) -> (r: DrainProgress)
        ensures
            !old(self)@.contexts.contains_key(listener_id@) ==> r == DrainProgress::Untracked && final(self)@
                == old(self)@,
            old(self)@.contexts.contains_key(listener_id@) ==> {
                let c = old(self)@.contexts[listener_id@];
                &&& r == drain_step(c.completed, elapsed >= global_timeout_of(c.strategy))
                &&& r == DrainProgress::Continue ==> final(self)@ == old(self)@
                &&& r != DrainProgress::Continue ==> final(self)@.contexts == old(self)@.contexts.remove(listener_id@)
            },
            final(self)@.global_drain_timeout == old(self)@.global_drain_timeout,
            final(self)@.default_http_drain_timeout == old(self)@.default_http_drain_timeout,
            final(self)@.listener_drain_state == old(self)@.listener_drain_state,
    {
        proof {
            use_type_invariant(&*self);
        }
        let key = listener_id.to_owned();
        match find_key(&self.drain_contexts, &key) {
            Some(i) => {
                let completed = self.drain_contexts[i].1.is_completed();
                let timed_out = self.drain_contexts[i].1.timeout_exceeded_after(elapsed);
                let step = drain_step_of(completed, timed_out);
                match step {
                    DrainProgress::Completed => {
                        self.complete_drain(listener_id);
                    },
                    DrainProgress::ForceCompleted => {
                        self.force_complete_drain(listener_id);
                    },
                    _ => {},
                }
                step
            },
            None => DrainProgress::Untracked,
        }
    }

    /// One check of the drain monitor of a listener, with the time read from
    /// the clock: whatever the reading, a completed drain ends, and a
    /// drain that ends leaves the manager.
    pub fn monitor_drain_progress(&mut self, listener_id: &str) -> (r: DrainProgress)
        ensures
            !old(self)@.contexts.contains_key(listener_id@) ==> r == DrainProgress::Untracked,
            old(self)@.contexts.contains_key(listener_id@) && old(self)@.contexts[listener_id@].completed ==> r
                == DrainProgress::Completed,
            r == DrainProgress::Continue ==> final(self)@ == old(self)@,
            r == DrainProgress::Completed || r == DrainProgress::ForceCompleted ==> final(self)@.contexts
                == old(self)@.contexts.remove(listener_id@),
    {
        proof {
            use_type_invariant(&*self);
        }
        let key = listener_id.to_owned();
        let elapsed = match find_key(&self.drain_contexts, &key) {
            Some(i) => elapsed_nanos(&self.drain_contexts[i].1.drain_start),
            None => 0,
        };
        self.check_drain_after(listener_id, elapsed)
    }

    /// The drain of a listener, if it drains.
    pub fn get_drain_context(&self, listener_id: &str) -> (r: Option<&ListenerDrainContext>)
        ensures
            self@.contexts.contains_key(listener_id@) ==> (r matches Some(c) && c@ == self@.contexts[listener_id@]),
            !self@.contexts.contains_key(listener_id@) ==> r is None,
    {
        proof {
            use_type_invariant(self);
        }
        let key = listener_id.to_owned();
        match find_key(&self.drain_contexts, &key) {
            Some(i) => Some(&self.drain_contexts[i].1),
            None => None,
        }
    }

    /// Whether some listener drains.
    pub fn has_draining_listeners(&self) -> (r: bool)
        ensures
            r == (self@.contexts.dom().len() > 0),
    {
        proof {
            use_type_invariant(self);
            crate::keyed::lemma_keyed_len(self.drain_contexts@);
            assert(self@.contexts.dom() =~= keyed_map(self.drain_contexts@).dom());
        }
        self.drain_contexts.len() > 0
    }

    /// The listeners that drain, each once.
    pub fn get_draining_listeners(&self) -> (r: Vec<String>)
        ensures
            r@.len() == self@.contexts.dom().len(),
            forall|k: Seq<char>| self@.contexts.contains_key(k) <==> exists|i: int| 0 <= i < r@.len() && #[trigger] r@[i]@ == k,
    {
        proof {
            use_type_invariant(self);
            crate::keyed::lemma_keyed_len(self.drain_contexts@);
            assert(self@.contexts.dom() =~= keyed_map(self.drain_contexts@).dom());
        }
        let mut out: Vec<String> = Vec::new();
        let mut i: usize = 0;
        while i < self.drain_contexts.len()
            invariant
                i <= self.drain_contexts@.len(),
                out@.len() == i,
                forall|t: int| 0 <= t < i ==> (#[trigger] out@[t])@ == self.drain_contexts@[t].0@,
            decreases self.drain_contexts@.len() - i,
        {
            out.push(self.drain_contexts[i].0.clone());
            i += 1;
        }
        proof {
            assert forall|k: Seq<char>| self@.contexts.contains_key(k) <==> exists|t: int| 0 <= t < out@.len() && #[trigger] out@[t]@ == k by {
                if self@.contexts.contains_key(k) {
                    let t = choose|t: int| 0 <= t < self.drain_contexts@.len() && #[trigger] self.drain_contexts@[t].0@ == k;
                    assert(out@[t]@ == k);
                }
                if exists|t: int| 0 <= t < out@.len() && #[trigger] out@[t]@ == k {
                    let t = choose|t: int| 0 <= t < out@.len() && #[trigger] out@[t]@ == k;
                    lemma_keyed_at(self.drain_contexts@, t);
                }
            }
        }
        out
    }
}

/// The value of the `Connection` header that closes a connection: `close`.
pub open spec fn close_value() -> Seq<u8> {
    seq![99u8, 108u8, 111u8, 115u8, 101u8]
}

/// The strategy of a new drain: HTTP with the manager's global timeout and
/// the given (or default) HTTP drain timeout, else TCP with the global one.
pub open spec fn initiated_strategy(m: DrainManagerView, is_http: bool, http_drain_timeout: Option<u128>) -> DrainStrategy {
    if is_http {
        DrainStrategy::Http {
            global_timeout: m.global_drain_timeout,
            drain_timeout: match http_drain_timeout {
                Some(t) => t,
                None => m.default_http_drain_timeout,
            },
        }
    } else {
        DrainStrategy::Tcp { global_timeout: m.global_drain_timeout }
    }
}

/// The monitor's decision: a completed drain ends, else a timed-out one is
/// forced to end, else the wait goes on.
pub open spec fn drain_step(completed: bool, timed_out: bool) -> DrainProgress {
    if completed {
        DrainProgress::Completed
    } else if timed_out {
        DrainProgress::ForceCompleted
    } else {
        DrainProgress::Continue
    }
}

/// Decides the monitor's next step.
pub fn drain_step_of(completed: bool, timed_out: bool) -> (r: DrainProgress)
    ensures
        r == drain_step(completed, timed_out),
{
    if completed {
        DrainProgress::Completed
    } else if timed_out {
        DrainProgress::ForceCompleted
    } else {
        DrainProgress::Continue
    }
}

/// The outcome of waiting for all drains to end: done when no listener
/// drains any more, else the timeout error.
pub fn drain_wait_outcome(still_draining: bool) -> (r: Result<(), DrainError>)
    ensures
        r == if still_draining {
            Err::<(), DrainError>(DrainError::Timeout)
        } else {
            Ok::<(), DrainError>(())
        },
{
    if still_draining {
        Err(DrainError::Timeout)
    } else {
        Ok(())
    }
}

/// Handles the connections of listeners that are not drained specially.
#[derive(Debug)]
pub struct DefaultConnectionHandler {}

impl DefaultConnectionHandler {
    pub fn new() -> (r: Self)
        ensures
            r == (DefaultConnectionHandler {}),
    {
        Self {}
    }

    /// Registers a connection; the default handler keeps nothing.
    pub fn register_connection(_connection_id: String, _peer_addr: String) {
    }
}

impl Default for DefaultConnectionHandler {
    fn default() -> (r: Self)
        ensures
            r == (DefaultConnectionHandler {}),
    {
        Self::new()
    }
}

impl Default for DrainSignalingManager {
    fn default() -> (r: Self)
        ensures
            r@.contexts == Map::<Seq<char>, DrainContextView>::empty(),
            r@.global_drain_timeout == DEFAULT_GLOBAL_DRAIN_TIMEOUT,
            r@.default_http_drain_timeout == DEFAULT_HTTP_DRAIN_TIMEOUT,
            r@.listener_drain_state is None,
    {
        Self::new()
    }
}

/// A completed drain stays completed whatever count is reported later,
/// and a drain with no connection left is completed.
pub proof fn law_drain_completion_is_final(c: DrainContextView, count: usize)
    ensures
        c.completed ==> (DrainContextView { active_connections: count, completed: c.completed || count == 0, ..c }).completed,
        count == 0 ==> (DrainContextView { active_connections: count, completed: c.completed || count == 0, ..c }).completed,
{
}

/// The monitor ends a completed drain whatever the time, and forces the
/// end of a drain past its timeout only when it has not completed.
pub proof fn law_completed_drain_is_never_forced(timed_out: bool)
    ensures
        drain_step(true, timed_out) == DrainProgress::Completed,
        drain_step(false, true) == DrainProgress::ForceCompleted,
        drain_step(false, false) == DrainProgress::Continue,
{
}

/// A listener-wide drain tells HTTP/1.1 clients to close (a
/// `Connection: close` on each response) when its behavior is `Auto` or
/// HTTP/1.1 with `connection_close`; an HTTP/2 or TCP drain, or HTTP/1.1
/// without `connection_close`, adds nothing.
pub proof fn law_drain_behaviors_that_close_http1(b: ProtocolDrainBehavior)
    ensures
        b == ProtocolDrainBehavior::Auto ==> closes_http1(b),
        b == (ProtocolDrainBehavior::Http1 { connection_close: true }) ==> closes_http1(b),
        b == (ProtocolDrainBehavior::Http1 { connection_close: false }) ==> !closes_http1(b),
        b == ProtocolDrainBehavior::Http2 || b == ProtocolDrainBehavior::Tcp ==> !closes_http1(b),
        close_value() == seq![99u8, 108u8, 111u8, 115u8, 101u8],
{
}

} // verus!
