//! The decisions of the HTTP connection manager around a route: the
//! request filters of the chosen route (which may answer at once or send
//! the request to be routed again), the detection of a routing loop, the
//! order of the response filters and header modifiers, and the access log
//! entry written when both bodies of a transaction have ended.

use vstd::prelude::*;
use crate::hcm::{TransactionComplete, TransactionPhases};
use crate::filter_decision::{ResponseFlag, SyntheticResponse};

verus! {

/// What a request filter decided, as far as routing is concerned.
#[derive(Debug, Clone, Copy, PartialEq, Eq, Structural)]
pub enum RequestFilterVerdict {
    /// The request goes on.
    Continue,
    /// The request is to be routed again.
    Reroute,
    /// The filter answered the request.
    DirectResponse,
}

/// A request filter of a route: whether it is disabled, and what it
/// decided (none when no filter is configured in its place).
#[derive(Debug, Clone, Copy, PartialEq, Eq, Structural)]
pub struct RequestFilterRun {
    pub disabled: bool,
    pub verdict: Option<RequestFilterVerdict>,
}

/// What the request filters of a route decide together.
#[derive(Debug, Clone, Copy, PartialEq, Eq, Structural)]
pub enum FiltersOutcome {
    /// All went on: the route's action runs.
    Proceed,
    /// A filter asked to route the request again.
    Reroute,
    /// The filter at this position answered the request.
    Respond(usize),
}

/// The outcome of the filters from position `i` on: the first enabled
/// filter that reroutes or answers decides, else the request goes on.
pub open spec fn outcome_from(runs: Seq<RequestFilterRun>, i: int) -> FiltersOutcome
    decreases runs.len() - i,
{
    if i < 0 || i >= runs.len() {
        FiltersOutcome::Proceed
    } else if !runs[i].disabled && runs[i].verdict == Some(RequestFilterVerdict::Reroute) {
        FiltersOutcome::Reroute
    } else if !runs[i].disabled && runs[i].verdict == Some(RequestFilterVerdict::DirectResponse) {
        FiltersOutcome::Respond(i as usize)
    } else {
        outcome_from(runs, i + 1)
    }
}

/// The outcome of a route's request filters, in order.
pub fn request_filters_outcome(runs: &Vec<RequestFilterRun>) -> (r: FiltersOutcome)
    ensures
        r == outcome_from(runs@, 0),
{
    let mut i: usize = 0;
    while i < runs.len()
        invariant
            i <= runs@.len(),
            outcome_from(runs@, i as int) == outcome_from(runs@, 0),
        decreases runs@.len() - i,
    {
        let run = runs[i];
        if !run.disabled {
            match run.verdict {
                Some(RequestFilterVerdict::Reroute) => {
                    return FiltersOutcome::Reroute;
                },
                Some(RequestFilterVerdict::DirectResponse) => {
                    return FiltersOutcome::Respond(i);
                },
                _ => {},
            }
        }
        i += 1;
    }
    FiltersOutcome::Proceed
}

/// The next step of routing a request.
#[derive(Debug, Clone, Copy, PartialEq, Eq, Structural)]
pub enum RoutingStep {
    /// No route matches: the answer is "not found".
    NotFound,
    /// The matched route rerouted before: routing loops.
    LoopDetected,
    /// The matched route's request filters run.
    RunFilters(u64),
}

/// The answer to a request that no route takes: `404 Not Found`, without a
/// body, flagged as no route found.
pub open spec fn is_route_not_found(r: SyntheticResponse) -> bool {
    r.status == 404 && r.message is None && r.flag == ResponseFlag::NoRouteFound
}

/// The answer to a request that no route takes.
pub fn route_not_found() -> (r: SyntheticResponse)
    ensures
        is_route_not_found(r),
{
    SyntheticResponse { status: 404, message: None, flag: ResponseFlag::NoRouteFound }
}

/// What a connection manager does with a request before routing it: without
/// a route configuration the request is answered at once as not found
/// (`Some`); with one, routing goes on (`None`).
pub fn answer_without_route_configuration(has_route_configuration: bool) -> (r: Option<SyntheticResponse>)
    ensures
        has_route_configuration <==> r is None,
        r matches Some(resp) ==> is_route_not_found(resp),
{
    if has_route_configuration {
        None
    } else {
        Some(route_not_found())
    }
}

/// The routes that rerouted a request so far, by the identity of their
/// route match.
#[derive(Debug)]
pub struct RoutingLoop {
    processed: Vec<u64>,
}

impl RoutingLoop {
    /// The routes that rerouted, in the order they did.
    pub closed spec fn rerouted(&self) -> Seq<u64> {
        self.processed@
    }

    /// No route rerouted yet.
    pub fn new() -> (r: Self)
        ensures
            r.rerouted() == Seq::<u64>::empty(),
    {
        RoutingLoop { processed: Vec::new() }
    }

    /// What follows a route match: "not found" without a route; a routing
    /// loop when the route rerouted before; else the route's filters run.
    pub fn on_match(&self, matched: Option<u64>) -> (r: RoutingStep)
        ensures
            r == match matched {
                None => RoutingStep::NotFound,
                Some(route) => if self.rerouted().contains(route) {
                    RoutingStep::LoopDetected
                } else {
                    RoutingStep::RunFilters(route)
                },
            },
    {
        match matched {
            None => RoutingStep::NotFound,
            Some(route) => {
                let mut i: usize = 0;
                while i < self.processed.len()
                    invariant
                        i <= self.processed@.len(),
                        matched == Some(route),
                        forall|k: int| 0 <= k < i ==> self.processed@[k] != route,
                    decreases self.processed@.len() - i,
                {
                    if self.processed[i] == route {
                        assert(self.processed@[i as int] == route);
                        return RoutingStep::LoopDetected;
                    }
                    i += 1;
                }
                RoutingStep::RunFilters(route)
            },
        }
    }

    /// Records that the route rerouted the request.
    pub fn mark_rerouted(&mut self, route: u64)
        ensures
            final(self).rerouted() == old(self).rerouted().push(route),
    {
        self.processed.push(route);
    }
}

/// How the route configuration routes a request.
#[derive(Debug, Clone, Copy, PartialEq, Eq, Structural)]
pub enum RouteConfigOutcome {
    /// No route matches: the answer is "not found".
    NotFound,
    /// The route's filters rerouted the request onto a route that already
    /// rerouted it: routing loops.
    LoopDetected,
    /// The filter at this position of the route's filters answered.
    Respond(u64, usize),
    /// The route's action runs.
    Route(u64),
}

/// How routing ends for a request that matches `matched`, whose route's
/// request filters decide `filters` (none when the route has no filters).
/// The filters only read the request, and the configuration does not
/// change meanwhile, so routing again matches the same route: a reroute
/// always ends as a routing loop, after one pass of the filters.
pub open spec fn route_config_outcome(matched: Option<u64>, filters: Option<FiltersOutcome>) -> RouteConfigOutcome {
    match matched {
        None => RouteConfigOutcome::NotFound,
        Some(route) => match filters {
            None => RouteConfigOutcome::Route(route),
            Some(FiltersOutcome::Proceed) => RouteConfigOutcome::Route(route),
            Some(FiltersOutcome::Respond(i)) => RouteConfigOutcome::Respond(route, i),
            Some(FiltersOutcome::Reroute) => RouteConfigOutcome::LoopDetected,
        },
    }
}

/// Routes a request through the route configuration: match a route, stop
/// when none matches or when it rerouted before, else run its request
/// filters, and route again after a reroute. The route's filters run at
/// most once; the loop makes at most two passes.
pub fn route_with_configuration(matched: Option<u64>, filters: Option<FiltersOutcome>) -> (r: RouteConfigOutcome)
    ensures
        r == route_config_outcome(matched, filters),
{
    let mut tracker = RoutingLoop::new();
    let mut passes: usize = 0;
    loop
        invariant
            passes <= 1,
            passes == 0 ==> tracker.rerouted() == Seq::<u64>::empty(),
            passes == 1 ==> (matched matches Some(route) && tracker.rerouted() == seq![route]
                && filters == Some(FiltersOutcome::Reroute)),
        decreases 2 - passes,
    {
        match tracker.on_match(matched) {
            RoutingStep::NotFound => {
                return RouteConfigOutcome::NotFound;
            },
            RoutingStep::LoopDetected => {
                return RouteConfigOutcome::LoopDetected;
            },
            RoutingStep::RunFilters(route) => {
                proof {
                    if passes == 1 {
                        assert(tracker.rerouted()[0] == route);
                    }
                }
                match filters {
                    None => {
                        return RouteConfigOutcome::Route(route);
                    },
                    Some(FiltersOutcome::Proceed) => {
                        return RouteConfigOutcome::Route(route);
                    },
                    Some(FiltersOutcome::Respond(i)) => {
                        return RouteConfigOutcome::Respond(route, i);
                    },
                    Some(FiltersOutcome::Reroute) => {
                        tracker.mark_rerouted(route);
                        assert(tracker.rerouted() =~= seq![route]);
                        passes = passes + 1;
                    },
                }
            },
        }
    }
}

/// The positions of the response filters that run, in the order they
/// run: the enabled filters that are configured, last first.
pub open spec fn response_filter_order(disabled: Seq<bool>, present: Seq<bool>) -> Seq<usize>
    decreases disabled.len(),
{
    if disabled.len() == 0 {
        Seq::empty()
    } else {
        let last = (disabled.len() - 1) as int;
        let rest = response_filter_order(disabled.subrange(0, last), present.subrange(0, last));
        if !disabled[last] && present[last] {
            seq![last as usize] + rest
        } else {
            rest
        }
    }
}

/// The positions of the response filters of a route that run, in order.
pub fn response_filters(disabled: &Vec<bool>, present: &Vec<bool>) -> (r: Vec<usize>)
    requires
        disabled@.len() == present@.len(),
    ensures
        r@ == response_filter_order(disabled@, present@),
{
    let mut out: Vec<usize> = Vec::new();
    let mut i: usize = disabled.len();
    assert(disabled@.subrange(0, i as int) =~= disabled@);
    assert(present@.subrange(0, i as int) =~= present@);
    assert(out@ + response_filter_order(disabled@, present@) =~= response_filter_order(disabled@, present@));
    while i > 0
        invariant
            i <= disabled@.len(),
            disabled@.len() == present@.len(),
            out@ + response_filter_order(disabled@.subrange(0, i as int), present@.subrange(0, i as int))
                == response_filter_order(disabled@, present@),
        decreases i,
    {
        let ghost d = disabled@.subrange(0, i as int);
        let ghost p = present@.subrange(0, i as int);
        assert(d.subrange(0, i - 1) =~= disabled@.subrange(0, i - 1));
        assert(p.subrange(0, i - 1) =~= present@.subrange(0, i - 1));
        let ghost before = out@;
        if !disabled[i - 1] && present[i - 1] {
            out.push(i - 1);
            assert(before + response_filter_order(d, p) =~= out@ + response_filter_order(
                disabled@.subrange(0, i - 1),
                present@.subrange(0, i - 1),
            ));
        }
        i -= 1;
    }
    assert(disabled@.subrange(0, 0) =~= Seq::<bool>::empty());
    out
}

/// Where a response header modifier is configured.
#[derive(Debug, Clone, Copy, PartialEq, Eq, Structural)]
pub enum ModifierLevel {
    RouteConfiguration,
    VirtualHost,
    Route,
}

/// The order in which the response header modifiers run: the most
/// specific last when it wins, else first.
pub fn response_modifier_order(most_specific_wins: bool) -> (r: Vec<ModifierLevel>)
    ensures
        most_specific_wins ==> r@ == seq![ModifierLevel::RouteConfiguration, ModifierLevel::VirtualHost, ModifierLevel::Route],
        !most_specific_wins ==> r@ == seq![ModifierLevel::Route, ModifierLevel::VirtualHost, ModifierLevel::RouteConfiguration],
{
    if most_specific_wins {
        vec![ModifierLevel::RouteConfiguration, ModifierLevel::VirtualHost, ModifierLevel::Route]
    } else {
        vec![ModifierLevel::Route, ModifierLevel::VirtualHost, ModifierLevel::RouteConfiguration]
    }
}

/// What the access log holds of the message whose body ended first: its
/// bytes, response flags and event.
#[derive(Debug, Clone, Copy, PartialEq, Eq, Structural)]
pub struct PendingLog<E> {
    pub bytes: u64,
    pub flags: u64,
    pub event: Option<E>,
}

/// What happens when a body ends.
#[derive(Debug, Clone, Copy, PartialEq, Eq, Structural)]
pub enum LogStep<E> {
    /// The transaction is complete: the entry is written with the bytes
    /// received and sent, the event and the flags.
    Finish { received: u64, sent: u64, event: Option<E>, flags: u64 },
    /// The other body is still going: what is known is kept.
    Keep(PendingLog<E>),
}

/// The first of two optional values that is present.
pub open spec fn first_some<E>(a: Option<E>, b: Option<E>) -> Option<E> {
    match a {
        Some(x) => Some(x),
        None => b,
    }
}

fn or_else<E>(a: Option<E>, b: Option<E>) -> (r: Option<E>)
    ensures
        r == first_some(a, b),
{
    match a {
        Some(x) => Some(x),
        None => b,
    }
}

/// The entry written when the second body ends.
pub open spec fn finished_entry<E>(
    is_request: bool,
    kept: PendingLog<E>,
    nbytes: u64,
    initial_flags: u64,
    body_flags: u64,
    initial_event: Option<E>,
    body_event: Option<E>,
) -> LogStep<E> {
    LogStep::Finish {
        received: if is_request { nbytes } else { kept.bytes },
        sent: if is_request { kept.bytes } else { nbytes },
        event: first_some(first_some(kept.event, initial_event), body_event),
        flags: kept.flags | initial_flags | body_flags,
    }
}

/// What is kept when the first body ends.
pub open spec fn kept_entry<E>(nbytes: u64, initial_flags: u64, body_flags: u64, initial_event: Option<E>, body_event: Option<E>) -> LogStep<E> {
    LogStep::Keep(PendingLog { bytes: nbytes, flags: initial_flags | body_flags, event: first_some(initial_event, body_event) })
}

/// A body of the transaction ended, with `nbytes` bytes, its flags and
/// error event; `initial_flags` and `initial_event` come with the message.
/// The phase counter says whether the other body ended before: then the
/// entry is written, the event being the first present of the one kept,
/// the message's and the body's; else what is known is kept.
pub fn on_body_end<E: Copy>(
    phases: &mut TransactionPhases,
    is_request: bool,
    kept: &PendingLog<E>,
    nbytes: u64,
    initial_flags: u64,
    body_flags: u64,
    initial_event: Option<E>,
    body_event: Option<E>,
) -> (r: LogStep<E>)
    ensures
        final(phases).completed() == (if old(phases).completed() == usize::MAX {
            0
        } else {
            (old(phases).completed() + 1) as usize
        }),
        old(phases).completed() > 0 ==> r == finished_entry(is_request, *kept, nbytes, initial_flags, body_flags, initial_event, body_event),
        old(phases).completed() == 0 ==> r == kept_entry(nbytes, initial_flags, body_flags, initial_event, body_event),
{
    let TransactionComplete(complete) = phases.message_complete();
    if complete {
        let event = or_else(or_else(kept.event, initial_event), body_event);
        let flags = kept.flags | initial_flags | body_flags;
        if is_request {
            LogStep::Finish { received: nbytes, sent: kept.bytes, event, flags }
        } else {
            LogStep::Finish { received: kept.bytes, sent: nbytes, event, flags }
        }
    } else {
        LogStep::Keep(PendingLog { bytes: nbytes, flags: initial_flags | body_flags, event: or_else(initial_event, body_event) })
    }
}

/// A route that rerouted a request is never run again for it: matching it
/// again is a routing loop.
pub proof fn law_rerouted_route_loops(before: Seq<u64>, route: u64)
    ensures
        before.push(route).contains(route),
{
    assert(before.push(route)[before.len() as int] == route);
}

} // verus!
