//! External processing of requests and responses (the `ext_proc` filter):
//! the worker's configuration, the processing modes that the processor may
//! override, the buffering of body frames, the message timeout, the
//! statuses that end a processing, and the decisions that turn them into
//! filter decisions.

use vstd::prelude::*;
use crate::filter_decision::{DecisionView, DirectResponse, DirectResponseView, FilterDecision, ResponseFlag, SyntheticResponse};
use crate::headers::{selected, header_name_from_bytes, is_header_value, pairs_of, pair_view, parse_header_name, valid_header_value, HeaderMap};
use crate::mutation::HeaderValue;
use crate::ag_ext_proc::{is_visible_ascii, ImmediateResponse};
use crate::original_dst::{decimal_text, push_decimal};
use vstd::utf8::{decode_utf8, encode_utf8};
use vstd::string::StringSliceAdditionalSpecFns;
use crate::http_parts::{RequestHead, ResponseHead};
use crate::mutation::{
    apply_request_header_mutations, apply_response_header_mutations, mutate_headers, mutated_method, mutated_status,
    mutated_uri, rules_of, verdicts_fit, HeaderMutation, MutationVerdicts,
};

verus! {

/// Errors of the exchange with the external processor.
#[derive(Debug, Clone, PartialEq)]
pub enum ExtProcError {
    /// A timeout ran out.
    Timeout(String),
    /// The processor sent a message of an unsupported type.
    UnsupportedResponseType(String),
    /// The processor closed the connection.
    UnexpectedEof,
    /// The processor's gRPC status reports an error.
    GrpcError(String),
}

/// The processing mode of a worker that observes only.
#[derive(Debug, Clone, Copy, Default)]
pub struct Observability {}

/// The processing mode of a worker that may change what it processes.
#[derive(Debug, Clone, Copy, Default)]
pub struct Processing {}

/// A processing mode: observing only, or processing.
pub trait Mode {
    /// Whether the mode only observes.
    fn observability() -> (r: bool);
}

impl Mode for Observability {
    fn observability() -> (r: bool)
        ensures
            r,
    {
        true
    }
}

impl Mode for Processing {
    fn observability() -> (r: bool)
        ensures
            !r,
    {
        false
    }
}

/// The request half of a transaction.
#[derive(Debug, Clone, Copy, Default)]
pub struct RequestMsg {}

/// The response half of a transaction.
#[derive(Debug, Clone, Copy, Default)]
pub struct ResponseMsg {}

/// Which half of a transaction a processing handles.
pub trait MsgKind {
    /// Whether it is the request half.
    fn is_request() -> (r: bool);
}

impl MsgKind for RequestMsg {
    fn is_request() -> (r: bool)
        ensures
            r,
    {
        true
    }
}

impl MsgKind for ResponseMsg {
    fn is_request() -> (r: bool)
        ensures
            !r,
    {
        false
    }
}

/// A frame of a body: data, or the trailers that end it.
#[derive(Debug)]
pub enum BodyFrame {
    Data(Vec<u8>),
    Trailers(HeaderMap),
}

/// What a body frame holds.
pub enum FrameView {
    Data(Seq<u8>),
    Trailers(Map<Seq<char>, Seq<Seq<u8>>>),
}

impl View for BodyFrame {
    type V = FrameView;

    open spec fn view(&self) -> FrameView {
        match self {
            BodyFrame::Data(d) => FrameView::Data(d@),
            BodyFrame::Trailers(t) => FrameView::Trailers(t@),
        }
    }
}

impl BodyFrame {
    /// Whether the frame holds data.
    pub fn is_data(&self) -> (r: bool)
        ensures
            r == self@ is Data,
    {
        match self {
            BodyFrame::Data(_) => true,
            BodyFrame::Trailers(_) => false,
        }
    }
}

pub open spec fn opt_frame_view(o: Option<BodyFrame>) -> Option<FrameView> {
    match o {
        Some(f) => Some(f@),
        None => None,
    }
}

/// What a frame buffer holds back: a data frame and trailers.
pub type HeldFrames = (Option<FrameView>, Option<FrameView>);

/// A frame parked in a buffer holding `held`: what the buffer then holds,
/// and the data frame pushed out (a data frame replaces the held one, and
/// is dropped when trailers are held; trailers push out the data frame).
pub open spec fn parked(held: HeldFrames, frame: FrameView) -> (HeldFrames, Option<FrameView>) {
    if frame is Data {
        ((if held.1 is Some { None } else { Some(frame) }, held.1), held.0)
    } else {
        ((None, Some(frame)), held.0)
    }
}

/// One frame taken from a buffer holding `held`: the data frame first,
/// then the trailers.
pub open spec fn taken(held: HeldFrames) -> (HeldFrames, Option<FrameView>) {
    if held.0 is Some {
        ((None, held.1), held.0)
    } else {
        ((None, None), held.1)
    }
}

/// The frame, if any, as a sequence.
pub open spec fn opt_seq(o: Option<FrameView>) -> Seq<FrameView> {
    match o {
        Some(f) => seq![f],
        None => Seq::empty(),
    }
}

/// Frames parked one after the other from `held`: what is then held, and
/// the frames pushed out, in order.
pub open spec fn park_all(held: HeldFrames, frames: Seq<FrameView>) -> (HeldFrames, Seq<FrameView>)
    decreases frames.len(),
{
    if frames.len() == 0 {
        (held, Seq::empty())
    } else {
        let (h1, e) = parked(held, frames[0]);
        let (h2, out) = park_all(h1, frames.drop_first());
        (h2, opt_seq(e) + out)
    }
}

/// What taking frames until none is left hands out, in order.
pub open spec fn drained(held: HeldFrames) -> Seq<FrameView> {
    let (h1, e1) = taken(held);
    let (h2, e2) = taken(h1);
    opt_seq(e1) + opt_seq(e2)
}

/// Holds back the last data frame of a body, and its trailers, so that the
/// frame sent last can be marked as the end of the body.
#[derive(Debug)]
pub struct FrameBuffer {
    data_buffer: Option<BodyFrame>,
    trailers_buffer: Option<BodyFrame>,
}

impl FrameBuffer {
    /// The data frame held back.
    pub closed spec fn data(&self) -> Option<FrameView> {
        opt_frame_view(self.data_buffer)
    }

    /// The trailers held back.
    pub closed spec fn trailers(&self) -> Option<FrameView> {
        opt_frame_view(self.trailers_buffer)
    }

    /// What the buffer holds is of the right kind: data in the data slot,
    /// trailers in the trailers slot.
    pub open spec fn well_kinded(&self) -> bool {
        &&& self.data() matches Some(f) ==> f is Data
        &&& self.trailers() matches Some(f) ==> f is Trailers
    }

    /// An empty buffer.
    pub fn new() -> (r: Self)
        ensures
            r.data() is None,
            r.trailers() is None,
    {
        FrameBuffer { data_buffer: None, trailers_buffer: None }
    }

    /// Holds back a frame and hands back the data frame that it pushes out:
    /// a data frame takes the place of the one held back (and is dropped
    /// when trailers were held back already); trailers are held back and
    /// push out the data frame.
    pub fn park(&mut self, frame: BodyFrame) -> (r: Option<BodyFrame>)
        ensures
            opt_frame_view(r) == old(self).data(),
            frame@ is Data ==> final(self).trailers() == old(self).trailers() && final(self).data() == (if old(
                self,
            ).trailers() is Some {
                None
            } else {
                Some(frame@)
            }),
            frame@ is Trailers ==> final(self).data() is None && final(self).trailers() == Some(frame@),
            ((final(self).data(), final(self).trailers()), opt_frame_view(r)) == parked(
                (old(self).data(), old(self).trailers()),
                frame@,
            ),
    {
        if frame.is_data() {
            let mut emitted: Option<BodyFrame> = None;
            std::mem::swap(&mut emitted, &mut self.data_buffer);
            if self.trailers_buffer.is_none() {
                self.data_buffer = Some(frame);
            }
            emitted
        } else {
            let mut emitted: Option<BodyFrame> = None;
            std::mem::swap(&mut emitted, &mut self.data_buffer);
            self.trailers_buffer = Some(frame);
            emitted
        }
    }

    /// Hands back what is held back: the data frame first, then the
    /// trailers.
    pub fn take(&mut self) -> (r: Option<BodyFrame>)
        ensures
            old(self).data() is Some ==> opt_frame_view(r) == old(self).data() && final(self).data() is None
                && final(self).trailers() == old(self).trailers(),
            old(self).data() is None ==> opt_frame_view(r) == old(self).trailers() && final(self).data() is None
                && final(self).trailers() is None,
            ((final(self).data(), final(self).trailers()), opt_frame_view(r)) == taken(
                (old(self).data(), old(self).trailers()),
            ),
    {
        if self.data_buffer.is_some() {
            let mut emitted: Option<BodyFrame> = None;
            std::mem::swap(&mut emitted, &mut self.data_buffer);
            emitted
        } else {
            let mut emitted: Option<BodyFrame> = None;
            std::mem::swap(&mut emitted, &mut self.trailers_buffer);
            emitted
        }
    }

    /// Whether a data frame is held back.
    pub fn has_data(&self) -> (r: bool)
        ensures
            r == self.data() is Some,
    {
        self.data_buffer.is_some()
    }

    /// Whether trailers are held back.
    pub fn has_trailers(&self) -> (r: bool)
        ensures
            r == self.trailers() is Some,
    {
        self.trailers_buffer.is_some()
    }
}

/// Nanoseconds in a millisecond.
pub const NANOS_PER_MILLI: u128 = 1_000_000;

/// The message timeout when none is configured: 200 ms.
pub const DEFAULT_MESSAGE_TIMEOUT: u128 = 200_000_000;

/// The message timeout of a worker, in nanoseconds: how long it waits for
/// the processor, whether the wait is on, and whether the processor
/// extended it already.
#[derive(Debug, Clone, Copy, PartialEq, Eq, Structural)]
pub struct TimeoutState {
    pub duration: u128,
    pub active: bool,
    pub extended: bool,
}

/// The span of a protobuf duration, in nanoseconds: its seconds and its
/// nanoseconds read as unsigned 64-bit numbers, as the worker reads them.
pub open spec fn extension_span(seconds: i64, nanos: i32) -> int {
    (seconds as u64) * 1_000_000_000 + (nanos as u64)
}

/// The largest span that a `Duration` holds, in nanoseconds.
pub open spec fn max_duration_nanos() -> int {
    u64::MAX * 1_000_000_000 + 999_999_999
}

/// The timeout that an extension asks for: under 1 ms it falls back to the
/// configured message timeout; above the maximum it is cut to it.
pub open spec fn extended_timeout(span: int, message_timeout: u128, max_message_timeout: Option<u128>) -> int {
    let t = if span < NANOS_PER_MILLI {
        message_timeout as int
    } else {
        span
    };
    match max_message_timeout {
        Some(max) => if t > max {
            max as int
        } else {
            t
        },
        None => t,
    }
}

impl TimeoutState {
    /// Handles the processor's request to extend the message timeout: the
    /// first one sets the new timeout, a second one is refused (`false`),
    /// and the exchange then ends with an error.
    pub fn handle_timeout_extension(
        &mut self,
        message_timeout: u128,
        max_message_timeout: Option<u128>,
        seconds: i64,
        nanos: i32,
    ) -> (r: bool)
        requires
            extension_span(seconds, nanos) <= max_duration_nanos(),
        ensures
            r == !old(self).extended,
            r ==> final(self).extended && final(self).active == old(self).active && final(self).duration as int
                == extended_timeout(extension_span(seconds, nanos), message_timeout, max_message_timeout),
            !r ==> *final(self) == *old(self),
    {
        if self.extended {
            return false;
        }
        let secs = seconds as u64;
        let ns = nanos as u64;
        let mut timeout: u128 = (secs as u128) * 1_000_000_000 + (ns as u128);
        if timeout < NANOS_PER_MILLI {
            timeout = message_timeout;
        }
        match max_message_timeout {
            Some(max) => {
                if timeout > max {
                    timeout = max;
                }
            },
            None => {},
        }
        self.duration = timeout;
        self.extended = true;
        true
    }
}

/// What a processing hands back when it is ready.
#[derive(Debug)]
pub struct ReadyStatus {
    pub headers_modifications: Option<HeaderMutation>,
    pub clear_route_cache: bool,
}

/// How a processing ends.
#[derive(Debug)]
pub enum ProcessingStatus {
    RequestReady(ReadyStatus),
    ResponseReady(ReadyStatus),
    /// The processing stopped on an error, and the message goes on.
    HaltedOnError,
    /// A response is sent at once.
    EndWithDirectResponse(DirectResponse),
}

/// The status after the message timeout ran out: with `failure_mode_allow`
/// the message goes on, else a gateway timeout (504) is sent.
pub fn status_timeout(failure_mode_allow: bool) -> (r: ProcessingStatus)
    ensures
        failure_mode_allow ==> r is HaltedOnError,
        !failure_mode_allow ==> (r matches ProcessingStatus::EndWithDirectResponse(d) && d@ == DirectResponseView::Synthetic(
            504,
            None,
            ResponseFlag::UpstreamRequestTimeout,
        )),
{
    if failure_mode_allow {
        ProcessingStatus::HaltedOnError
    } else {
        ProcessingStatus::EndWithDirectResponse(
            DirectResponse::Synthetic(SyntheticResponse { status: 504, message: None, flag: ResponseFlag::UpstreamRequestTimeout }),
        )
    }
}

/// The status after an error: with `failure_mode_allow` the message goes
/// on, else an internal error (500) with the message is sent.
pub fn status_error(msg: &str, failure_mode_allow: bool) -> (r: ProcessingStatus)
    ensures
        failure_mode_allow ==> r is HaltedOnError,
        !failure_mode_allow ==> (r matches ProcessingStatus::EndWithDirectResponse(d) && d@ == DirectResponseView::Synthetic(
            500,
            Some(msg@),
            ResponseFlag::NoFilterConfigFound,
        )),
{
    if failure_mode_allow {
        ProcessingStatus::HaltedOnError
    } else {
        ProcessingStatus::EndWithDirectResponse(
            DirectResponse::Synthetic(
                SyntheticResponse { status: 500, message: Some(msg.to_owned()), flag: ResponseFlag::NoFilterConfigFound },
            ),
        )
    }
}

/// The status after the processor broke the protocol: an internal error
/// (500) with the message, whatever the failure mode.
pub fn status_internal_error(msg: &str) -> (r: ProcessingStatus)
    ensures
        r matches ProcessingStatus::EndWithDirectResponse(d) && d@ == DirectResponseView::Synthetic(
            500,
            Some(msg@),
            ResponseFlag::UnauthorizedExternalService,
        ),
{
    ProcessingStatus::EndWithDirectResponse(
        DirectResponse::Synthetic(
            SyntheticResponse { status: 500, message: Some(msg.to_owned()), flag: ResponseFlag::UnauthorizedExternalService },
        ),
    )
}

/// The decision after the filter failed: with `failure_mode_allow` the
/// message goes on, else an error response is sent, with the given status
/// or 500.
pub fn on_filter_error(failure_mode_allow: bool, status_code: Option<u16>) -> (r: FilterDecision)
    ensures
        failure_mode_allow ==> r is Continue,
        !failure_mode_allow ==> r@ == DecisionView::DirectResponse(
            DirectResponseView::Synthetic(
                match status_code {
                    Some(c) => c,
                    None => 500,
                },
                None,
                ResponseFlag::UpstreamConnectionFailure,
            ),
        ),
{
    if failure_mode_allow {
        FilterDecision::Continue
    } else {
        let status = match status_code {
            Some(c) => c,
            None => 500,
        };
        FilterDecision::DirectResponse(
            DirectResponse::Synthetic(SyntheticResponse { status, message: None, flag: ResponseFlag::UpstreamConnectionFailure }),
        )
    }
}

/// Whether the route cache is cleared after the processor's answer.
#[derive(Debug, Clone, Copy, PartialEq, Eq, Structural)]
pub enum RouteCacheAction {
    /// As the processor's answer says.
    Default,
    /// Always.
    Clear,
    /// Never.
    Retain,
}

/// Decides whether the route cache is cleared.
pub fn should_clear_route_cache(action: RouteCacheAction, requested: bool) -> (r: bool)
    ensures
        r == match action {
            RouteCacheAction::Clear => true,
            RouteCacheAction::Retain => false,
            RouteCacheAction::Default => requested,
        },
{
    match action {
        RouteCacheAction::Clear => true,
        RouteCacheAction::Retain => false,
        RouteCacheAction::Default => requested,
    }
}

/// The decision after the filter failed, as `on_filter_error` makes it
/// without a status.
pub open spec fn error_decision(failure_mode_allow: bool) -> DecisionView {
    if failure_mode_allow {
        DecisionView::Continue
    } else {
        DecisionView::DirectResponse(DirectResponseView::Synthetic(500, None, ResponseFlag::UpstreamConnectionFailure))
    }
}

/// The name of the `content-length` header.
pub open spec fn content_length_name() -> Seq<char> {
    "content-length"@
}

/// The verdicts fit the header mutation that a ready status carries.
pub open spec fn reply_fits(reply: Option<ProcessingStatus>, rules: Option<MutationVerdicts>) -> bool {
    match reply {
        Some(ProcessingStatus::RequestReady(r)) => match r.headers_modifications {
            Some(m) => verdicts_fit(m, rules),
            None => true,
        },
        Some(ProcessingStatus::ResponseReady(r)) => match r.headers_modifications {
            Some(m) => verdicts_fit(m, rules),
            None => true,
        },
        _ => true,
    }
}

/// Turns the status that ends the processing of a request into the
/// filter's decision, changing the request as the status says: a missing
/// status or a response status is a filter error; an error status lets the
/// request go on; a direct response is sent; a ready status applies its
/// header mutation (an invalid one is a filter error), drops
/// `content-length`, and reroutes when the route cache is to be cleared.
pub fn finish_request(
    reply: Option<ProcessingStatus>,
    request: &mut RequestHead,
    mutation_rules: Option<&MutationVerdicts>,
    failure_mode_allow: bool,
) -> (r: FilterDecision)
    requires
        reply_fits(reply, rules_of(mutation_rules)),
    ensures
        match reply {
            None => r@ == error_decision(failure_mode_allow) && final(request)@ == old(request)@,
            Some(ProcessingStatus::HaltedOnError) => r is Continue && final(request)@ == old(request)@,
            Some(ProcessingStatus::EndWithDirectResponse(d)) => r@ == DecisionView::DirectResponse(d@)
                && final(request)@ == old(request)@,
            Some(ProcessingStatus::ResponseReady(_)) => r@ == error_decision(failure_mode_allow) && final(request)@
                == old(request)@,
            Some(ProcessingStatus::RequestReady(ready)) => match ready.headers_modifications {
                Some(m) => {
                    let rules = rules_of(mutation_rules);
                    let (h, f) = mutate_headers(old(request)@.headers, m, rules);
                    &&& final(request)@.method == mutated_method(old(request)@.method, m, rules)
                    &&& final(request)@.uri == mutated_uri(old(request)@.uri, m, rules)
                    &&& f is Some ==> r@ == error_decision(failure_mode_allow) && final(request)@.headers == h
                    &&& f is None ==> final(request)@.headers == h.remove(content_length_name()) && r@ == (if ready.clear_route_cache {
                        DecisionView::Reroute
                    } else {
                        DecisionView::Continue
                    })
                },
                None => final(request)@.method == old(request)@.method && final(request)@.uri == old(request)@.uri
                    && final(request)@.headers == old(request)@.headers.remove(content_length_name()) && r@ == (
                if ready.clear_route_cache {
                    DecisionView::Reroute
                } else {
                    DecisionView::Continue
                }),
            },
        },
{
    proof {
        reveal_strlit("content-length");
    }
    match reply {
        None => on_filter_error(failure_mode_allow, None),
        Some(ProcessingStatus::HaltedOnError) => FilterDecision::Continue,
        Some(ProcessingStatus::EndWithDirectResponse(d)) => FilterDecision::DirectResponse(d),
        Some(ProcessingStatus::ResponseReady(_)) => on_filter_error(failure_mode_allow, None),
        Some(ProcessingStatus::RequestReady(ready)) => {
            match &ready.headers_modifications {
                Some(m) => {
                    if apply_request_header_mutations(request, m, mutation_rules).is_err() {
                        return on_filter_error(failure_mode_allow, None);
                    }
                },
                None => {},
            }
            request.headers.remove("content-length");
            if ready.clear_route_cache {
                FilterDecision::Reroute
            } else {
                FilterDecision::Continue
            }
        },
    }
}

/// Turns the status that ends the processing of a response into the
/// filter's decision, as `finish_request` does for requests.
pub fn finish_response(
    reply: Option<ProcessingStatus>,
    response: &mut ResponseHead,
    mutation_rules: Option<&MutationVerdicts>,
    failure_mode_allow: bool,
) -> (r: FilterDecision)
    requires
        reply_fits(reply, rules_of(mutation_rules)),
    ensures
        match reply {
            None => r@ == error_decision(failure_mode_allow) && final(response)@ == old(response)@,
            Some(ProcessingStatus::HaltedOnError) => r is Continue && final(response)@ == old(response)@,
            Some(ProcessingStatus::EndWithDirectResponse(d)) => r@ == DecisionView::DirectResponse(d@)
                && final(response)@ == old(response)@,
            Some(ProcessingStatus::RequestReady(_)) => r@ == error_decision(failure_mode_allow) && final(response)@
                == old(response)@,
            Some(ProcessingStatus::ResponseReady(ready)) => match ready.headers_modifications {
                Some(m) => {
                    let rules = rules_of(mutation_rules);
                    let (h, f) = mutate_headers(old(response)@.headers, m, rules);
                    &&& final(response)@.status == mutated_status(old(response)@.status, m, rules)
                    &&& f is Some ==> r@ == error_decision(failure_mode_allow) && final(response)@.headers == h
                    &&& f is None ==> final(response)@.headers == h.remove(content_length_name()) && r@ == (
                    if ready.clear_route_cache {
                        DecisionView::Reroute
                    } else {
                        DecisionView::Continue
                    })
                },
                None => final(response)@.status == old(response)@.status && final(response)@.headers
                    == old(response)@.headers.remove(content_length_name()) && r@ == (if ready.clear_route_cache {
                    DecisionView::Reroute
                } else {
                    DecisionView::Continue
                }),
            },
        },
{
    proof {
        reveal_strlit("content-length");
    }
    match reply {
        None => on_filter_error(failure_mode_allow, None),
        Some(ProcessingStatus::HaltedOnError) => FilterDecision::Continue,
        Some(ProcessingStatus::EndWithDirectResponse(d)) => FilterDecision::DirectResponse(d),
        Some(ProcessingStatus::RequestReady(_)) => on_filter_error(failure_mode_allow, None),
        Some(ProcessingStatus::ResponseReady(ready)) => {
            match &ready.headers_modifications {
                Some(m) => {
                    if apply_response_header_mutations(response, m, mutation_rules).is_err() {
                        return on_filter_error(failure_mode_allow, None);
                    }
                },
                None => {},
            }
            response.headers.remove("content-length");
            if ready.clear_route_cache {
                FilterDecision::Reroute
            } else {
                FilterDecision::Continue
            }
        },
    }
}

/// Whether the processor receives the headers.
#[derive(Debug, Clone, Copy, PartialEq, Eq, Structural)]
pub enum HeaderProcessingMode {
    Default,
    Send,
    Skip,
}

/// How the processor receives the body.
#[derive(Debug, Clone, Copy, PartialEq, Eq, Structural)]
pub enum BodyProcessingMode {
    /// The body is not sent (Envoy's `NONE`).
    NotSent,
    Streamed,
    Buffered,
    BufferedPartial,
    FullDuplexStreamed,
}

/// Whether the processor receives the trailers.
#[derive(Debug, Clone, Copy, PartialEq, Eq, Structural)]
pub enum TrailerProcessingMode {
    Default,
    Send,
    Skip,
}

/// What the processor receives of requests and responses.
#[derive(Debug, Clone, Copy, PartialEq, Eq, Structural)]
pub struct ProcessingMode {
    pub request_header_mode: HeaderProcessingMode,
    pub response_header_mode: HeaderProcessingMode,
    pub request_body_mode: BodyProcessingMode,
    pub response_body_mode: BodyProcessingMode,
    pub request_trailer_mode: TrailerProcessingMode,
    pub response_trailer_mode: TrailerProcessingMode,
}

impl Default for ProcessingMode {
    fn default() -> (r: Self)
        ensures
            r == (ProcessingMode {
                request_header_mode: HeaderProcessingMode::Default,
                response_header_mode: HeaderProcessingMode::Default,
                request_body_mode: BodyProcessingMode::NotSent,
                response_body_mode: BodyProcessingMode::NotSent,
                request_trailer_mode: TrailerProcessingMode::Default,
                response_trailer_mode: TrailerProcessingMode::Default,
            }),
    {
        ProcessingMode {
            request_header_mode: HeaderProcessingMode::Default,
            response_header_mode: HeaderProcessingMode::Default,
            request_body_mode: BodyProcessingMode::NotSent,
            response_body_mode: BodyProcessingMode::NotSent,
            request_trailer_mode: TrailerProcessingMode::Default,
            response_trailer_mode: TrailerProcessingMode::Default,
        }
    }
}

/// The modes that the processor asks for, as the numbers of Envoy's
/// processing mode message.
#[derive(Debug, Clone, Copy, PartialEq, Eq, Structural)]
pub struct EnvoyProcessingMode {
    pub request_header_mode: i32,
    pub response_header_mode: i32,
    pub request_body_mode: i32,
    pub response_body_mode: i32,
    pub request_trailer_mode: i32,
    pub response_trailer_mode: i32,
}

/// The header mode a number stands for (0 default, 1 send, 2 skip).
pub open spec fn header_mode_of(n: i32) -> Option<HeaderProcessingMode> {
    if n == 0 {
        Some(HeaderProcessingMode::Default)
    } else if n == 1 {
        Some(HeaderProcessingMode::Send)
    } else if n == 2 {
        Some(HeaderProcessingMode::Skip)
    } else {
        None
    }
}

/// The body mode a number stands for (0 none, 1 streamed, 2 buffered, 3
/// buffered partial, 4 full duplex streamed).
pub open spec fn body_mode_of(n: i32) -> Option<BodyProcessingMode> {
    if n == 0 {
        Some(BodyProcessingMode::NotSent)
    } else if n == 1 {
        Some(BodyProcessingMode::Streamed)
    } else if n == 2 {
        Some(BodyProcessingMode::Buffered)
    } else if n == 3 {
        Some(BodyProcessingMode::BufferedPartial)
    } else if n == 4 {
        Some(BodyProcessingMode::FullDuplexStreamed)
    } else {
        None
    }
}

/// The trailer mode a number stands for (0 default, 1 send, 2 skip).
pub open spec fn trailer_mode_of(n: i32) -> Option<TrailerProcessingMode> {
    if n == 0 {
        Some(TrailerProcessingMode::Default)
    } else if n == 1 {
        Some(TrailerProcessingMode::Send)
    } else if n == 2 {
        Some(TrailerProcessingMode::Skip)
    } else {
        None
    }
}

fn header_mode_from(n: i32) -> (r: Option<HeaderProcessingMode>)
    ensures
        r == header_mode_of(n),
{
    if n == 0 {
        Some(HeaderProcessingMode::Default)
    } else if n == 1 {
        Some(HeaderProcessingMode::Send)
    } else if n == 2 {
        Some(HeaderProcessingMode::Skip)
    } else {
        None
    }
}

fn body_mode_from(n: i32) -> (r: Option<BodyProcessingMode>)
    ensures
        r == body_mode_of(n),
{
    if n == 0 {
        Some(BodyProcessingMode::NotSent)
    } else if n == 1 {
        Some(BodyProcessingMode::Streamed)
    } else if n == 2 {
        Some(BodyProcessingMode::Buffered)
    } else if n == 3 {
        Some(BodyProcessingMode::BufferedPartial)
    } else if n == 4 {
        Some(BodyProcessingMode::FullDuplexStreamed)
    } else {
        None
    }
}

fn trailer_mode_from(n: i32) -> (r: Option<TrailerProcessingMode>)
    ensures
        r == trailer_mode_of(n),
{
    if n == 0 {
        Some(TrailerProcessingMode::Default)
    } else if n == 1 {
        Some(TrailerProcessingMode::Send)
    } else if n == 2 {
        Some(TrailerProcessingMode::Skip)
    } else {
        None
    }
}

/// The overrides of the modes that the processor asked for and that are
/// accepted.
#[derive(Debug, Clone, Copy, PartialEq, Eq, Structural)]
pub struct ModeOverrides {
    pub header: Option<HeaderProcessingMode>,
    pub body: Option<BodyProcessingMode>,
    pub trailer: Option<TrailerProcessingMode>,
}

/// The modes that `Default` gives.
pub open spec fn default_mode() -> ProcessingMode {
    ProcessingMode {
        request_header_mode: HeaderProcessingMode::Default,
        response_header_mode: HeaderProcessingMode::Default,
        request_body_mode: BodyProcessingMode::NotSent,
        response_body_mode: BodyProcessingMode::NotSent,
        request_trailer_mode: TrailerProcessingMode::Default,
        response_trailer_mode: TrailerProcessingMode::Default,
    }
}

/// A mode (the `field` of `target`) is allowed when no allowed modes are
/// listed, or one of them has it.
pub open spec fn allowed_for(allowed_modes: Seq<ProcessingMode>, field: ModeField, target: ProcessingMode) -> bool {
    allowed_modes.len() == 0 || exists|i: int|
        0 <= i < allowed_modes.len() && #[trigger] same_field(allowed_modes[i], target, field)
}

/// The overrides of the request modes: the body mode when it is known and
/// allowed, the trailer mode when it is known, not `Default`, and allowed.
/// Request headers are not overridden.
pub open spec fn request_overrides(m: EnvoyProcessingMode, allowed_modes: Seq<ProcessingMode>) -> ModeOverrides {
    ModeOverrides {
        header: None,
        body: match body_mode_of(m.request_body_mode) {
            Some(b) => if allowed_for(allowed_modes, ModeField::RequestBody, ProcessingMode { request_body_mode: b, ..default_mode() }) {
                Some(b)
            } else {
                None
            },
            None => None,
        },
        trailer: match trailer_mode_of(m.request_trailer_mode) {
            Some(t) => if t != TrailerProcessingMode::Default && allowed_for(
                allowed_modes,
                ModeField::RequestTrailer,
                ProcessingMode { request_trailer_mode: t, ..default_mode() },
            ) {
                Some(t)
            } else {
                None
            },
            None => None,
        },
    }
}

/// The overrides of the response modes: the header mode when it is known,
/// not `Default`, and allowed; the body and trailer modes as for requests.
pub open spec fn response_overrides(m: EnvoyProcessingMode, allowed_modes: Seq<ProcessingMode>) -> ModeOverrides {
    ModeOverrides {
        header: match header_mode_of(m.response_header_mode) {
            Some(h) => if h != HeaderProcessingMode::Default && allowed_for(
                allowed_modes,
                ModeField::ResponseHeader,
                ProcessingMode { response_header_mode: h, ..default_mode() },
            ) {
                Some(h)
            } else {
                None
            },
            None => None,
        },
        body: match body_mode_of(m.response_body_mode) {
            Some(b) => if allowed_for(allowed_modes, ModeField::ResponseBody, ProcessingMode { response_body_mode: b, ..default_mode() }) {
                Some(b)
            } else {
                None
            },
            None => None,
        },
        trailer: match trailer_mode_of(m.response_trailer_mode) {
            Some(t) => if t != TrailerProcessingMode::Default && allowed_for(
                allowed_modes,
                ModeField::ResponseTrailer,
                ProcessingMode { response_trailer_mode: t, ..default_mode() },
            ) {
                Some(t)
            } else {
                None
            },
            None => None,
        },
    }
}

/// Which of the six modes a check reads.
#[derive(Debug, Clone, Copy, PartialEq, Eq, Structural)]
pub enum ModeField {
    RequestBody,
    RequestTrailer,
    ResponseHeader,
    ResponseBody,
    ResponseTrailer,
}

fn any_allowed(allowed_modes: &Vec<ProcessingMode>, field: ModeField, target: ProcessingMode) -> (r: bool)
    ensures
        r == allowed_for(allowed_modes@, field, target),
{
    if allowed_modes.len() == 0 {
        return true;
    }
    let mut i: usize = 0;
    while i < allowed_modes.len()
        invariant
            i <= allowed_modes@.len(),
            forall|t: int| 0 <= t < i ==> !same_field(#[trigger] allowed_modes@[t], target, field),
        decreases allowed_modes@.len() - i,
    {
        let a = allowed_modes[i];
        let same = match field {
            ModeField::RequestBody => a.request_body_mode == target.request_body_mode,
            ModeField::RequestTrailer => a.request_trailer_mode == target.request_trailer_mode,
            ModeField::ResponseHeader => a.response_header_mode == target.response_header_mode,
            ModeField::ResponseBody => a.response_body_mode == target.response_body_mode,
            ModeField::ResponseTrailer => a.response_trailer_mode == target.response_trailer_mode,
        };
        if same {
            assert(same_field(allowed_modes@[i as int], target, field));
            return true;
        }
        i += 1;
    }
    false
}

/// Two modes agree on one field.
pub open spec fn same_field(a: ProcessingMode, b: ProcessingMode, field: ModeField) -> bool {
    match field {
        ModeField::RequestBody => a.request_body_mode == b.request_body_mode,
        ModeField::RequestTrailer => a.request_trailer_mode == b.request_trailer_mode,
        ModeField::ResponseHeader => a.response_header_mode == b.response_header_mode,
        ModeField::ResponseBody => a.response_body_mode == b.response_body_mode,
        ModeField::ResponseTrailer => a.response_trailer_mode == b.response_trailer_mode,
    }
}

/// Decides the overrides of the request modes that the processor asks for.
pub fn apply_request_mode_overrides(envoy_mode: &EnvoyProcessingMode, allowed_override_modes: &Vec<ProcessingMode>) -> (r:
    ModeOverrides)
    ensures
        r == request_overrides(*envoy_mode, allowed_override_modes@),
{
    let base = ProcessingMode::default();
    let body = match body_mode_from(envoy_mode.request_body_mode) {
        Some(b) => {
            let target = ProcessingMode { request_body_mode: b, ..base };
            if any_allowed(allowed_override_modes, ModeField::RequestBody, target) {
                Some(b)
            } else {
                None
            }
        },
        None => None,
    };
    let trailer = match trailer_mode_from(envoy_mode.request_trailer_mode) {
        Some(t) => {
            let target = ProcessingMode { request_trailer_mode: t, ..base };
            if t != TrailerProcessingMode::Default && any_allowed(allowed_override_modes, ModeField::RequestTrailer, target) {
                Some(t)
            } else {
                None
            }
        },
        None => None,
    };
    ModeOverrides { header: None, body, trailer }
}

/// Decides the overrides of the response modes that the processor asks for.
pub fn apply_response_mode_overrides(envoy_mode: &EnvoyProcessingMode, allowed_override_modes: &Vec<ProcessingMode>) -> (r:
    ModeOverrides)
    ensures
        r == response_overrides(*envoy_mode, allowed_override_modes@),
{
    let base = ProcessingMode::default();
    let header = match header_mode_from(envoy_mode.response_header_mode) {
        Some(h) => {
            let target = ProcessingMode { response_header_mode: h, ..base };
            if h != HeaderProcessingMode::Default && any_allowed(allowed_override_modes, ModeField::ResponseHeader, target) {
                Some(h)
            } else {
                None
            }
        },
        None => None,
    };
    let body = match body_mode_from(envoy_mode.response_body_mode) {
        Some(b) => {
            let target = ProcessingMode { response_body_mode: b, ..base };
            if any_allowed(allowed_override_modes, ModeField::ResponseBody, target) {
                Some(b)
            } else {
                None
            }
        },
        None => None,
    };
    let trailer = match trailer_mode_from(envoy_mode.response_trailer_mode) {
        Some(t) => {
            let target = ProcessingMode { response_trailer_mode: t, ..base };
            if t != TrailerProcessingMode::Default && any_allowed(allowed_override_modes, ModeField::ResponseTrailer, target) {
                Some(t)
            } else {
                None
            }
        },
        None => None,
    };
    ModeOverrides { header, body, trailer }
}

/// Where the external processor is reached.
#[derive(Debug, Clone, PartialEq)]
pub enum GrpcServiceSpecifier {
    /// Through a cluster of the registry.
    Cluster(String),
    /// At a gRPC target URI.
    GoogleGrpc(String),
}

/// The filter's configuration (durations in nanoseconds).
#[derive(Debug, Clone)]
pub struct ExternalProcessorConfig {
    pub grpc_service: GrpcServiceSpecifier,
    pub message_timeout: Option<u128>,
    pub max_message_timeout: Option<u128>,
    pub observability_mode: bool,
    pub failure_mode_allow: bool,
    pub disable_immediate_response: bool,
    pub processing_mode: Option<ProcessingMode>,
    pub allowed_override_modes: Vec<ProcessingMode>,
    pub allow_mode_override: bool,
    pub route_cache_action: RouteCacheAction,
    pub send_body_without_waiting_for_header_response: bool,
}

/// What a route overrides of the filter's configuration.
#[derive(Debug, Clone)]
pub struct ExtProcOverrides {
    pub processing_mode: Option<ProcessingMode>,
    pub grpc_service: Option<GrpcServiceSpecifier>,
    pub failure_mode_allow: Option<bool>,
}

/// The filter's configuration on a route.
#[derive(Debug, Clone)]
pub struct ExtProcPerRoute {
    pub disabled: bool,
    pub overrides: Option<ExtProcOverrides>,
}

/// The configuration that a worker runs with.
#[derive(Debug, Clone)]
pub struct ExternalProcessingWorkerConfig {
    pub grpc_service_specifier: GrpcServiceSpecifier,
    pub message_timeout: u128,
    pub max_message_timeout: Option<u128>,
    pub observability_mode: bool,
    pub failure_mode_allow: bool,
    pub disable_immediate_response: bool,
    pub processing_mode: ProcessingMode,
    pub allowed_override_modes: Vec<ProcessingMode>,
    pub allow_mode_override: bool,
    pub route_cache_action: RouteCacheAction,
    pub send_body_without_waiting_for_header_response: bool,
}

/// The overrides that apply: those of a route where the filter is not
/// disabled.
pub open spec fn active_overrides(per_route: Option<ExtProcPerRoute>) -> Option<ExtProcOverrides> {
    match per_route {
        Some(p) => if p.disabled {
            None
        } else {
            p.overrides
        },
        None => None,
    }
}

/// A value, or the override when there is one.
pub open spec fn overridden<T>(base: T, o: Option<T>) -> T {
    match o {
        Some(v) => v,
        None => base,
    }
}

/// The worker's configuration: the filter's, with the processing mode
/// (default when unset), the processor and the failure mode that the route
/// overrides, and a message timeout of 200 ms when none is set.
pub fn worker_config_from(config: ExternalProcessorConfig, per_route: Option<ExtProcPerRoute>) -> (r:
    ExternalProcessingWorkerConfig)
    ensures
        ({
            let o = active_overrides(per_route);
            let base_mode = match config.processing_mode {
                Some(m) => m,
                None => default_mode(),
            };
            &&& r.processing_mode == overridden(base_mode, match o {
                Some(x) => x.processing_mode,
                None => None,
            })
            &&& r.grpc_service_specifier == overridden(config.grpc_service, match o {
                Some(x) => x.grpc_service,
                None => None,
            })
            &&& r.failure_mode_allow == overridden(config.failure_mode_allow, match o {
                Some(x) => x.failure_mode_allow,
                None => None,
            })
        }),
        r.message_timeout == match config.message_timeout {
            Some(t) => t,
            None => DEFAULT_MESSAGE_TIMEOUT,
        },
        r.max_message_timeout == config.max_message_timeout,
        r.observability_mode == config.observability_mode,
        r.disable_immediate_response == config.disable_immediate_response,
        r.allowed_override_modes@ == config.allowed_override_modes@,
        r.allow_mode_override == config.allow_mode_override,
        r.route_cache_action == config.route_cache_action,
        r.send_body_without_waiting_for_header_response == config.send_body_without_waiting_for_header_response,
{
    let mut processing_mode = match config.processing_mode {
        Some(m) => m,
        None => ProcessingMode::default(),
    };
    let mut grpc_service = config.grpc_service;
    let mut failure_mode_allow = config.failure_mode_allow;
    match per_route {
        Some(p) => {
            if !p.disabled {
                match p.overrides {
                    Some(o) => {
                        match o.processing_mode {
                            Some(m) => {
                                processing_mode = m;
                            },
                            None => {},
                        }
                        match o.grpc_service {
                            Some(g) => {
                                grpc_service = g;
                            },
                            None => {},
                        }
                        match o.failure_mode_allow {
                            Some(f) => {
                                failure_mode_allow = f;
                            },
                            None => {},
                        }
                    },
                    None => {},
                }
            }
        },
        None => {},
    }
    ExternalProcessingWorkerConfig {
        grpc_service_specifier: grpc_service,
        message_timeout: match config.message_timeout {
            Some(t) => t,
            None => DEFAULT_MESSAGE_TIMEOUT,
        },
        max_message_timeout: config.max_message_timeout,
        observability_mode: config.observability_mode,
        failure_mode_allow,
        disable_immediate_response: config.disable_immediate_response,
        processing_mode,
        allowed_override_modes: config.allowed_override_modes,
        allow_mode_override: config.allow_mode_override,
        route_cache_action: config.route_cache_action,
        send_body_without_waiting_for_header_response: config.send_body_without_waiting_for_header_response,
    }
}

/// A header as the processor receives it: text when its value is visible
/// ASCII, else raw bytes with an empty text.
pub open spec fn envoy_header(name: Seq<char>, raw: Seq<u8>) -> (Seq<char>, Seq<char>, Seq<u8>) {
    if is_visible_ascii(raw) {
        (name, decode_utf8(raw), Seq::empty())
    } else {
        (name, Seq::empty(), raw)
    }
}

pub open spec fn hv_view(h: HeaderValue) -> (Seq<char>, Seq<char>, Seq<u8>) {
    (h.key@, h.value@, h.raw_value@)
}

/// The headers that the processor receives: each header with each value.
pub fn envoy_headers_from(headers: &HeaderMap) -> (r: Vec<HeaderValue>)
    ensures
        r@.map_values(|h: HeaderValue| hv_view(h)) == pairs_of(headers.names(), headers@).map_values(
            |p: (Seq<char>, Seq<u8>)| envoy_header(p.0, p.1),
        ),
{
    let pairs = headers.pairs();
    let ghost pv = pairs@.map_values(|p: (String, Vec<u8>)| pair_view(p));
    let ghost target = pv.map_values(|p: (Seq<char>, Seq<u8>)| envoy_header(p.0, p.1));
    let mut out: Vec<HeaderValue> = Vec::new();
    let mut i: usize = 0;
    while i < pairs.len()
        invariant
            i <= pairs@.len(),
            pv == pairs@.map_values(|p: (String, Vec<u8>)| pair_view(p)),
            target == pv.map_values(|p: (Seq<char>, Seq<u8>)| envoy_header(p.0, p.1)),
            out@.map_values(|h: HeaderValue| hv_view(h)) =~= target.subrange(0, i as int),
        decreases pairs@.len() - i,
    {
        let (name, raw) = (&pairs[i].0, &pairs[i].1);
        let hv = if crate::ag_ext_proc::visible_ascii_bytes(raw.as_slice()) {
            proof {
                crate::ag_ext_proc::lemma_visible_ascii_utf8(raw@);
            }
            match crate::text::utf8_to_string(raw.clone()) {
                Some(text) => HeaderValue { key: name.clone(), value: text, raw_value: Vec::new() },
                None => HeaderValue { key: name.clone(), value: String::new(), raw_value: raw.clone() },
            }
        } else {
            HeaderValue { key: name.clone(), value: String::new(), raw_value: raw.clone() }
        };
        assert(hv_view(hv) == target[i as int]);
        let ghost prev = out@.map_values(|h: HeaderValue| hv_view(h));
        out.push(hv);
        assert(out@.map_values(|h: HeaderValue| hv_view(h)) =~= prev.push(target[i as int]));
        assert(target.subrange(0, i + 1) =~= target.subrange(0, i as int).push(target[i as int]));
        i += 1;
    }
    assert(target.subrange(0, i as int) =~= target);
    out
}

/// The headers that the processor's list stands for, from position `i`
/// on: each header whose name and value are valid is appended (its text
/// when not empty, else its raw bytes); the others are skipped.
pub open spec fn headers_from_envoy(h: Map<Seq<char>, Seq<Seq<u8>>>, list: Seq<HeaderValue>, i: int) -> Map<Seq<char>, Seq<Seq<u8>>>
    decreases list.len() - i,
{
    if i < 0 || i >= list.len() {
        h
    } else {
        let hv = list[i];
        let v = if hv.value@.len() == 0 {
            hv.raw_value@
        } else {
            encode_utf8(hv.value@)
        };
        match header_name_from_bytes(encode_utf8(hv.key@)) {
            Some(n) => if is_header_value(v) {
                headers_from_envoy(
                    h.insert(
                        n,
                        if h.contains_key(n) {
                            h[n].push(v)
                        } else {
                            seq![v]
                        },
                    ),
                    list,
                    i + 1,
                )
            } else {
                headers_from_envoy(h, list, i + 1)
            },
            None => headers_from_envoy(h, list, i + 1),
        }
    }
}

/// The headers that the processor's list stands for.
pub fn envoy_headers_into(list: &Vec<HeaderValue>) -> (r: HeaderMap)
    ensures
        r@ == headers_from_envoy(Map::empty(), list@, 0),
{
    let mut headers = HeaderMap::new();
    let mut i: usize = 0;
    while i < list.len()
        invariant
            i <= list@.len(),
            headers_from_envoy(headers@, list@, i as int) == headers_from_envoy(Map::empty(), list@, 0),
        decreases list@.len() - i,
    {
        let hv = &list[i];
        let name = parse_header_name(hv.key.as_str().as_bytes());
        let empty = String::new();
        let value: Vec<u8> = if hv.value == empty {
            hv.raw_value.clone()
        } else {
            vstd::slice::slice_to_vec(hv.value.as_str().as_bytes())
        };
        proof {
            if hv.value@.len() == 0 {
                assert(hv.value@ =~= empty@);
                assert(encode_utf8(hv.value@) =~= Seq::<u8>::empty());
            }
            assert(value@ == (if hv.value@.len() == 0 {
                hv.raw_value@
            } else {
                encode_utf8(hv.value@)
            }));
            assert(list@[i as int] == *hv);
        }
        match name {
            Some(n) => {
                if valid_header_value(value.as_slice()) {
                    headers.append(n.as_str(), value);
                }
            },
            None => {},
        }
        i += 1;
    }
    headers
}

/// The response that the processor asks to send at once: its status when
/// it is a valid code (else 200), its header mutation applied as the rules
/// say (a refusal leaves the changes before it), its body, and
/// `grpc-status` when the processor gives one.
pub fn build_direct_response(response_attempt: &ImmediateResponse, mutation_rules: Option<&MutationVerdicts>) -> (r: (
    ResponseHead,
    Vec<u8>,
))
    requires
        response_attempt.headers matches Some(m) ==> verdicts_fit(m, rules_of(mutation_rules)),
    ensures
        r.1@ == response_attempt.body@,
        ({
            let code = match response_attempt.status {
                Some(c) => c as u16,
                None => 200u16,
            };
            let status = if crate::http_parts::is_status_code(code) {
                code
            } else {
                200u16
            };
            let (status2, headers2) = match response_attempt.headers {
                Some(m) => (
                    mutated_status(status, m, rules_of(mutation_rules)),
                    mutate_headers(Map::empty(), m, rules_of(mutation_rules)).0,
                ),
                None => (status, Map::empty()),
            };
            &&& r.0@.status == status2
            &&& r.0@.headers == match response_attempt.grpc_status {
                Some(g) => headers2.insert("grpc-status"@, seq![encode_utf8(decimal_text(g as nat))]),
                None => headers2,
            }
        }),
{
    let code: u16 = match response_attempt.status {
        Some(c) => c as u16,
        None => 200,
    };
    let status = if crate::http_parts::valid_status_code(code) {
        code
    } else {
        200
    };
    let mut response = ResponseHead { status, headers: HeaderMap::new() };
    match &response_attempt.headers {
        Some(m) => {
            let _ = apply_response_header_mutations(&mut response, m, mutation_rules);
        },
        None => {},
    }
    match response_attempt.grpc_status {
        Some(g) => {
            let mut text = String::new();
            push_decimal(&mut text, g as u64);
            let value = vstd::slice::slice_to_vec(text.as_str().as_bytes());
            proof {
                reveal_strlit("grpc-status");
            }
            response.headers.insert("grpc-status", value);
        },
        None => {},
    }
    (response, response_attempt.body.clone())
}


/// The most bytes of a body that is buffered for the processor: 4 MiB,
/// gRPC's default message size.
pub const EXT_PROC_BUFFERED_BODY_LIMIT: usize = 4_194_304;

/// How a message is prepared for the processor.
#[derive(Debug, Clone, Copy, PartialEq, Eq, Structural)]
pub enum Preparation {
    /// Nothing of it is processed: it goes on untouched.
    Skip,
    /// It is handed to the worker, with its headers when they are
    /// processed, and its body first collected (up to the limit) when it is
    /// buffered and not already complete.
    Process { send_headers: bool, collect_body: bool },
}

/// How a message is prepared, given what the modes process of it, its body
/// mode, and whether its body is already complete.
pub fn preparation(
    process_headers: bool,
    process_body: bool,
    process_trailers: bool,
    body_mode: BodyProcessingMode,
    body_complete: bool,
) -> (r: Preparation)
    ensures
        !process_headers && !process_body && !process_trailers ==> r == Preparation::Skip,
        process_headers || process_body || process_trailers ==> r == (Preparation::Process {
            send_headers: process_headers,
            collect_body: (body_mode == BodyProcessingMode::Buffered || body_mode == BodyProcessingMode::BufferedPartial)
                && !body_complete,
        }),
{
    if !process_headers && !process_body && !process_trailers {
        return Preparation::Skip;
    }
    let buffered = match body_mode {
        BodyProcessingMode::Buffered | BodyProcessingMode::BufferedPartial => true,
        _ => false,
    };
    Preparation::Process { send_headers: process_headers, collect_body: buffered && !body_complete }
}

/// The decision when collecting a buffered body failed: a body over the
/// limit is answered with 413 (Payload Too Large), another failure with
/// the filter's error status; with `failure_mode_allow` the message goes on.
pub fn collect_failure(limit_exceeded: bool, failure_mode_allow: bool) -> (r: FilterDecision)
    ensures
        failure_mode_allow ==> r is Continue,
        !failure_mode_allow ==> r@ == DecisionView::DirectResponse(
            DirectResponseView::Synthetic(if limit_exceeded { 413 } else { 500 }, None, ResponseFlag::UpstreamConnectionFailure),
        ),
{
    if limit_exceeded {
        on_filter_error(failure_mode_allow, Some(413))
    } else {
        on_filter_error(failure_mode_allow, None)
    }
}


/// Which header forwarding rules are configured: whether any allowed-header
/// matcher and any disallowed-header matcher is given.
#[derive(Debug, Clone, Copy, PartialEq, Eq, Structural)]
pub struct ForwardRules {
    pub has_allowed: bool,
    pub has_disallowed: bool,
}

/// Whether a header goes to the processor, given whether its name matches
/// an allowed and a disallowed matcher: disallowed matchers, when given,
/// decide alone; otherwise allowed matchers, when given, decide; without
/// rules every header goes.
pub open spec fn forwards(rules: Option<ForwardRules>, allowed_match: bool, disallowed_match: bool) -> bool {
    match rules {
        None => true,
        Some(r) => if r.has_disallowed {
            !disallowed_match
        } else if r.has_allowed {
            allowed_match
        } else {
            true
        },
    }
}

/// Whether a header goes to the processor.
pub fn should_forward_header(rules: Option<ForwardRules>, allowed_match: bool, disallowed_match: bool) -> (r: bool)
    ensures
        r == forwards(rules, allowed_match, disallowed_match),
{
    match rules {
        None => true,
        Some(r) => if r.has_disallowed {
            !disallowed_match
        } else if r.has_allowed {
            allowed_match
        } else {
            true
        },
    }
}

/// The headers that go to the processor; `matches` gives, for each header
/// name in the order of `names`, whether it matches an allowed and a
/// disallowed matcher.
pub fn filter_header_map(headers: &HeaderMap, rules: Option<ForwardRules>, matches: &Vec<(bool, bool)>) -> (r: HeaderMap)
    requires
        matches@.len() == headers.names().len(),
    ensures
        r@ == selected(
            headers@,
            headers.names(),
            matches@.map_values(|m: (bool, bool)| forwards(rules, m.0, m.1)),
        ),
{
    let mut keep: Vec<bool> = Vec::new();
    let mut i: usize = 0;
    while i < matches.len()
        invariant
            i <= matches@.len(),
            keep@ =~= matches@.map_values(|m: (bool, bool)| forwards(rules, m.0, m.1)).subrange(0, i as int),
        decreases matches@.len() - i,
    {
        let (a, d) = matches[i];
        keep.push(should_forward_header(rules, a, d));
        i += 1;
    }
    assert(keep@ =~= matches@.map_values(|m: (bool, bool)| forwards(rules, m.0, m.1)));
    headers.select(&keep)
}

proof fn lemma_park_data(held: Option<FrameView>, ds: Seq<FrameView>)
    requires
        ds.len() > 0,
        forall|i: int| 0 <= i < ds.len() ==> #[trigger] ds[i] is Data,
    ensures
        park_all((held, None), ds) == ((Some(ds.last()), None::<FrameView>), opt_seq(held) + ds.drop_last()),
    decreases ds.len(),
{
    let rest = ds.drop_first();
    assert(ds[0] is Data);
    assert(parked((held, None), ds[0]) == ((Some(ds[0]), None::<FrameView>), held));
    if rest.len() == 0 {
        assert(park_all((Some(ds[0]), None), rest) == ((Some(ds[0]), None::<FrameView>), Seq::<FrameView>::empty()));
        assert(ds.drop_last() =~= Seq::<FrameView>::empty());
        assert(opt_seq(held) + Seq::<FrameView>::empty() =~= opt_seq(held));
        assert(ds.last() == ds[0]);
    } else {
        assert forall|i: int| 0 <= i < rest.len() implies #[trigger] rest[i] is Data by {
            assert(rest[i] == ds[i + 1]);
        }
        lemma_park_data(Some(ds[0]), rest);
        assert(rest.last() == ds.last());
        assert(opt_seq(held) + (seq![ds[0]] + rest.drop_last()) =~= opt_seq(held) + ds.drop_last());
    }
}

/// A frame buffer lets frames through in the order they came: data frames
/// parked one after the other into an empty buffer, then trailers if any,
/// come out (pushed out by parking, then taken until none is left) exactly
/// as they went in, none lost or repeated; at most one data frame is held
/// back at a time, and taking twice empties the buffer.
pub proof fn law_frame_buffer_keeps_order(ds: Seq<FrameView>, t: Option<FrameView>)
    requires
        forall|i: int| 0 <= i < ds.len() ==> #[trigger] ds[i] is Data,
        t matches Some(f) ==> f is Trailers,
    ensures
        ({
            let (h1, out1) = park_all((None, None), ds);
            let (h2, out2) = match t {
                Some(f) => {
                    let (h, e) = parked(h1, f);
                    (h, opt_seq(e))
                },
                None => (h1, Seq::empty()),
            };
            &&& h1.1 is None
            &&& out1 + out2 + drained(h2) == ds + opt_seq(t)
            &&& taken(taken(h2).0).0 == (None::<FrameView>, None::<FrameView>)
        }),
{
    if ds.len() > 0 {
        lemma_park_data(None, ds);
        assert(opt_seq(None) + ds.drop_last() =~= ds.drop_last());
        assert(ds.drop_last() + seq![ds.last()] =~= ds);
        match t {
            Some(f) => {
                assert(ds.drop_last() + seq![ds.last()] + Seq::<FrameView>::empty() + seq![f] =~= ds + opt_seq(t));
            },
            None => {
                assert(ds.drop_last() + Seq::<FrameView>::empty() + (seq![ds.last()] + Seq::<FrameView>::empty()) =~= ds + opt_seq(t));
            },
        }
    } else {
        assert(ds =~= Seq::<FrameView>::empty());
        match t {
            Some(f) => {
                assert(Seq::<FrameView>::empty() + Seq::<FrameView>::empty() + (seq![f] + Seq::<FrameView>::empty()) =~= ds + opt_seq(t));
            },
            None => {
                assert(Seq::<FrameView>::empty() + Seq::<FrameView>::empty() + (Seq::<FrameView>::empty() + Seq::<FrameView>::empty()) =~= ds + opt_seq(t));
            },
        }
    }
}

} // verus!
