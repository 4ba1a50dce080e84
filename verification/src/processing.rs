//! The processing of one message (a request or a response) by an external
//! processing worker: the messages it sends to the processor, what it does
//! with the processor's answers, and what it puts into the message's body
//! meanwhile. The body itself is driven by the caller, which performs the
//! body operations handed back, in order.

use vstd::prelude::*;
use crate::ext_proc::{
    envoy_header, envoy_headers_from, envoy_headers_into, headers_from_envoy, hv_view, should_clear_route_cache, status_error,
    BodyFrame, FrameBuffer, FrameView, ProcessingStatus, ReadyStatus, RouteCacheAction,
};
use crate::headers::{pairs_of, HeaderMap};
use crate::mutation::{apply_trailer_mutations, mutate_headers, HeaderMutation, HeaderValue};
use crate::filter_decision::{DirectResponseView, ResponseFlag};

verus! {

/// What is done to the message's body, in order.
#[derive(Debug)]
pub enum BodyOp {
    /// A frame is put into the body.
    Inject(BodyFrame),
    /// The rest of the original body is let through.
    Complete,
    /// The body is closed.
    Close,
}

/// What a body operation does.
pub enum BodyOpView {
    Inject(FrameView),
    Complete,
    Close,
}

impl View for BodyOp {
    type V = BodyOpView;

    open spec fn view(&self) -> BodyOpView {
        match self {
            BodyOp::Inject(f) => BodyOpView::Inject(f@),
            BodyOp::Complete => BodyOpView::Complete,
            BodyOp::Close => BodyOpView::Close,
        }
    }
}

/// The operations of a list, as they act.
pub open spec fn ops_view(s: Seq<BodyOp>) -> Seq<BodyOpView> {
    s.map_values(|o: BodyOp| o@)
}

/// The frames of a list, as they hold.
pub open spec fn frames_view(s: Seq<BodyFrame>) -> Seq<FrameView> {
    s.map_values(|f: BodyFrame| f@)
}

/// How the processor replaces a body.
#[derive(Debug)]
pub enum BodyReplacement {
    /// With these bytes.
    Body(Vec<u8>),
    /// With an empty body when `true`; not at all when `false`.
    ClearBody(bool),
    /// With the bytes of a streamed chunk.
    StreamedResponse(Vec<u8>),
}

/// The frame that replaces the body, if any.
pub open spec fn replacement_frame(b: Option<BodyReplacement>) -> Option<FrameView> {
    match b {
        Some(BodyReplacement::Body(bytes)) => Some(FrameView::Data(bytes@)),
        Some(BodyReplacement::ClearBody(true)) => Some(FrameView::Data(Seq::empty())),
        Some(BodyReplacement::ClearBody(false)) => None,
        Some(BodyReplacement::StreamedResponse(bytes)) => Some(FrameView::Data(bytes@)),
        None => None,
    }
}

fn to_frame(b: Option<BodyReplacement>) -> (r: Option<BodyFrame>)
    ensures
        match r {
            Some(f) => replacement_frame(b) == Some(f@),
            None => replacement_frame(b) is None,
        },
{
    match b {
        Some(BodyReplacement::Body(bytes)) => Some(BodyFrame::Data(bytes)),
        Some(BodyReplacement::ClearBody(true)) => Some(BodyFrame::Data(Vec::new())),
        Some(BodyReplacement::ClearBody(false)) => None,
        Some(BodyReplacement::StreamedResponse(bytes)) => Some(BodyFrame::Data(bytes)),
        None => None,
    }
}

/// The status of the processor's answer that asks to replace the message
/// (`CONTINUE_AND_REPLACE`); any other status lets it go on.
pub const CONTINUE_AND_REPLACE: i32 = 1;

/// The processor's answer to the headers of a message.
#[derive(Debug)]
pub struct HeadersAnswer {
    pub header_mutation: Option<HeaderMutation>,
    pub clear_route_cache: bool,
    pub status: i32,
    pub body_mutation: Option<BodyReplacement>,
    pub trailers: Option<Vec<HeaderValue>>,
}

/// The processor's answer to a chunk of a body.
#[derive(Debug)]
pub struct BodyAnswer {
    pub header_mutation: Option<HeaderMutation>,
    pub clear_route_cache: bool,
    pub status: i32,
    pub body_mutation: Option<BodyReplacement>,
}

/// A message to the processor.
#[derive(Debug)]
pub enum OutgoingMessage {
    /// The headers of the request or response, and whether nothing follows.
    Headers { is_request: bool, headers: Vec<HeaderValue>, end_of_stream: bool, observability: bool },
    /// A chunk of the body, and whether it is the last.
    Body { is_request: bool, body: Vec<u8>, end_of_stream: bool, observability: bool },
    /// The trailers of the body.
    Trailers { is_request: bool, trailers: Vec<HeaderValue>, observability: bool },
}

/// What a processing step asks for: a message to send to the processor,
/// or a status to report.
#[derive(Debug)]
pub enum StepAction {
    Send(OutgoingMessage),
    Report(ProcessingStatus),
}

/// Whether a status reports a message as ready, with these header
/// modifications and this decision on the route cache.
pub open spec fn is_ready(s: ProcessingStatus, is_request: bool, m: Option<HeaderMutation>, clear: bool) -> bool {
    if is_request {
        s matches ProcessingStatus::RequestReady(r) && r.headers_modifications == m && r.clear_route_cache == clear
    } else {
        s matches ProcessingStatus::ResponseReady(r) && r.headers_modifications == m && r.clear_route_cache == clear
    }
}

fn ready(is_request: bool, m: Option<HeaderMutation>, clear: bool) -> (r: ProcessingStatus)
    ensures
        is_ready(r, is_request, m, clear),
{
    let status = ReadyStatus { headers_modifications: m, clear_route_cache: clear };
    if is_request {
        ProcessingStatus::RequestReady(status)
    } else {
        ProcessingStatus::ResponseReady(status)
    }
}

/// The envoy form of headers.
pub open spec fn envoy_list(h: HeaderMap) -> Seq<(Seq<char>, Seq<char>, Seq<u8>)> {
    pairs_of(h.names(), h@).map_values(|p: (Seq<char>, Seq<u8>)| envoy_header(p.0, p.1))
}

/// The headers of a list, as the processor receives them.
pub open spec fn list_view(l: Seq<HeaderValue>) -> Seq<(Seq<char>, Seq<char>, Seq<u8>)> {
    l.map_values(|h: HeaderValue| hv_view(h))
}

/// The processing of one message.
#[derive(Debug)]
pub struct MessageProcessing {
    /// Whether the message is the request (else the response).
    pub is_request: bool,
    /// Whether the worker only observes.
    pub observability: bool,
    pub failure_mode_allow: bool,
    pub send_body_without_waiting_for_header_response: bool,
    /// The message's headers, once the message has come.
    pub http_headers: Option<HeaderMap>,
    /// The trailers sent to the processor, kept to be mutated by its answer.
    pub trailers: Option<HeaderMap>,
    /// Whether body frames are streamed to the processor.
    pub streaming_body_enabled: bool,
    /// Whether the whole body has been read.
    pub end_of_stream: bool,
    pub frames_buffer: FrameBuffer,
    /// Copies of the frames sent to the processor, oldest first, to be put
    /// back into the body as the processor answers.
    pub inflight_frames: Vec<BodyFrame>,
    /// Trailers held back until the body is closed.
    pub parked_trailers: Option<BodyFrame>,
}

/// Whether two processings have the same configuration.
pub open spec fn same_config(a: MessageProcessing, b: MessageProcessing) -> bool {
    &&& a.is_request == b.is_request
    &&& a.observability == b.observability
    &&& a.failure_mode_allow == b.failure_mode_allow
    &&& a.send_body_without_waiting_for_header_response == b.send_body_without_waiting_for_header_response
}

/// What closing the body adds to the operations: the trailers held back,
/// then the close.
pub open spec fn close_ops(parked: Option<BodyFrame>) -> Seq<BodyOpView> {
    match parked {
        Some(t) => seq![BodyOpView::Inject(t@), BodyOpView::Close],
        None => seq![BodyOpView::Close],
    }
}

impl MessageProcessing {
    /// A processing of a message not yet come.
    pub fn new(is_request: bool, observability: bool, failure_mode_allow: bool, send_body_without_waiting_for_header_response: bool) -> (r: Self)
        ensures
            r.is_request == is_request,
            r.observability == observability,
            r.failure_mode_allow == failure_mode_allow,
            r.send_body_without_waiting_for_header_response == send_body_without_waiting_for_header_response,
            r.http_headers is None,
            r.trailers is None,
            !r.streaming_body_enabled,
            !r.end_of_stream,
            r.frames_buffer.data() is None,
            r.frames_buffer.trailers() is None,
            r.inflight_frames@.len() == 0,
            r.parked_trailers is None,
    {
        MessageProcessing {
            is_request,
            observability,
            failure_mode_allow,
            send_body_without_waiting_for_header_response,
            http_headers: None,
            trailers: None,
            streaming_body_enabled: false,
            end_of_stream: false,
            frames_buffer: FrameBuffer::new(),
            inflight_frames: Vec::new(),
            parked_trailers: None,
        }
    }

    /// Closes the body: the message timeout stops, streaming stops, the
    /// trailers held back are put into the body, and the body is closed.
    pub fn close_body(&mut self, timeout_active: &mut bool, ops: &mut Vec<BodyOp>)
        ensures
            !*final(timeout_active),
            !final(self).streaming_body_enabled,
            final(self).parked_trailers is None,
            ops_view(final(ops)@) == ops_view(old(ops)@) + close_ops(old(self).parked_trailers),
            same_config(*final(self), *old(self)),
            final(self).http_headers == old(self).http_headers,
            final(self).trailers == old(self).trailers,
            final(self).end_of_stream == old(self).end_of_stream,
            final(self).frames_buffer == old(self).frames_buffer,
            final(self).inflight_frames@ == old(self).inflight_frames@,
    {
        let ghost before = ops@;
        *timeout_active = false;
        self.streaming_body_enabled = false;
        let mut parked: Option<BodyFrame> = None;
        std::mem::swap(&mut parked, &mut self.parked_trailers);
        match parked {
            Some(t) => {
                ops.push(BodyOp::Inject(t));
            },
            None => {},
        }
        ops.push(BodyOp::Close);
        assert(ops_view(ops@) =~= ops_view(before) + close_ops(old(self).parked_trailers));
    }

    /// Puts every frame sent to the processor back into the body, oldest
    /// first, and lets the rest of the body through.
    pub fn inject_inflight_frames_and_complete(&mut self, ops: &mut Vec<BodyOp>)
        ensures
            final(self).inflight_frames@.len() == 0,
            ops_view(final(ops)@) == ops_view(old(ops)@) + frames_view(old(self).inflight_frames@).map_values(
                |f: FrameView| BodyOpView::Inject(f),
            ) + seq![BodyOpView::Complete],
            same_config(*final(self), *old(self)),
            final(self).http_headers == old(self).http_headers,
            final(self).trailers == old(self).trailers,
            final(self).streaming_body_enabled == old(self).streaming_body_enabled,
            final(self).end_of_stream == old(self).end_of_stream,
            final(self).frames_buffer == old(self).frames_buffer,
            final(self).parked_trailers == old(self).parked_trailers,
    {
        let ghost before = ops@;
        let ghost frames = frames_view(self.inflight_frames@);
        let mut inflight: Vec<BodyFrame> = Vec::new();
        std::mem::swap(&mut inflight, &mut self.inflight_frames);
        let total = inflight.len();
        let mut k: usize = 0;
        while inflight.len() > 0
            invariant
                ops_view(ops@) == ops_view(before) + frames.subrange(0, k as int).map_values(|f: FrameView| BodyOpView::Inject(f)),
                frames_view(inflight@) == frames.subrange(k as int, frames.len() as int),
                k <= frames.len(),
                frames.len() == total,
            decreases inflight@.len(),
        {
            let ghost pre_in = inflight@;
            let ghost pre_ops = ops@;
            assert(frames_view(pre_in).len() == pre_in.len());
            assert(k < frames.len());
            let f = inflight.remove(0);
            assert(frames_view(pre_in)[0] == f@);
            assert(frames.subrange(k as int, frames.len() as int)[0] == frames[k as int]);
            assert(frames[k as int] == f@);
            assert(inflight@ =~= pre_in.subrange(1, pre_in.len() as int));
            ops.push(BodyOp::Inject(f));
            assert forall|i: int| 0 <= i < inflight@.len() implies frames_view(inflight@)[i] == frames[k + 1 + i] by {
                assert(inflight@[i] == pre_in[i + 1]);
                assert(frames_view(pre_in)[i + 1] == frames.subrange(k as int, frames.len() as int)[i + 1]);
            }
            assert(frames_view(inflight@) =~= frames.subrange(k + 1, frames.len() as int));
            assert(frames.subrange(0, k + 1).map_values(|f: FrameView| BodyOpView::Inject(f)) =~= frames.subrange(
                0,
                k as int,
            ).map_values(|f: FrameView| BodyOpView::Inject(f)).push(BodyOpView::Inject(frames[k as int])));
            assert(ops_view(ops@) =~= ops_view(pre_ops).push(BodyOpView::Inject(f@)));
            k += 1;
        }
        assert(frames.subrange(0, k as int) =~= frames);
        let ghost mid = ops@;
        ops.push(BodyOp::Complete);
        assert(ops_view(ops@) =~= ops_view(mid).push(BodyOpView::Complete));
    }
}

/// Whether the route cache is cleared, as the action and the processor's
/// request decide.
pub open spec fn route_cache_cleared(action: RouteCacheAction, requested: bool) -> bool {
    match action {
        RouteCacheAction::Clear => true,
        RouteCacheAction::Retain => false,
        RouteCacheAction::Default => requested,
    }
}

/// Whether a status is the error status with this message: the message
/// goes on with `failure_mode_allow`, else an internal error is sent.
pub open spec fn is_error_status(s: ProcessingStatus, msg: Seq<char>, failure_mode_allow: bool) -> bool {
    if failure_mode_allow {
        s is HaltedOnError
    } else {
        s matches ProcessingStatus::EndWithDirectResponse(d) && d@ == DirectResponseView::Synthetic(
            500,
            Some(msg),
            ResponseFlag::NoFilterConfigFound,
        )
    }
}

/// The injection of a frame, if any.
pub open spec fn inject_opt(f: Option<FrameView>) -> Seq<BodyOpView> {
    match f {
        Some(x) => seq![BodyOpView::Inject(x)],
        None => Seq::empty(),
    }
}

/// The injection of the trailers that replace the message's, if any.
pub open spec fn trailers_ops(t: Option<Vec<HeaderValue>>) -> Seq<BodyOpView> {
    match t {
        Some(l) => seq![BodyOpView::Inject(FrameView::Trailers(headers_from_envoy(Map::empty(), l@, 0)))],
        None => Seq::empty(),
    }
}

/// Whether the body state of two processings is the same.
pub open spec fn same_body_state(a: MessageProcessing, b: MessageProcessing) -> bool {
    &&& a.end_of_stream == b.end_of_stream
    &&& a.frames_buffer == b.frames_buffer
    &&& a.inflight_frames@ == b.inflight_frames@
    &&& a.parked_trailers == b.parked_trailers
}

fn push_frame(ops: &mut Vec<BodyOp>, f: Option<BodyFrame>)
    ensures
        ops_view(final(ops)@) == ops_view(old(ops)@) + inject_opt(match f {
            Some(x) => Some(x@),
            None => None,
        }),
{
    let ghost before = ops@;
    match f {
        Some(x) => {
            ops.push(BodyOp::Inject(x));
        },
        None => {},
    }
    assert(ops_view(ops@) =~= ops_view(before) + inject_opt(match f {
        Some(x) => Some(x@),
        None => None,
    }));
}

impl MessageProcessing {
    /// Takes the processor's answer to the message's headers. The message
    /// is ready, with the answer's header mutation. When the answer asks to
    /// replace the message, the new body and trailers are put into the body
    /// and it is closed; else, when neither body nor trailers are
    /// processed, the original body is let through and closed; else the
    /// body is streamed to the processor. An empty answer makes the message
    /// ready as it is and streams the body. The message timeout stops.
    pub fn handle_headers_response(
        &mut self,
        answer: Option<HeadersAnswer>,
        route_cache_action: RouteCacheAction,
        process_body: bool,
        process_trailers: bool,
        timeout_active: &mut bool,
        ops: &mut Vec<BodyOp>,
    ) -> (r: ProcessingStatus)
        ensures
            !*final(timeout_active),
            same_config(*final(self), *old(self)),
            final(self).http_headers == old(self).http_headers,
            final(self).trailers == old(self).trailers,
            final(self).end_of_stream == old(self).end_of_stream,
            final(self).frames_buffer == old(self).frames_buffer,
            final(self).inflight_frames@ == old(self).inflight_frames@,
            match answer {
                None => {
                    &&& is_ready(r, old(self).is_request, None, false)
                    &&& final(self).streaming_body_enabled
                    &&& final(ops)@ == old(ops)@
                    &&& final(self).parked_trailers == old(self).parked_trailers
                },
                Some(a) => {
                    &&& is_ready(r, old(self).is_request, a.header_mutation, route_cache_cleared(route_cache_action, a.clear_route_cache))
                    &&& if a.status == CONTINUE_AND_REPLACE {
                        &&& ops_view(final(ops)@) == ops_view(old(ops)@) + inject_opt(replacement_frame(a.body_mutation))
                            + trailers_ops(a.trailers) + close_ops(old(self).parked_trailers)
                        &&& !final(self).streaming_body_enabled
                        &&& final(self).parked_trailers is None
                    } else if !process_body && !process_trailers {
                        &&& ops_view(final(ops)@) == ops_view(old(ops)@) + seq![BodyOpView::Complete] + close_ops(
                            old(self).parked_trailers,
                        )
                        &&& !final(self).streaming_body_enabled
                        &&& final(self).parked_trailers is None
                    } else {
                        &&& final(self).streaming_body_enabled
                        &&& final(ops)@ == old(ops)@
                        &&& final(self).parked_trailers == old(self).parked_trailers
                    }
                },
            },
    {
        let ghost before = ops@;
        let status;
        match answer {
            Some(a) => {
                let clear = should_clear_route_cache(route_cache_action, a.clear_route_cache);
                status = ready(self.is_request, a.header_mutation, clear);
                if a.status == CONTINUE_AND_REPLACE {
                    let ghost t = a.trailers;
                    let ghost rep = replacement_frame(a.body_mutation);
                    push_frame(ops, to_frame(a.body_mutation));
                    let ghost mid = ops@;
                    match a.trailers {
                        Some(list) => {
                            let new_trailers = envoy_headers_into(&list);
                            ops.push(BodyOp::Inject(BodyFrame::Trailers(new_trailers)));
                        },
                        None => {},
                    }
                    assert(ops_view(ops@) =~= ops_view(mid) + trailers_ops(t));
                    self.close_body(timeout_active, ops);
                    assert(ops_view(ops@) =~= ops_view(before) + inject_opt(rep) + trailers_ops(t) + close_ops(
                        old(self).parked_trailers,
                    ));
                } else if !process_body && !process_trailers {
                    ops.push(BodyOp::Complete);
                    let ghost mid = ops@;
                    assert(ops_view(mid) =~= ops_view(before) + seq![BodyOpView::Complete]);
                    self.close_body(timeout_active, ops);
                } else {
                    self.streaming_body_enabled = true;
                }
            },
            None => {
                status = ready(self.is_request, None, false);
                self.streaming_body_enabled = true;
            },
        }
        *timeout_active = false;
        status
    }

    /// Takes the processor's answer to a chunk of the body: the chunk it
    /// sends back replaces the oldest frame sent (else that frame is put
    /// back as it was); the message is ready, with the answer's header
    /// mutation where a route cache action is given; the body is closed
    /// when the answer asks to replace the message, or when the body has
    /// ended and no frame waits for an answer. An empty answer is an error.
    pub fn handle_body_response(
        &mut self,
        answer: Option<BodyAnswer>,
        route_cache_action: Option<RouteCacheAction>,
        timeout_active: &mut bool,
        ops: &mut Vec<BodyOp>,
    ) -> (r: ProcessingStatus)
        ensures
            same_config(*final(self), *old(self)),
            final(self).http_headers == old(self).http_headers,
            final(self).trailers == old(self).trailers,
            final(self).end_of_stream == old(self).end_of_stream,
            final(self).frames_buffer == old(self).frames_buffer,
            match answer {
                None => {
                    &&& is_error_status(r, "handle_body_response: No response data in body response"@, old(self).failure_mode_allow)
                    &&& final(ops)@ == old(ops)@
                    &&& *final(timeout_active) == *old(timeout_active)
                    &&& final(self).streaming_body_enabled == old(self).streaming_body_enabled
                    &&& final(self).inflight_frames@ == old(self).inflight_frames@
                    &&& final(self).parked_trailers == old(self).parked_trailers
                },
                Some(a) => {
                    let inflight = old(self).inflight_frames@;
                    let rest = if inflight.len() > 0 {
                        inflight.subrange(1, inflight.len() as int)
                    } else {
                        inflight
                    };
                    let injected = match replacement_frame(a.body_mutation) {
                        Some(f) => seq![BodyOpView::Inject(f)],
                        None => if inflight.len() > 0 {
                            seq![BodyOpView::Inject(inflight[0]@)]
                        } else {
                            Seq::empty()
                        },
                    };
                    let closes = a.status == CONTINUE_AND_REPLACE || (old(self).end_of_stream && rest.len() == 0);
                    &&& final(self).inflight_frames@ == rest
                    &&& (match (route_cache_action, a.header_mutation) {
                        (Some(act), Some(m)) => is_ready(r, old(self).is_request, Some(m), route_cache_cleared(act, a.clear_route_cache)),
                        _ => is_ready(r, old(self).is_request, None, false),
                    })
                    &&& closes ==> {
                        &&& ops_view(final(ops)@) == ops_view(old(ops)@) + injected + close_ops(old(self).parked_trailers)
                        &&& !*final(timeout_active)
                        &&& !final(self).streaming_body_enabled
                        &&& final(self).parked_trailers is None
                    }
                    &&& !closes ==> {
                        &&& ops_view(final(ops)@) == ops_view(old(ops)@) + injected
                        &&& *final(timeout_active) == *old(timeout_active)
                        &&& final(self).streaming_body_enabled == old(self).streaming_body_enabled
                        &&& final(self).parked_trailers == old(self).parked_trailers
                    }
                },
            },
    {
        let ghost before = ops@;
        let ghost inflight0 = self.inflight_frames@;
        match answer {
            Some(a) => {
                let ghost rep = replacement_frame(a.body_mutation);
                let chunk = to_frame(a.body_mutation);
                match chunk {
                    Some(c) => {
                        ops.push(BodyOp::Inject(c));
                        if self.inflight_frames.len() > 0 {
                            let _ = self.inflight_frames.remove(0);
                        }
                    },
                    None => {
                        if self.inflight_frames.len() > 0 {
                            let f = self.inflight_frames.remove(0);
                            ops.push(BodyOp::Inject(f));
                        }
                    },
                }
                assert(self.inflight_frames@ =~= (if inflight0.len() > 0 {
                    inflight0.subrange(1, inflight0.len() as int)
                } else {
                    inflight0
                }));
                let ghost injected = match rep {
                    Some(f) => seq![BodyOpView::Inject(f)],
                    None => if inflight0.len() > 0 {
                        seq![BodyOpView::Inject(inflight0[0]@)]
                    } else {
                        Seq::empty()
                    },
                };
                assert(ops_view(ops@) =~= ops_view(before) + injected);
                let status = match (route_cache_action, a.header_mutation) {
                    (Some(act), Some(m)) => {
                        let clear = should_clear_route_cache(act, a.clear_route_cache);
                        ready(self.is_request, Some(m), clear)
                    },
                    _ => ready(self.is_request, None, false),
                };
                if a.status == CONTINUE_AND_REPLACE {
                    self.close_body(timeout_active, ops);
                    return status;
                }
                if self.end_of_stream && self.inflight_frames.len() == 0 {
                    self.close_body(timeout_active, ops);
                }
                status
            },
            None => status_error("handle_body_response: No response data in body response", self.failure_mode_allow),
        }
    }

    /// Takes the processor's answer to the trailers: the trailers kept are
    /// mutated as it says, put into the body, and the body ends and is
    /// closed. Without trailers kept, the body is closed and the answer is
    /// an error.
    pub fn handle_trailers_response(&mut self, header_mutation: Option<HeaderMutation>, timeout_active: &mut bool, ops: &mut Vec<BodyOp>) -> (r:
        ProcessingStatus)
        ensures
            same_config(*final(self), *old(self)),
            final(self).http_headers == old(self).http_headers,
            final(self).trailers is None,
            final(self).frames_buffer == old(self).frames_buffer,
            final(self).inflight_frames@ == old(self).inflight_frames@,
            !*final(timeout_active),
            !final(self).streaming_body_enabled,
            final(self).parked_trailers is None,
            match old(self).trailers {
                Some(t) => {
                    let mutated = match header_mutation {
                        Some(m) => mutate_headers(t@, m, None).0,
                        None => t@,
                    };
                    &&& ops_view(final(ops)@) == ops_view(old(ops)@) + seq![BodyOpView::Inject(FrameView::Trailers(mutated))]
                        + close_ops(old(self).parked_trailers)
                    &&& final(self).end_of_stream
                    &&& is_ready(r, old(self).is_request, None, false)
                },
                None => {
                    &&& ops_view(final(ops)@) == ops_view(old(ops)@) + close_ops(old(self).parked_trailers)
                    &&& final(self).end_of_stream == old(self).end_of_stream
                    &&& is_error_status(r, "handle_trailers_response: No trailers to process"@, old(self).failure_mode_allow)
                },
            },
    {
        let ghost before = ops@;
        let mut kept: Option<HeaderMap> = None;
        std::mem::swap(&mut kept, &mut self.trailers);
        match kept {
            Some(mut t) => {
                match &header_mutation {
                    Some(m) => {
                        let _ = apply_trailer_mutations(&mut t, m, None);
                    },
                    None => {},
                }
                ops.push(BodyOp::Inject(BodyFrame::Trailers(t)));
                let ghost mid = ops@;
                self.end_of_stream = true;
                self.close_body(timeout_active, ops);
                proof {
                    let mutated = match header_mutation {
                        Some(m) => mutate_headers(old(self).trailers->0@, m, None).0,
                        None => old(self).trailers->0@,
                    };
                    assert(ops_view(mid) =~= ops_view(before) + seq![BodyOpView::Inject(FrameView::Trailers(mutated))]);
                }
                ready(self.is_request, None, false)
            },
            None => {
                self.close_body(timeout_active, ops);
                status_error("handle_trailers_response: No trailers to process", self.failure_mode_allow)
            },
        }
    }
}

impl MessageProcessing {
    /// The message arrives. With headers, they are sent to the processor,
    /// marked as the end of the message when the body is empty or neither
    /// body nor trailers are processed; the body is streamed at once by an
    /// observing worker, or when the body is sent without waiting for the
    /// answer to the headers and there is body or trailers to process.
    /// Without headers, the message is ready and its body is streamed.
    pub fn process(&mut self, headers: Option<HeaderMap>, empty_body: bool, process_body: bool, process_trailers: bool) -> (r:
        StepAction)
        ensures
            same_config(*final(self), *old(self)),
            final(self).http_headers == headers,
            final(self).trailers == old(self).trailers,
            same_body_state(*final(self), *old(self)),
            match headers {
                None => {
                    &&& final(self).streaming_body_enabled
                    &&& r matches StepAction::Report(s) && is_ready(s, old(self).is_request, None, false)
                },
                Some(h) => {
                    &&& r matches StepAction::Send(OutgoingMessage::Headers { is_request, headers: l, end_of_stream, observability })
                        && is_request == old(self).is_request && list_view(l@) == envoy_list(h) && end_of_stream == (empty_body || (
                        !process_body && !process_trailers)) && observability == old(self).observability
                    &&& final(self).streaming_body_enabled == (old(self).streaming_body_enabled || old(self).observability || (
                    old(self).send_body_without_waiting_for_header_response && (process_body || process_trailers)))
                },
            },
    {
        self.http_headers = headers;
        let msg = match &self.http_headers {
            Some(h) => {
                let end_of_stream = empty_body || (!process_body && !process_trailers);
                Some(OutgoingMessage::Headers {
                    is_request: self.is_request,
                    headers: envoy_headers_from(h),
                    end_of_stream,
                    observability: self.observability,
                })
            },
            None => None,
        };
        match msg {
            Some(m) => {
                if self.observability || (self.send_body_without_waiting_for_header_response && (process_body || process_trailers)) {
                    self.streaming_body_enabled = true;
                }
                StepAction::Send(m)
            },
            None => {
                self.streaming_body_enabled = true;
                StepAction::Report(ready(self.is_request, None, false))
            },
        }
    }

    /// A frame of the body goes to the processor: data as a body chunk,
    /// trailers as trailers, which are kept to be mutated by the answer.
    pub fn handle_outgoing_body_chunk(&mut self, chunk: BodyFrame, end_of_stream: bool) -> (r: StepAction)
        ensures
            same_config(*final(self), *old(self)),
            final(self).http_headers == old(self).http_headers,
            final(self).streaming_body_enabled == old(self).streaming_body_enabled,
            same_body_state(*final(self), *old(self)),
            match chunk {
                BodyFrame::Data(b) => {
                    &&& final(self).trailers == old(self).trailers
                    &&& r matches StepAction::Send(OutgoingMessage::Body { is_request, body, end_of_stream: eos, observability })
                        && is_request == old(self).is_request && body@ == b@ && eos == end_of_stream && observability == old(
                        self,
                    ).observability
                },
                BodyFrame::Trailers(t) => {
                    &&& final(self).trailers == Some(t)
                    &&& r matches StepAction::Send(OutgoingMessage::Trailers { is_request, trailers, observability })
                        && is_request == old(self).is_request && list_view(trailers@) == envoy_list(t) && observability == old(
                        self,
                    ).observability
                },
            },
    {
        match chunk {
            BodyFrame::Data(body) => StepAction::Send(
                OutgoingMessage::Body { is_request: self.is_request, body, end_of_stream, observability: self.observability },
            ),
            BodyFrame::Trailers(t) => {
                let trailers = envoy_headers_from(&t);
                self.trailers = Some(t);
                StepAction::Send(OutgoingMessage::Trailers { is_request: self.is_request, trailers, observability: self.observability })
            },
        }
    }
}

} // verus!
