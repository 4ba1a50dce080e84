//! The decisions of an external processing worker: where each body frame
//! goes when it reaches the worker or when the body ends, and what the
//! worker does with each message of the external processor.

use vstd::prelude::*;
use crate::ext_proc::{BodyFrame, FrameBuffer, FrameView, ProcessingStatus, status_timeout, status_error};
use crate::filter_decision::{DirectResponseView, ResponseFlag};

verus! {

/// Where a body frame goes.
#[derive(Debug)]
pub enum FrameRoute {
    /// Sent to the external processor; a copy is kept to be put back into
    /// the body once the processor has answered.
    Send { frame: BodyFrame, end_of_stream: bool },
    /// Sent to the external processor and, at once, put back into the body
    /// (an observing worker).
    Mirror { frame: BodyFrame, end_of_stream: bool },
    /// Put back into the body untouched.
    Inject { frame: BodyFrame },
    /// Trailers held back, to be put back when the body is closed.
    ParkTrailers { frame: BodyFrame },
}

/// What a frame route holds.
pub enum RouteView {
    Send(FrameView, bool),
    Mirror(FrameView, bool),
    Inject(FrameView),
    ParkTrailers(FrameView),
}

impl View for FrameRoute {
    type V = RouteView;

    open spec fn view(&self) -> RouteView {
        match self {
            FrameRoute::Send { frame, end_of_stream } => RouteView::Send(frame@, *end_of_stream),
            FrameRoute::Mirror { frame, end_of_stream } => RouteView::Mirror(frame@, *end_of_stream),
            FrameRoute::Inject { frame } => RouteView::Inject(frame@),
            FrameRoute::ParkTrailers { frame } => RouteView::ParkTrailers(frame@),
        }
    }
}

/// Where a frame goes that is handed to the processor: sent and kept by a
/// processing worker, mirrored by an observing one.
pub open spec fn sent(frame: FrameView, end_of_stream: bool, observe: bool) -> RouteView {
    if observe {
        RouteView::Mirror(frame, end_of_stream)
    } else {
        RouteView::Send(frame, end_of_stream)
    }
}

/// Where the frame pushed out of the buffer by an arriving frame goes
/// (never the last one: more may follow).
pub open spec fn pushed_route(frame: FrameView, process_body: bool, observe: bool) -> RouteView {
    if process_body {
        sent(frame, false, observe)
    } else {
        RouteView::Inject(frame)
    }
}

/// Where the frames held back go when the body ends: the data frame
/// first, marked as the end of the body when no trailers follow, then the
/// trailers. Trailers that are not processed are held back by a processing
/// worker and put back at once by an observing one.
pub open spec fn drained_routes(
    data: Option<FrameView>,
    trailers: Option<FrameView>,
    process_body: bool,
    process_trailers: bool,
    observe: bool,
) -> Seq<RouteView> {
    let first = match data {
        Some(d) => seq![
            if process_body {
                sent(d, trailers is None, observe)
            } else {
                RouteView::Inject(d)
            },
        ],
        None => Seq::empty(),
    };
    let second = match trailers {
        Some(t) => seq![
            if process_trailers {
                sent(t, true, observe)
            } else if observe {
                RouteView::Inject(t)
            } else {
                RouteView::ParkTrailers(t)
            },
        ],
        None => Seq::empty(),
    };
    first + second
}

fn route_for(frame: BodyFrame, process: bool, end_of_stream: bool, observe: bool, park: bool) -> (r: FrameRoute)
    ensures
        r@ == (if process {
            sent(frame@, end_of_stream, observe)
        } else if park {
            RouteView::ParkTrailers(frame@)
        } else {
            RouteView::Inject(frame@)
        }),
{
    if process {
        if observe {
            FrameRoute::Mirror { frame, end_of_stream }
        } else {
            FrameRoute::Send { frame, end_of_stream }
        }
    } else if park {
        FrameRoute::ParkTrailers { frame }
    } else {
        FrameRoute::Inject { frame }
    }
}

/// A body frame reaches the worker: it is held back, and the data frame
/// it pushes out, if any, is routed.
pub fn route_arriving_frame(buffer: &mut FrameBuffer, frame: BodyFrame, process_body: bool, observe: bool) -> (r: Option<
    FrameRoute,
>)
    ensures
        frame@ is Data ==> final(buffer).trailers() == old(buffer).trailers() && final(buffer).data() == (if old(
            buffer,
        ).trailers() is Some {
            None
        } else {
            Some(frame@)
        }),
        frame@ is Trailers ==> final(buffer).data() is None && final(buffer).trailers() == Some(frame@),
        match old(buffer).data() {
            Some(d) => r is Some && r->0@ == pushed_route(d, process_body, observe),
            None => r is None,
        },
{
    match buffer.park(frame) {
        Some(pushed) => Some(route_for(pushed, process_body, false, observe, false)),
        None => None,
    }
}

/// The body ends: every frame held back is routed, in order, and the
/// buffer is left empty.
pub fn drain_frames(buffer: &mut FrameBuffer, process_body: bool, process_trailers: bool, observe: bool) -> (r: Vec<
    FrameRoute,
>)
    requires
        old(buffer).well_kinded(),
    ensures
        final(buffer).data() is None,
        final(buffer).trailers() is None,
        r@.map_values(|x: FrameRoute| x@) == drained_routes(
            old(buffer).data(),
            old(buffer).trailers(),
            process_body,
            process_trailers,
            observe,
        ),
{
    let ghost d0 = buffer.data();
    let ghost t0 = buffer.trailers();
    let mut routes: Vec<FrameRoute> = Vec::new();
    if buffer.has_data() {
        let taken = buffer.take();
        if let Some(frame) = taken {
            let end_of_stream = !buffer.has_trailers();
            routes.push(route_for(frame, process_body, end_of_stream, observe, false));
        }
    }
    if buffer.has_trailers() {
        let taken = buffer.take();
        if let Some(frame) = taken {
            routes.push(route_for(frame, process_trailers, true, observe, !observe));
        }
    }
    proof {
        assert(routes@.map_values(|x: FrameRoute| x@) =~= drained_routes(
            d0,
            t0,
            process_body,
            process_trailers,
            observe,
        ));
    }
    routes
}

/// What reaches a processing worker, other than body frames.
#[derive(Debug, Clone, Copy, PartialEq, Eq, Structural)]
pub enum WorkerEvent {
    /// The channel of processing tasks was closed.
    TasksClosed,
    /// The processor asked for a longer message timeout; `accepted` says
    /// whether the extension was valid.
    TimeoutExtension { accepted: bool },
    /// The processor answered with an immediate response.
    ImmediateResponse,
    /// Answers to the request's headers, body and trailers;
    /// `mode_override` says whether the answer carries a mode override.
    RequestHeaders { mode_override: bool },
    RequestBody,
    RequestTrailers,
    /// Answers to the response's headers, body and trailers; `empty` says
    /// whether a body answer carries no response.
    ResponseHeaders { mode_override: bool },
    ResponseBody { empty: bool },
    ResponseTrailers,
    /// A message of a kind the worker does not handle.
    Unsupported,
    /// The processor closed the stream.
    StreamClosed,
    /// The processor's stream failed.
    GrpcError,
    /// The message timeout ran out.
    MessageTimeout,
}

/// The handler that takes an answer of the processor.
#[derive(Debug, Clone, Copy, PartialEq, Eq, Structural)]
pub enum AnswerHandler {
    NoHandler,
    RequestHeaders,
    RequestBody,
    RequestTrailers,
    ResponseHeaders,
    ResponseBody,
    ResponseTrailers,
}

/// How an immediate response of the processor ends the message.
#[derive(Debug, Clone, Copy, PartialEq, Eq, Structural)]
pub enum ImmediateAnswer {
    /// The response is sent.
    Direct,
    /// Immediate responses are disabled: the message goes on.
    HaltedOnError,
    /// Immediate responses are disabled: an internal error is sent.
    InternalError,
}

/// How the worker recovers from a failure of the processor: with
/// `pass_through` the frames held back are put back into the bodies and
/// they complete, else the bodies fail; `timeout` says whether the
/// failure was the message timeout, which decides the status reported.
#[derive(Debug, Clone, Copy, PartialEq, Eq, Structural)]
pub struct Recovery {
    pub pass_through: bool,
    pub timeout: bool,
}

/// The configuration that the worker's decisions read.
#[derive(Debug, Clone, Copy, PartialEq, Eq, Structural)]
pub struct WorkerFlags {
    pub failure_mode_allow: bool,
    pub disable_immediate_response: bool,
    pub allow_mode_override: bool,
}

/// What the worker does on an event: apply the mode override to the
/// request and response processing, hand the answer to a handler, end the
/// message with an immediate response, recover from a failure, and
/// whether it stops afterwards.
#[derive(Debug, Clone, Copy, PartialEq, Eq, Structural)]
pub struct WorkerPlan {
    pub override_request: bool,
    pub override_response: bool,
    pub handler: AnswerHandler,
    pub immediate: Option<ImmediateAnswer>,
    pub recovery: Option<Recovery>,
    pub stop: bool,
}

/// A plan that only hands the answer to a handler.
pub open spec fn handled(handler: AnswerHandler) -> WorkerPlan {
    WorkerPlan {
        override_request: false,
        override_response: false,
        handler,
        immediate: None,
        recovery: None,
        stop: false,
    }
}

/// A plan that recovers from a failure and stops.
pub open spec fn recovering(flags: WorkerFlags, timeout: bool) -> WorkerPlan {
    WorkerPlan {
        override_request: false,
        override_response: false,
        handler: AnswerHandler::NoHandler,
        immediate: None,
        recovery: Some(Recovery { pass_through: flags.failure_mode_allow, timeout }),
        stop: true,
    }
}

/// What a processing worker does on each event.
pub open spec fn plan_for(flags: WorkerFlags, event: WorkerEvent) -> WorkerPlan {
    match event {
        WorkerEvent::TasksClosed => WorkerPlan { stop: true, ..handled(AnswerHandler::NoHandler) },
        WorkerEvent::TimeoutExtension { accepted } => WorkerPlan { stop: !accepted, ..handled(AnswerHandler::NoHandler) },
        WorkerEvent::ImmediateResponse => WorkerPlan {
            immediate: Some(
                if !flags.disable_immediate_response {
                    ImmediateAnswer::Direct
                } else if flags.failure_mode_allow {
                    ImmediateAnswer::HaltedOnError
                } else {
                    ImmediateAnswer::InternalError
                },
            ),
            stop: true,
            ..handled(AnswerHandler::NoHandler)
        },
        WorkerEvent::RequestHeaders { mode_override } => WorkerPlan {
            override_request: flags.allow_mode_override && mode_override,
            override_response: flags.allow_mode_override && mode_override,
            ..handled(AnswerHandler::RequestHeaders)
        },
        WorkerEvent::RequestBody => handled(AnswerHandler::RequestBody),
        WorkerEvent::RequestTrailers => handled(AnswerHandler::RequestTrailers),
        WorkerEvent::ResponseHeaders { mode_override } => WorkerPlan {
            override_response: flags.allow_mode_override && mode_override,
            ..handled(AnswerHandler::ResponseHeaders)
        },
        WorkerEvent::ResponseBody { empty } => WorkerPlan { stop: empty, ..handled(AnswerHandler::ResponseBody) },
        WorkerEvent::ResponseTrailers => handled(AnswerHandler::ResponseTrailers),
        WorkerEvent::Unsupported => recovering(flags, false),
        WorkerEvent::StreamClosed => recovering(flags, false),
        WorkerEvent::GrpcError => recovering(flags, false),
        WorkerEvent::MessageTimeout => recovering(flags, true),
    }
}

fn handler_only(handler: AnswerHandler) -> (r: WorkerPlan)
    ensures
        r == handled(handler),
{
    WorkerPlan {
        override_request: false,
        override_response: false,
        handler,
        immediate: None,
        recovery: None,
        stop: false,
    }
}

fn recovery_plan(flags: WorkerFlags, timeout: bool) -> (r: WorkerPlan)
    ensures
        r == recovering(flags, timeout),
{
    WorkerPlan {
        override_request: false,
        override_response: false,
        handler: AnswerHandler::NoHandler,
        immediate: None,
        recovery: Some(Recovery { pass_through: flags.failure_mode_allow, timeout }),
        stop: true,
    }
}

/// What a processing worker does on an event.
pub fn worker_plan(flags: WorkerFlags, event: WorkerEvent) -> (r: WorkerPlan)
    ensures
        r == plan_for(flags, event),
{
    match event {
        WorkerEvent::TasksClosed => WorkerPlan { stop: true, ..handler_only(AnswerHandler::NoHandler) },
        WorkerEvent::TimeoutExtension { accepted } => WorkerPlan { stop: !accepted, ..handler_only(AnswerHandler::NoHandler) },
        WorkerEvent::ImmediateResponse => {
            let answer = if !flags.disable_immediate_response {
                ImmediateAnswer::Direct
            } else if flags.failure_mode_allow {
                ImmediateAnswer::HaltedOnError
            } else {
                ImmediateAnswer::InternalError
            };
            WorkerPlan { immediate: Some(answer), stop: true, ..handler_only(AnswerHandler::NoHandler) }
        },
        WorkerEvent::RequestHeaders { mode_override } => {
            let apply = flags.allow_mode_override && mode_override;
            WorkerPlan { override_request: apply, override_response: apply, ..handler_only(AnswerHandler::RequestHeaders) }
        },
        WorkerEvent::RequestBody => handler_only(AnswerHandler::RequestBody),
        WorkerEvent::RequestTrailers => handler_only(AnswerHandler::RequestTrailers),
        WorkerEvent::ResponseHeaders { mode_override } => {
            let apply = flags.allow_mode_override && mode_override;
            WorkerPlan { override_response: apply, ..handler_only(AnswerHandler::ResponseHeaders) }
        },
        WorkerEvent::ResponseBody { empty } => WorkerPlan { stop: empty, ..handler_only(AnswerHandler::ResponseBody) },
        WorkerEvent::ResponseTrailers => handler_only(AnswerHandler::ResponseTrailers),
        WorkerEvent::Unsupported => recovery_plan(flags, false),
        WorkerEvent::StreamClosed => recovery_plan(flags, false),
        WorkerEvent::GrpcError => recovery_plan(flags, false),
        WorkerEvent::MessageTimeout => recovery_plan(flags, true),
    }
}

/// The statuses that a recovery reports to the request and to the
/// response processing: the timeout status after the message timeout,
/// else the error status with the message.
pub fn recovery_statuses(recovery: Recovery, failure_mode_allow: bool, msg: &str) -> (r: (ProcessingStatus, ProcessingStatus))
    ensures
        failure_mode_allow ==> r.0 is HaltedOnError && r.1 is HaltedOnError,
        !failure_mode_allow && recovery.timeout ==> (r.0 matches ProcessingStatus::EndWithDirectResponse(d)
            && d@ == DirectResponseView::Synthetic(504, None, ResponseFlag::UpstreamRequestTimeout)) && (r.1 matches ProcessingStatus::EndWithDirectResponse(d)
            && d@ == DirectResponseView::Synthetic(504, None, ResponseFlag::UpstreamRequestTimeout)),
        !failure_mode_allow && !recovery.timeout ==> (r.0 matches ProcessingStatus::EndWithDirectResponse(d)
            && d@ == DirectResponseView::Synthetic(500, Some(msg@), ResponseFlag::NoFilterConfigFound)) && (r.1 matches ProcessingStatus::EndWithDirectResponse(d)
            && d@ == DirectResponseView::Synthetic(500, Some(msg@), ResponseFlag::NoFilterConfigFound)),
{
    if recovery.timeout {
        (status_timeout(failure_mode_allow), status_timeout(failure_mode_allow))
    } else {
        (status_error(msg, failure_mode_allow), status_error(msg, failure_mode_allow))
    }
}

/// Every failure of the processor (an unsupported message, a closed or
/// failed stream, the message timeout) stops the worker after a recovery
/// that lets the messages through exactly when the failure mode allows it.
pub proof fn law_failures_stop_the_worker(flags: WorkerFlags, event: WorkerEvent)
    requires
        event == WorkerEvent::Unsupported || event == WorkerEvent::StreamClosed || event == WorkerEvent::GrpcError
            || event == WorkerEvent::MessageTimeout,
    ensures
        plan_for(flags, event).stop,
        plan_for(flags, event).recovery matches Some(rc) && rc.pass_through == flags.failure_mode_allow && rc.timeout == (event
            == WorkerEvent::MessageTimeout),
{
}

/// An immediate response always ends the worker's message; it is sent
/// exactly when immediate responses are enabled.
pub proof fn law_immediate_response_ends(flags: WorkerFlags)
    ensures
        plan_for(flags, WorkerEvent::ImmediateResponse).stop,
        plan_for(flags, WorkerEvent::ImmediateResponse).immediate == Some(ImmediateAnswer::Direct) <==> !flags.disable_immediate_response,
{
}

/// No mode is overridden unless overrides are allowed, and an answer to
/// the response never overrides the request's modes.
pub proof fn law_overrides_need_permission(flags: WorkerFlags, event: WorkerEvent)
    ensures
        !flags.allow_mode_override ==> !plan_for(flags, event).override_request && !plan_for(flags, event).override_response,
        !(event is RequestHeaders) ==> !plan_for(flags, event).override_request,
{
}

/// When the body ends, what was held back leaves in the order it came
/// (data before trailers), and exactly the last frame handed to the
/// processor is marked as the end of the body.
pub proof fn law_drained_frames_keep_order(d: FrameView, t: FrameView, observe: bool)
    ensures
        drained_routes(Some(d), Some(t), true, true, observe) == seq![sent(d, false, observe), sent(t, true, observe)],
        drained_routes(Some(d), None, true, true, observe) == seq![sent(d, true, observe)],
{
}

} // verus!
