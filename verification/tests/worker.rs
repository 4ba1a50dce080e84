use orion_lib::ext_proc::{BodyFrame, FrameBuffer, ProcessingStatus};
use orion_lib::filter_decision::{DirectResponse, SyntheticResponse};
use orion_lib::headers::HeaderMap;
use orion_lib::worker::{
    drain_frames, recovery_statuses, route_arriving_frame, worker_plan, AnswerHandler, FrameRoute, ImmediateAnswer, Recovery,
    WorkerEvent, WorkerFlags,
};

fn flags(failure_mode_allow: bool, disable_immediate_response: bool, allow_mode_override: bool) -> WorkerFlags {
    WorkerFlags { failure_mode_allow, disable_immediate_response, allow_mode_override }
}

fn data(bytes: &[u8]) -> BodyFrame {
    BodyFrame::Data(bytes.to_vec())
}

fn trailers() -> BodyFrame {
    let mut h = HeaderMap::new();
    h.insert("x-trailer", b"t".to_vec());
    BodyFrame::Trailers(h)
}

fn data_of(route: &FrameRoute) -> Option<Vec<u8>> {
    match route {
        FrameRoute::Send { frame: BodyFrame::Data(d), .. }
        | FrameRoute::Mirror { frame: BodyFrame::Data(d), .. }
        | FrameRoute::Inject { frame: BodyFrame::Data(d) }
        | FrameRoute::ParkTrailers { frame: BodyFrame::Data(d) } => Some(d.clone()),
        _ => None,
    }
}

#[test]
fn first_frame_is_held_back() {
    let mut buffer = FrameBuffer::new();
    assert!(route_arriving_frame(&mut buffer, data(b"a"), true, false).is_none());
    assert!(buffer.has_data());
}

#[test]
fn second_frame_pushes_out_the_first() {
    let mut buffer = FrameBuffer::new();
    route_arriving_frame(&mut buffer, data(b"a"), true, false);
    let out = route_arriving_frame(&mut buffer, data(b"b"), true, false).unwrap();
    match &out {
        FrameRoute::Send { end_of_stream, .. } => assert!(!end_of_stream),
        other => panic!("unexpected route {other:?}"),
    }
    assert_eq!(data_of(&out), Some(b"a".to_vec()));
}

#[test]
fn unprocessed_body_is_injected() {
    let mut buffer = FrameBuffer::new();
    route_arriving_frame(&mut buffer, data(b"a"), false, false);
    let out = route_arriving_frame(&mut buffer, data(b"b"), false, false).unwrap();
    assert!(matches!(out, FrameRoute::Inject { .. }));
}

#[test]
fn observer_mirrors_frames() {
    let mut buffer = FrameBuffer::new();
    route_arriving_frame(&mut buffer, data(b"a"), true, true);
    let out = route_arriving_frame(&mut buffer, data(b"b"), true, true).unwrap();
    assert!(matches!(out, FrameRoute::Mirror { end_of_stream: false, .. }));
}

#[test]
fn drain_marks_the_last_frame() {
    let mut buffer = FrameBuffer::new();
    route_arriving_frame(&mut buffer, data(b"a"), true, false);
    let routes = drain_frames(&mut buffer, true, true, false);
    assert_eq!(routes.len(), 1);
    assert!(matches!(routes[0], FrameRoute::Send { end_of_stream: true, .. }));
    assert!(!buffer.has_data());
    assert!(!buffer.has_trailers());
}

#[test]
fn trailers_push_out_the_data_and_drain_last() {
    let mut buffer = FrameBuffer::new();
    route_arriving_frame(&mut buffer, data(b"a"), true, false);
    let pushed = route_arriving_frame(&mut buffer, trailers(), true, false).unwrap();
    assert_eq!(data_of(&pushed), Some(b"a".to_vec()));
    let routes = drain_frames(&mut buffer, true, true, false);
    assert_eq!(routes.len(), 1);
    assert!(matches!(routes[0], FrameRoute::Send { frame: BodyFrame::Trailers(_), end_of_stream: true }));
}

#[test]
fn unprocessed_trailers_are_held_or_injected() {
    let mut buffer = FrameBuffer::new();
    buffer.park(trailers());
    let routes = drain_frames(&mut buffer, true, false, false);
    assert_eq!(routes.len(), 1);
    assert!(matches!(routes[0], FrameRoute::ParkTrailers { .. }));
    let mut buffer = FrameBuffer::new();
    buffer.park(trailers());
    let routes = drain_frames(&mut buffer, true, false, true);
    assert!(matches!(routes[0], FrameRoute::Inject { .. }));
}

#[test]
fn drain_of_empty_buffer_is_empty() {
    let mut buffer = FrameBuffer::new();
    assert!(drain_frames(&mut buffer, true, true, false).is_empty());
}

#[test]
fn data_after_trailers_is_dropped() {
    let mut buffer = FrameBuffer::new();
    buffer.park(trailers());
    assert!(buffer.park(data(b"late")).is_none());
    assert!(!buffer.has_data());
    assert!(buffer.has_trailers());
}

#[test]
fn failures_stop_with_recovery() {
    for event in [WorkerEvent::Unsupported, WorkerEvent::StreamClosed, WorkerEvent::GrpcError] {
        let plan = worker_plan(flags(true, false, false), event);
        assert!(plan.stop);
        assert_eq!(plan.recovery, Some(Recovery { pass_through: true, timeout: false }));
    }
    let plan = worker_plan(flags(false, false, false), WorkerEvent::MessageTimeout);
    assert_eq!(plan.recovery, Some(Recovery { pass_through: false, timeout: true }));
}

#[test]
fn immediate_response_answers() {
    assert_eq!(worker_plan(flags(false, false, false), WorkerEvent::ImmediateResponse).immediate, Some(ImmediateAnswer::Direct));
    assert_eq!(
        worker_plan(flags(true, true, false), WorkerEvent::ImmediateResponse).immediate,
        Some(ImmediateAnswer::HaltedOnError)
    );
    assert_eq!(
        worker_plan(flags(false, true, false), WorkerEvent::ImmediateResponse).immediate,
        Some(ImmediateAnswer::InternalError)
    );
}

#[test]
fn mode_overrides_need_permission() {
    let plan = worker_plan(flags(false, false, true), WorkerEvent::RequestHeaders { mode_override: true });
    assert!(plan.override_request && plan.override_response);
    assert_eq!(plan.handler, AnswerHandler::RequestHeaders);
    let plan = worker_plan(flags(false, false, false), WorkerEvent::RequestHeaders { mode_override: true });
    assert!(!plan.override_request && !plan.override_response);
    let plan = worker_plan(flags(false, false, true), WorkerEvent::ResponseHeaders { mode_override: true });
    assert!(!plan.override_request && plan.override_response);
}

#[test]
fn empty_response_body_answer_stops() {
    assert!(worker_plan(flags(false, false, false), WorkerEvent::ResponseBody { empty: true }).stop);
    assert!(!worker_plan(flags(false, false, false), WorkerEvent::ResponseBody { empty: false }).stop);
    assert!(worker_plan(flags(false, false, false), WorkerEvent::TimeoutExtension { accepted: false }).stop);
    assert!(!worker_plan(flags(false, false, false), WorkerEvent::TimeoutExtension { accepted: true }).stop);
    assert!(worker_plan(flags(false, false, false), WorkerEvent::TasksClosed).stop);
}

#[test]
fn recovery_reports_timeout_or_error() {
    let (a, b) = recovery_statuses(Recovery { pass_through: false, timeout: true }, false, "boom");
    assert!(matches!(a, ProcessingStatus::EndWithDirectResponse(DirectResponse::Synthetic(SyntheticResponse { status: 504, .. }))));
    assert!(matches!(b, ProcessingStatus::EndWithDirectResponse(DirectResponse::Synthetic(SyntheticResponse { status: 504, .. }))));
    let (a, _) = recovery_statuses(Recovery { pass_through: false, timeout: false }, false, "boom");
    match a {
        ProcessingStatus::EndWithDirectResponse(DirectResponse::Synthetic(r)) => {
            assert_eq!(r.status, 500);
            assert_eq!(r.message.as_deref(), Some("boom"));
        },
        other => panic!("unexpected status {other:?}"),
    }
    let (a, _) = recovery_statuses(Recovery { pass_through: true, timeout: false }, true, "boom");
    assert!(matches!(a, ProcessingStatus::HaltedOnError));
}

#[test]
fn frames_leave_the_buffer_in_arrival_order() {
    let mut buffer = FrameBuffer::new();
    let mut out: Vec<BodyFrame> = Vec::new();
    for chunk in [b"a".to_vec(), b"b".to_vec(), b"c".to_vec()] {
        if let Some(f) = buffer.park(BodyFrame::Data(chunk)) {
            out.push(f);
        }
    }
    if let Some(f) = buffer.park(BodyFrame::Trailers(orion_lib::headers::HeaderMap::new())) {
        out.push(f);
    }
    while let Some(f) = buffer.take() {
        out.push(f);
    }
    assert_eq!(out.len(), 4);
    let datas: Vec<Vec<u8>> = out
        .iter()
        .filter_map(|f| match f {
            BodyFrame::Data(d) => Some(d.clone()),
            BodyFrame::Trailers(_) => None,
        })
        .collect();
    assert_eq!(datas, vec![b"a".to_vec(), b"b".to_vec(), b"c".to_vec()]);
    assert!(matches!(out[3], BodyFrame::Trailers(_)));
}
