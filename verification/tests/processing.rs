use orion_lib::ext_proc::{BodyFrame, ProcessingStatus, RouteCacheAction};
use orion_lib::headers::HeaderMap;
use orion_lib::mutation::{HeaderAppendAction, HeaderMutation, HeaderValue, HeaderValueOption};
use orion_lib::processing::{
    BodyAnswer, BodyOp, BodyReplacement, HeadersAnswer, MessageProcessing, OutgoingMessage, StepAction, CONTINUE_AND_REPLACE,
};

fn request_processing() -> MessageProcessing {
    MessageProcessing::new(true, false, false, false)
}

fn headers(pairs: &[(&str, &str)]) -> HeaderMap {
    let mut h = HeaderMap::new();
    for (n, v) in pairs {
        h.append(n, v.as_bytes().to_vec());
    }
    h
}

fn ready_request(status: &ProcessingStatus) -> bool {
    matches!(status, ProcessingStatus::RequestReady(_))
}

#[test]
fn process_sends_headers_marked_end_when_body_is_empty() {
    let mut p = request_processing();
    let action = p.process(Some(headers(&[("host", "example.com")])), true, true, true);
    match action {
        StepAction::Send(OutgoingMessage::Headers { is_request, headers, end_of_stream, observability }) => {
            assert!(is_request);
            assert!(end_of_stream);
            assert!(!observability);
            assert_eq!(headers.len(), 1);
            assert_eq!(headers[0].key, "host");
            assert_eq!(headers[0].value, "example.com");
        },
        other => panic!("unexpected action {other:?}"),
    }
    assert!(!p.streaming_body_enabled);
}

#[test]
fn process_without_headers_streams_the_body() {
    let mut p = request_processing();
    let action = p.process(None, false, true, true);
    assert!(matches!(action, StepAction::Report(ref s) if ready_request(s)));
    assert!(p.streaming_body_enabled);
}

#[test]
fn observer_streams_at_once() {
    let mut p = MessageProcessing::new(false, true, false, false);
    p.process(Some(headers(&[])), false, false, false);
    assert!(p.streaming_body_enabled);
}

#[test]
fn send_without_waiting_streams_when_body_is_processed() {
    let mut p = MessageProcessing::new(true, false, false, true);
    p.process(Some(headers(&[])), false, true, false);
    assert!(p.streaming_body_enabled);
    let mut q = MessageProcessing::new(true, false, false, true);
    q.process(Some(headers(&[])), false, false, false);
    assert!(!q.streaming_body_enabled);
}

#[test]
fn headers_answer_without_body_processing_completes_and_closes() {
    let mut p = request_processing();
    let mut ops = Vec::new();
    let mut timeout = true;
    let answer = HeadersAnswer {
        header_mutation: None,
        clear_route_cache: true,
        status: 0,
        body_mutation: None,
        trailers: None,
    };
    let status = p.handle_headers_response(Some(answer), RouteCacheAction::Default, false, false, &mut timeout, &mut ops);
    match status {
        ProcessingStatus::RequestReady(r) => assert!(r.clear_route_cache),
        other => panic!("unexpected status {other:?}"),
    }
    assert!(!timeout);
    assert!(matches!(ops.as_slice(), [BodyOp::Complete, BodyOp::Close]));
}

#[test]
fn headers_answer_with_replacement_injects_and_closes() {
    let mut p = request_processing();
    let mut ops = Vec::new();
    let mut timeout = true;
    let answer = HeadersAnswer {
        header_mutation: None,
        clear_route_cache: true,
        status: CONTINUE_AND_REPLACE,
        body_mutation: Some(BodyReplacement::Body(b"new".to_vec())),
        trailers: None,
    };
    let status = p.handle_headers_response(Some(answer), RouteCacheAction::Retain, true, true, &mut timeout, &mut ops);
    match status {
        ProcessingStatus::RequestReady(r) => assert!(!r.clear_route_cache),
        other => panic!("unexpected status {other:?}"),
    }
    assert_eq!(ops.len(), 2);
    assert!(matches!(&ops[0], BodyOp::Inject(BodyFrame::Data(d)) if d == b"new"));
    assert!(matches!(ops[1], BodyOp::Close));
}

#[test]
fn headers_answer_with_body_processing_streams() {
    let mut p = request_processing();
    let mut ops = Vec::new();
    let mut timeout = true;
    let answer =
        HeadersAnswer { header_mutation: None, clear_route_cache: false, status: 0, body_mutation: None, trailers: None };
    p.handle_headers_response(Some(answer), RouteCacheAction::Clear, true, false, &mut timeout, &mut ops);
    assert!(p.streaming_body_enabled);
    assert!(ops.is_empty());
    assert!(!timeout);
}

#[test]
fn body_answer_puts_back_the_oldest_frame() {
    let mut p = request_processing();
    p.inflight_frames.push(BodyFrame::Data(b"one".to_vec()));
    p.inflight_frames.push(BodyFrame::Data(b"two".to_vec()));
    let mut ops = Vec::new();
    let mut timeout = true;
    let answer = BodyAnswer { header_mutation: None, clear_route_cache: false, status: 0, body_mutation: None };
    let status = p.handle_body_response(Some(answer), None, &mut timeout, &mut ops);
    assert!(ready_request(&status));
    assert!(matches!(&ops[..], [BodyOp::Inject(BodyFrame::Data(d))] if d == b"one"));
    assert_eq!(p.inflight_frames.len(), 1);
    assert!(timeout);
}

#[test]
fn body_answer_at_end_closes() {
    let mut p = request_processing();
    p.end_of_stream = true;
    p.inflight_frames.push(BodyFrame::Data(b"only".to_vec()));
    let mut ops = Vec::new();
    let mut timeout = true;
    let answer = BodyAnswer {
        header_mutation: None,
        clear_route_cache: false,
        status: 0,
        body_mutation: Some(BodyReplacement::ClearBody(true)),
    };
    p.handle_body_response(Some(answer), None, &mut timeout, &mut ops);
    assert!(matches!(&ops[..], [BodyOp::Inject(BodyFrame::Data(d)), BodyOp::Close] if d.is_empty()));
    assert!(p.inflight_frames.is_empty());
    assert!(!timeout);
}

#[test]
fn empty_body_answer_is_an_error() {
    let mut p = request_processing();
    let mut ops = Vec::new();
    let mut timeout = true;
    let status = p.handle_body_response(None, None, &mut timeout, &mut ops);
    assert!(matches!(status, ProcessingStatus::EndWithDirectResponse(_)));
    assert!(ops.is_empty());
}

#[test]
fn trailers_answer_mutates_kept_trailers() {
    let mut p = request_processing();
    let action = p.handle_outgoing_body_chunk(BodyFrame::Trailers(headers(&[("x-t", "1")])), true);
    assert!(matches!(action, StepAction::Send(OutgoingMessage::Trailers { .. })));
    let mutation = HeaderMutation {
        set_headers: vec![HeaderValueOption {
            header: Some(HeaderValue { key: "x-new".to_string(), value: "2".to_string(), raw_value: Vec::new() }),
            append_action: HeaderAppendAction::AppendIfExistsOrAdd,
        }],
        remove_headers: vec!["x-t".to_string()],
    };
    let mut ops = Vec::new();
    let mut timeout = true;
    let status = p.handle_trailers_response(Some(mutation), &mut timeout, &mut ops);
    assert!(ready_request(&status));
    assert_eq!(ops.len(), 2);
    match &ops[0] {
        BodyOp::Inject(BodyFrame::Trailers(t)) => {
            assert!(t.contains_key("x-new"));
            assert!(!t.contains_key("x-t"));
        },
        other => panic!("unexpected op {other:?}"),
    }
    assert!(p.end_of_stream);
    assert!(p.trailers.is_none());
}

#[test]
fn trailers_answer_without_trailers_is_an_error() {
    let mut p = request_processing();
    let mut ops = Vec::new();
    let mut timeout = true;
    let status = p.handle_trailers_response(None, &mut timeout, &mut ops);
    assert!(matches!(status, ProcessingStatus::EndWithDirectResponse(_)));
    assert!(matches!(ops.as_slice(), [BodyOp::Close]));
}

#[test]
fn closing_puts_back_parked_trailers_first() {
    let mut p = request_processing();
    p.parked_trailers = Some(BodyFrame::Trailers(headers(&[("x", "y")])));
    let mut ops = Vec::new();
    let mut timeout = true;
    p.close_body(&mut timeout, &mut ops);
    assert!(matches!(ops.as_slice(), [BodyOp::Inject(BodyFrame::Trailers(_)), BodyOp::Close]));
    assert!(p.parked_trailers.is_none());
}

#[test]
fn inflight_frames_are_put_back_in_order() {
    let mut p = request_processing();
    p.inflight_frames.push(BodyFrame::Data(b"1".to_vec()));
    p.inflight_frames.push(BodyFrame::Data(b"2".to_vec()));
    let mut ops = Vec::new();
    p.inject_inflight_frames_and_complete(&mut ops);
    assert!(matches!(&ops[..], [BodyOp::Inject(BodyFrame::Data(a)), BodyOp::Inject(BodyFrame::Data(b)), BodyOp::Complete] if a == b"1" && b == b"2"));
    assert!(p.inflight_frames.is_empty());
}

#[test]
fn data_chunk_is_sent_as_body() {
    let mut p = MessageProcessing::new(false, false, false, false);
    match p.handle_outgoing_body_chunk(BodyFrame::Data(b"xyz".to_vec()), false) {
        StepAction::Send(OutgoingMessage::Body { is_request, body, end_of_stream, .. }) => {
            assert!(!is_request);
            assert_eq!(body, b"xyz");
            assert!(!end_of_stream);
        },
        other => panic!("unexpected action {other:?}"),
    }
}
