use dch_core::error::EndpointError;
use dch_core::header::header_value_str;
use dch_core::rest::{
    method_label, request_span_status, route_label, span_name, span_route, validate_tenant_header,
    SpanStatus, X_TENANT_ID,
};
use dch_core::sample::{decode_next, DecodeAction, DecodeEvent, DecodePhase, Sample};
use dch_core::text::decimal_string;

#[test]
fn bounds_unknown_http_methods() {
    assert_eq!(method_label("CUSTOM"), "OTHER");
}

#[test]
fn standard_methods_keep_their_label() {
    for m in ["GET", "POST", "PUT", "PATCH", "DELETE", "HEAD", "OPTIONS", "CONNECT", "TRACE"] {
        assert_eq!(method_label(m), m);
    }
    assert_eq!(method_label("get"), "OTHER");
}

#[test]
fn unmatched_requests_use_the_unmatched_route() {
    assert_eq!(route_label(None), "unmatched");
    assert_eq!(route_label(Some("/connections/{id}".to_string())), "/connections/{id}");
    assert_eq!(span_route(None, "/raw/path"), "/raw/path");
    assert_eq!(span_name("GET", "/connections/{id}"), "GET /connections/{id}");
}

#[test]
fn span_status_marks_server_errors() {
    assert_eq!(request_span_status(true, 204), SpanStatus { status_code: 204, error: false });
    assert_eq!(request_span_status(true, 404), SpanStatus { status_code: 404, error: false });
    assert_eq!(request_span_status(true, 503), SpanStatus { status_code: 503, error: true });
    assert_eq!(request_span_status(false, 400), SpanStatus { status_code: 400, error: true });
}

#[test]
fn tenant_header_is_required_and_must_be_text() {
    assert_eq!(validate_tenant_header(Some(b"test-tenant")).unwrap(), "test-tenant");
    match validate_tenant_header(None) {
        Err(EndpointError::HeaderNotFound(h)) => assert_eq!(h, X_TENANT_ID),
        other => panic!("unexpected {:?}", other),
    }
    match validate_tenant_header(Some(b"")) {
        Err(EndpointError::InvalidHeaderValue(h)) => assert_eq!(h, X_TENANT_ID),
        other => panic!("unexpected {:?}", other),
    }
    match validate_tenant_header(Some(b"\xff\xfe")) {
        Err(EndpointError::InvalidHeaderValue(h)) => assert_eq!(h, X_TENANT_ID),
        other => panic!("unexpected {:?}", other),
    }
}

#[test]
fn header_values_are_text_only_when_visible_ascii() {
    assert_eq!(header_value_str(b"abc def\tx~").as_deref(), Some("abc def\tx~"));
    assert_eq!(header_value_str(b"\xff\xfe"), None);
    assert_eq!(header_value_str(b"a\x7f"), None);
    assert_eq!(header_value_str(b"caf\xc3\xa9"), None);
    assert_eq!(header_value_str(b"").as_deref(), Some(""));
}

#[test]
fn sample_stops_when_full_and_ends_on_a_record() {
    let mut sample = Sample::new();
    assert!(!sample.push_chunk(b"a,b\n1,2\n3,"));
    assert_eq!(sample.finish(), b"a,b\n1,2\n".to_vec());
    let mut sample = Sample::new();
    assert!(!sample.push_chunk(b"no newline"));
    assert_eq!(sample.finish(), b"no newline".to_vec());
    let mut sample = Sample::new();
    let big = vec![b'x'; 1048576];
    assert!(sample.push_chunk(&big));
}

#[test]
fn decoding_feeds_each_chunk_and_flushes_when_full() {
    let mut phase = DecodePhase::Reading;
    let steps = [
        (DecodeEvent::Chunk { len: 10 }, DecodeAction::Decode { offset: 0 }),
        (DecodeEvent::Consumed { n: 4 }, DecodeAction::Decode { offset: 4 }),
        (DecodeEvent::Consumed { n: 0 }, DecodeAction::Flush),
        (DecodeEvent::Flushed { batch: true }, DecodeAction::Decode { offset: 4 }),
        (DecodeEvent::Consumed { n: 6 }, DecodeAction::ReadChunk),
        (DecodeEvent::Chunk { len: 0 }, DecodeAction::ReadChunk),
        (DecodeEvent::Chunk { len: 5 }, DecodeAction::Decode { offset: 0 }),
        (DecodeEvent::Consumed { n: 0 }, DecodeAction::Flush),
        (DecodeEvent::Flushed { batch: false }, DecodeAction::ReadChunk),
        (DecodeEvent::InputEnd, DecodeAction::DecodeEnd),
        (DecodeEvent::Consumed { n: 0 }, DecodeAction::Flush),
        (DecodeEvent::Flushed { batch: true }, DecodeAction::Stop),
    ];
    for (event, expected) in steps {
        let (next, action) = decode_next(phase, event);
        assert_eq!(action, expected);
        phase = next;
    }
    assert_eq!(phase, DecodePhase::Done);
}

#[test]
fn decimal_strings() {
    for n in [0u64, 7, 10, 99, 100, 134217728, u64::MAX] {
        assert_eq!(decimal_string(n), n.to_string());
    }
}
