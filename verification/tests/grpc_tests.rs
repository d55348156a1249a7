use dch_core::header::header_value_str;
use dch_core::grpc::{
    grpc_call_outcome, grpc_span_fields, parse_i32, split_grpc_path, CallOutcome, StreamPoll,
    StreamRecord, StreamTally, TraceLayer,
};

#[test]
fn test_split_grpc_path_service_and_method() {
    let (service, method) = split_grpc_path("/arrow.flight.protocol.FlightService/DoGet");
    assert_eq!(service, "arrow.flight.protocol.FlightService");
    assert_eq!(method, "DoGet");
}

#[test]
fn test_split_grpc_path_without_method() {
    let (service, method) = split_grpc_path("/health");
    assert_eq!(service, "health");
    assert_eq!(method, "");
}

#[test]
fn split_grpc_path_trims_every_leading_slash_and_splits_at_the_last() {
    assert_eq!(split_grpc_path("///a.B/c/D"), ("a.B/c", "D"));
    assert_eq!(split_grpc_path(""), ("", ""));
    let (s, m) = split_grpc_path("/pkg.Svc/Call");
    assert_eq!(format!("{}/{}", s, m), "pkg.Svc/Call");
}

#[test]
fn every_call_gets_span_fields_health_checks_included() {
    let f = grpc_span_fields("/grpc.health.v1.Health/Check");
    assert_eq!((f.name.as_str(), f.service.as_str(), f.method.as_str()), ("grpc.health.v1.Health/Check", "grpc.health.v1.Health", "Check"));
    let f = grpc_span_fields("/arrow.flight.protocol.FlightService/DoGet");
    assert_eq!(f.name, "arrow.flight.protocol.FlightService/DoGet");
    assert_eq!(f.service, "arrow.flight.protocol.FlightService");
    assert_eq!(f.method, "DoGet");
}

#[test]
fn i32_parsing_follows_from_str() {
    assert_eq!(parse_i32("0"), Some(0));
    assert_eq!(parse_i32("+14"), Some(14));
    assert_eq!(parse_i32("-2147483648"), Some(i32::MIN));
    assert_eq!(parse_i32("2147483647"), Some(i32::MAX));
    assert_eq!(parse_i32("2147483648"), None);
    assert_eq!(parse_i32("99999999999999999999"), None);
    assert_eq!(parse_i32(""), None);
    assert_eq!(parse_i32("-"), None);
    assert_eq!(parse_i32("1x"), None);
    assert_eq!(parse_i32(" 1"), None);
    for s in ["7", "-7", "+0", "12a", "", "-", "2147483647", "-2147483649"] {
        assert_eq!(parse_i32(s), s.parse::<i32>().ok());
    }
}

#[test]
fn grpc_status_decides_the_span_status() {
    assert_eq!(grpc_call_outcome(false, None), CallOutcome { status_code: None, error: true });
    assert_eq!(grpc_call_outcome(true, None), CallOutcome { status_code: None, error: false });
    assert_eq!(grpc_call_outcome(true, Some(b"0")), CallOutcome { status_code: Some(0), error: false });
    assert_eq!(grpc_call_outcome(true, Some(b"5")), CallOutcome { status_code: Some(5), error: true });
    assert_eq!(grpc_call_outcome(true, Some(b"oops")), CallOutcome { status_code: None, error: false });
    assert_eq!(grpc_call_outcome(true, Some(b"\xff")), CallOutcome { status_code: None, error: false });
}

#[test]
fn test_traced_stream_passes_items_through_and_counts_them() {
    let mut tally = StreamTally::new();
    assert_eq!(tally.observe(StreamPoll::Pending), StreamRecord::Nothing);
    assert_eq!(tally.observe(StreamPoll::Batch), StreamRecord::Nothing);
    assert_eq!(tally.observe(StreamPoll::Batch), StreamRecord::Nothing);
    assert_eq!(tally.observe(StreamPoll::Batch), StreamRecord::Nothing);
    assert_eq!(tally.observe(StreamPoll::Ended), StreamRecord::Completion { batch_count: 3 });
    assert_eq!(tally.batches, 3);
}

#[test]
fn test_traced_stream_passes_errors_through() {
    let mut tally = StreamTally::new();
    tally.observe(StreamPoll::Batch);
    assert_eq!(tally.observe(StreamPoll::Failed), StreamRecord::Failure { batch_count: 1 });
    assert_eq!(tally.batches, 1);
}

#[test]
fn test_traced_stream_handles_empty_stream() {
    let mut tally = StreamTally::new();
    assert_eq!(tally.observe(StreamPoll::Ended), StreamRecord::Completion { batch_count: 0 });
    assert_eq!(tally.batches, 0);
}

#[test]
fn trace_layer_wraps_the_inner_service() {
    let layer = TraceLayer::new();
    let middleware = layer.layer(42u8);
    assert_eq!(middleware.inner, 42u8);
}

#[test]
fn test_metadata_extractor_skips_non_ascii_values() {
    assert_eq!(header_value_str(b"\xff\xfe"), None);
    assert_eq!(header_value_str(b"awc"), Some("awc".to_string()));
}
