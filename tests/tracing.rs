use aleph_alpha_client::TraceContext;

#[test]
fn trace_flags_if_sampled() {
    let trace_id = 0x4bf92f3577b34da6a3ce929d0e0e4736;
    let span_id = 0x00f067aa0ba902b7;
    let trace_context = TraceContext::new_sampled(trace_id, span_id, None);
    assert_eq!(trace_context.trace_flags(), 0x01);
}

#[test]
fn trace_flags_if_not_sampled() {
    let trace_id = 0x4bf92f3577b34da6a3ce929d0e0e4736;
    let span_id = 0x00f067aa0ba902b7;
    let trace_context = TraceContext::new_unsampled(trace_id, span_id, None);
    assert_eq!(trace_context.trace_flags(), 0x00);
}

#[test]
fn traceparent_generation_if_sampled() {
    let trace_id = 0x4bf92f3577b34da6a3ce929d0e0e4736;
    let span_id = 0x00f067aa0ba902b7;
    let trace_context = TraceContext::new_sampled(trace_id, span_id, None);
    assert_eq!(
        trace_context.traceparent(),
        "00-4bf92f3577b34da6a3ce929d0e0e4736-00f067aa0ba902b7-01"
    );
}

#[test]
fn traceparent_generation_if_not_sampled() {
    let trace_id = 0x4bf92f3577b34da6a3ce929d0e0e4736;
    let span_id = 0x00f067aa0ba902b7;
    let trace_context = TraceContext::new_unsampled(trace_id, span_id, None);
    assert_eq!(
        trace_context.traceparent(),
        "00-4bf92f3577b34da6a3ce929d0e0e4736-00f067aa0ba902b7-00"
    );
}

#[test]
fn headers_include_traceparent() {
    let trace_id = 0x4bf92f3577b34da6a3ce929d0e0e4736;
    let span_id = 0x00f067aa0ba902b7;
    let trace_context = TraceContext::new_sampled(trace_id, span_id, None);
    let mut headers = trace_context.as_w3c_headers().into_iter();

    // get first header
    let header = headers.next().unwrap();
    assert_eq!(header.0, "traceparent");
    assert_eq!(header.1, trace_context.traceparent());
    assert!(headers.next().is_none());
}

#[test]
fn non_empty_tracestate_is_included() {
    let trace_id = 0x4bf92f3577b34da6a3ce929d0e0e4736;
    let span_id = 0x00f067aa0ba902b7;
    let trace_context = TraceContext::new_sampled(trace_id, span_id, Some("foo=bar".to_string()));
    let mut headers = trace_context.as_w3c_headers().into_iter();

    // get first header
    let header = headers.next().unwrap();
    assert_eq!(header.0, "traceparent");
    assert_eq!(header.1, trace_context.traceparent());

    // get second header
    let header = headers.next().unwrap();
    assert_eq!(header.0, "tracestate");
    assert_eq!(header.1, "foo=bar");
    assert!(headers.next().is_none());
}

#[test]
fn empty_tracestate_is_left_out() {
    let trace_context = TraceContext::new_sampled(1, 2, Some(String::new()));
    let headers = trace_context.as_w3c_headers();
    assert_eq!(headers.len(), 1);
    assert_eq!(headers[0].0, "traceparent");
}

#[test]
fn traceparent_pads_small_and_extreme_ids() {
    let small = TraceContext::new_unsampled(0xa, 0xff, None);
    assert_eq!(
        small.traceparent(),
        "00-0000000000000000000000000000000a-00000000000000ff-00"
    );
    let large = TraceContext::new(u128::MAX, u64::MAX, true, None);
    assert_eq!(
        large.traceparent(),
        "00-ffffffffffffffffffffffffffffffff-ffffffffffffffff-01"
    );
}
