use rusty_cli::framing::{encode_request_line, tool_call_params, FrameDecoder};
use rusty_cli::rpc::Correlator;

#[test]
fn request_line_is_newline_terminated_json() {
    let line = encode_request_line(7, "tools/list", &None);
    assert_eq!(line, "{\"jsonrpc\":\"2.0\",\"id\":7,\"method\":\"tools/list\"}\n");
}

#[test]
fn request_line_embeds_params_verbatim() {
    let params = Some("{\"name\":\"sum\",\"arguments\":{\"a\":2}}".to_string());
    let line = encode_request_line(12, "tools/call", &params);
    assert_eq!(
        line,
        "{\"jsonrpc\":\"2.0\",\"id\":12,\"method\":\"tools/call\",\"params\":{\"name\":\"sum\",\"arguments\":{\"a\":2}}}\n"
    );
}

#[test]
fn request_line_escapes_the_method() {
    let line = encode_request_line(1, "we\"ird\nname", &None);
    assert_eq!(line, "{\"jsonrpc\":\"2.0\",\"id\":1,\"method\":\"we\\\"ird\\nname\"}\n");
}

#[test]
fn tool_call_params_wrap_name_and_arguments() {
    let p = tool_call_params("sum", "{\"a\":2,\"b\":3}");
    assert_eq!(p, "{\"name\":\"sum\",\"arguments\":{\"a\":2,\"b\":3}}");
}

#[test]
fn content_length_body_is_read_as_exactly_that_many_bytes() {
    let body = "{\"id\": 1,\n \"result\": [1,\n2]}";
    let mut input = format!("Content-Length: {}\r\n\r\n", body.len());
    input.push_str(body);
    input.push_str("{\"id\":2}\n");
    let mut dec = FrameDecoder::new();
    dec.push_bytes(input.as_bytes());
    let frame = dec.next_frame().expect("a complete frame");
    assert_eq!(frame, body.as_bytes());
    let next = dec.next_frame().expect("the trailing line frame");
    assert_eq!(next, b"{\"id\":2}");
    assert!(dec.next_frame().is_none());
}

#[test]
fn header_case_and_extra_headers_are_tolerated() {
    let body = "{\"x\":true}";
    let mut input = format!("CONTENT-LENGTH: {}\r\n", body.len());
    input.push_str("X-Other: header\r\n\r\n");
    input.push_str(body);
    let mut dec = FrameDecoder::new();
    dec.push_bytes(input.as_bytes());
    assert_eq!(dec.next_frame().expect("frame"), body.as_bytes());
}

#[test]
fn bare_lines_come_out_trimmed_and_blank_lines_vanish() {
    let mut dec = FrameDecoder::new();
    dec.push_bytes(b"\r\n  \r\n{\"id\":9}  \r\n");
    assert_eq!(dec.next_frame().expect("frame"), b"{\"id\":9}");
    assert!(dec.next_frame().is_none());
}

#[test]
fn partial_input_waits_for_the_rest() {
    let mut dec = FrameDecoder::new();
    dec.push_bytes(b"Content-Length: 5\n");
    assert!(dec.next_frame().is_none());
    dec.push_bytes(b"\nab");
    assert!(dec.next_frame().is_none());
    dec.push_bytes(b"cde");
    assert_eq!(dec.next_frame().expect("frame"), b"abcde");
}

#[test]
fn zero_declared_length_yields_no_frame() {
    let mut dec = FrameDecoder::new();
    dec.push_bytes(b"Content-Length: 0\n\n{\"id\":3}\n");
    assert_eq!(dec.next_frame().expect("frame"), b"{\"id\":3}");
}

#[test]
fn call_line_allocates_increasing_ids() {
    let mut c = Correlator::new();
    let (id1, line1) = c.call_line("tools/list", &None);
    let (id2, _line2) = c.call_line("tools/list", &None);
    assert_eq!(id1, 1);
    assert_eq!(id2, 2);
    assert_eq!(line1, "{\"jsonrpc\":\"2.0\",\"id\":1,\"method\":\"tools/list\"}\n");
}
