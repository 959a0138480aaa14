use rusty_cli::rpc::{Correlator, RpcOutcome};

fn frame(id: u64, result: &str) -> Vec<u8> {
    format!("{{\"jsonrpc\":\"2.0\",\"id\":{},\"result\":{}}}", id, result).into_bytes()
}

#[test]
fn each_caller_receives_exactly_its_own_id() {
    let mut c = Correlator::new();
    let a = c.begin_call();
    let b = c.begin_call();
    assert!(c.on_frame(&frame(a, "\"for a\"")));
    assert!(c.on_frame(&frame(b, "\"for b\"")));
    match c.take(a) {
        Some(RpcOutcome::Success(s)) => assert_eq!(s, "\"for a\""),
        _ => panic!("caller a must see its own result"),
    }
    match c.take(b) {
        Some(RpcOutcome::Success(s)) => assert_eq!(s, "\"for b\""),
        _ => panic!("caller b must see its own result"),
    }
}

#[test]
fn out_of_order_arrival_still_correlates_by_id() {
    let mut c = Correlator::new();
    let first = c.begin_call();
    let second = c.begin_call();
    // the later call's response arrives first
    assert!(c.on_frame(&frame(second, "6")));
    assert!(c.on_frame(&frame(first, "5")));
    match c.take(first) {
        Some(RpcOutcome::Success(s)) => assert_eq!(s, "5"),
        _ => panic!("first caller must see 5"),
    }
    match c.take(second) {
        Some(RpcOutcome::Success(s)) => assert_eq!(s, "6"),
        _ => panic!("second caller must see 6"),
    }
}

#[test]
fn unsolicited_ids_are_dropped() {
    let mut c = Correlator::new();
    let a = c.begin_call();
    assert!(!c.on_frame(&frame(99, "1")));
    assert!(c.take(99).is_none());
    assert!(c.take(a).is_none());
}

#[test]
fn malformed_frames_are_dropped_and_not_fatal() {
    let mut c = Correlator::new();
    let a = c.begin_call();
    assert!(!c.on_frame(b"garbage"));
    assert!(c.on_frame(&frame(a, "42")));
    match c.take(a) {
        Some(RpcOutcome::Success(s)) => assert_eq!(s, "42"),
        _ => panic!("the call must still complete"),
    }
}

#[test]
fn a_reply_is_consumed_at_most_once() {
    let mut c = Correlator::new();
    let a = c.begin_call();
    assert!(c.on_frame(&frame(a, "1")));
    assert!(c.take(a).is_some());
    assert!(c.take(a).is_none());
}

#[test]
fn cancelled_calls_never_receive_late_replies() {
    let mut c = Correlator::new();
    let a = c.begin_call();
    c.cancel(a);
    assert!(!c.on_frame(&frame(a, "1")));
    assert!(c.take(a).is_none());
    // the transport stays usable
    let b = c.begin_call();
    assert!(c.on_frame(&frame(b, "2")));
    assert!(c.take(b).is_some());
}

#[test]
fn error_envelopes_fail_the_call() {
    let mut c = Correlator::new();
    let a = c.begin_call();
    let f = format!("{{\"jsonrpc\":\"2.0\",\"id\":{},\"error\":{{\"code\":-32601}}}}", a);
    assert!(c.on_frame(f.as_bytes()));
    match c.take(a) {
        Some(RpcOutcome::Failure(e)) => assert_eq!(e, "{\"code\":-32601}"),
        _ => panic!("must surface the error"),
    }
}
