use lsproxy::json_rpc::{
    frame_message, header_step, is_awaited_response, push_decimal, response_outcome, ExpectedMessageKey,
    HeaderStep, JsonRpcError, JsonRpcHandler, JsonRpcMessage, PendingRequests, route_message,
};

#[test]
fn requests_are_numbered_from_zero() {
    let mut h = JsonRpcHandler::new();
    let (id0, r0) = h.create_request("initialize", Some("{\"a\":1}".to_string()));
    let (id1, r1) = h.create_request("shutdown", None);
    assert_eq!(id0, 0);
    assert_eq!(id1, 1);
    assert_eq!(r0, "{\"id\":0,\"jsonrpc\":\"2.0\",\"method\":\"initialize\",\"params\":{\"a\":1}}");
    assert_eq!(r1, "{\"id\":1,\"jsonrpc\":\"2.0\",\"method\":\"shutdown\",\"params\":null}");
}

#[test]
fn method_names_are_escaped() {
    let h = JsonRpcHandler::new();
    let n = h.create_notification("odd\"name", "{}");
    assert_eq!(n, "{\"jsonrpc\":\"2.0\",\"method\":\"odd\\\"name\",\"params\":{}}");
    assert_eq!(h.create_success_response(42), "{\"id\":42,\"jsonrpc\":\"2.0\",\"result\":null}");
}

#[test]
fn messages_are_framed_with_their_byte_length() {
    assert_eq!(frame_message("{}"), "Content-Length: 2\r\n\r\n{}");
    assert_eq!(frame_message("é"), "Content-Length: 2\r\n\r\né");
    let mut s = String::new();
    push_decimal(&mut s, 1234567890);
    assert_eq!(s, "1234567890");
}

fn message(id: Option<u64>, method: Option<&str>, result: Option<&str>, error: Option<&str>) -> JsonRpcMessage {
    JsonRpcMessage {
        jsonrpc: "2.0".to_string(),
        id,
        method: method.map(|m| m.to_string()),
        params: None,
        result: result.map(|r| r.to_string()),
        error: error.map(|m| JsonRpcError { code: -32000, message: m.to_string(), data: None }),
    }
}

#[test]
fn responses_come_to_their_result_or_error() {
    assert_eq!(response_outcome(&message(Some(1), None, Some("[1]"), None)), Ok("[1]".to_string()));
    assert_eq!(response_outcome(&message(Some(1), None, None, Some("KeyError: 'x'"))), Ok("[]".to_string()));
    assert_eq!(response_outcome(&message(Some(1), None, None, None)), Ok("null".to_string()));
    let e = response_outcome(&message(Some(1), None, None, Some("boom"))).unwrap_err();
    assert_eq!(e.message, "boom");
}

#[test]
fn log_messages_and_notifications_are_passed_over() {
    assert!(is_awaited_response(&message(Some(3), None, Some("1"), None)));
    assert!(!is_awaited_response(&message(None, Some("textDocument/publishDiagnostics"), None, None)));
    assert!(!is_awaited_response(&message(Some(3), Some("window/logMessage"), None, None)));
}

#[test]
fn header_lines_give_the_body_length() {
    assert_eq!(header_step("Content-Length: 52\r\n", None), HeaderStep::Length(52));
    assert_eq!(header_step("Content-Type: x\r\n", Some(52)), HeaderStep::Skip);
    assert_eq!(header_step("\r\n", Some(52)), HeaderStep::ReadBody(52));
    assert_eq!(header_step("\r\n", None), HeaderStep::Skip);
    assert_eq!(header_step("Content-Length: lots\r\n", None), HeaderStep::BadLength);
}

#[test]
fn pending_requests_hand_back_their_channel_once() {
    let mut p: PendingRequests<&str> = PendingRequests::new();
    p.add_request(7, "seven");
    p.add_request(8, "eight");
    assert_eq!(p.remove_request(7), Some("seven"));
    assert_eq!(p.remove_request(7), None);
    assert_eq!(p.remove_request(8), Some("eight"));
    let key = ExpectedMessageKey { method: "$/progress".to_string(), params: "{}".to_string() };
    p.add_notification(key, "progress");
    let same = ExpectedMessageKey { method: "$/progress".to_string(), params: "{}".to_string() };
    assert_eq!(p.remove_notification(&same), Some("progress"));
    assert_eq!(p.remove_notification(&same), None);
}

#[test]
fn responses_are_routed_to_the_waiting_request() {
    let mut p: PendingRequests<&str> = PendingRequests::new();
    p.add_request(3, "three");
    assert_eq!(route_message(&mut p, &message(None, Some("window/logMessage"), None, None)), None);
    assert_eq!(route_message(&mut p, &message(Some(4), None, Some("[]"), None)), None);
    assert_eq!(route_message(&mut p, &message(Some(3), None, Some("[]"), None)), Some("three"));
    assert_eq!(route_message(&mut p, &message(Some(3), None, Some("[]"), None)), None);
}

#[test]
fn method_names_escape_control_characters() {
    let h = JsonRpcHandler::new();
    let n = h.create_notification("a\u{1}\tb\\é\u{1f}", "{}");
    assert_eq!(n, "{\"jsonrpc\":\"2.0\",\"method\":\"a\\u0001\\tb\\\\é\\u001f\",\"params\":{}}");
}
