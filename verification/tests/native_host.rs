use multiagent::json::Json;
use multiagent::native_host::{
    broker_native_request, broker_timeout_response, frame_native_message,
    handle_native_host_message, is_notification_poll,
    native_message_length, parse_broker_request, reply_id_for_pending, NotificationStore,
    MAX_NATIVE_NOTIFICATIONS,
};

fn text(s: &str) -> Json {
    Json::Str(s.to_string())
}

fn object(members: Vec<(&str, Json)>) -> Json {
    Json::Object(members.into_iter().map(|(k, v)| (k.to_string(), v)).collect())
}

#[test]
fn native_host_responds_to_ping() {
    let mut store: Option<NotificationStore> = None;
    let response = handle_native_host_message(
        object(vec![
            ("jsonrpc", text("2.0")),
            ("id", Json::Number(7)),
            ("method", text("ping")),
        ]),
        &mut store,
        0,
    )
    .expect("ping should receive a response");

    assert_eq!(response.get("id"), Some(&Json::Number(7)));
    assert_eq!(response.get("result"), Some(&text("pong")));
}

#[test]
fn native_host_ignores_notifications() {
    let mut store: Option<NotificationStore> = None;
    assert!(handle_native_host_message(
        object(vec![
            ("jsonrpc", text("2.0")),
            ("method", text("onCDPEvent")),
            ("params", object(vec![])),
        ]),
        &mut store,
        0,
    )
    .is_none());
}

#[test]
fn native_host_records_notifications_when_store_is_available() {
    let mut store = Some(NotificationStore::new());
    assert!(handle_native_host_message(
        object(vec![
            ("jsonrpc", text("2.0")),
            ("method", text("onDownloadChange")),
            ("params", object(vec![("id", text("1")), ("status", text("complete"))])),
        ]),
        &mut store,
        0,
    )
    .is_none());

    let notifications = store.as_ref().expect("notifications store");
    assert_eq!(notifications.len(), 1);
    assert_eq!(notifications.get(0).get("method"), Some(&text("onDownloadChange")));
    assert_eq!(
        notifications.get(0).get("params").and_then(|p| p.get("status")),
        Some(&text("complete"))
    );
}

#[test]
fn native_host_returns_method_not_found_for_unknown_requests() {
    let mut store: Option<NotificationStore> = None;
    let response = handle_native_host_message(
        object(vec![
            ("jsonrpc", text("2.0")),
            ("id", text("abc")),
            ("method", text("unknown")),
        ]),
        &mut store,
        0,
    )
    .expect("unknown request should receive an error response");

    assert_eq!(response.get("id"), Some(&text("abc")));
    assert_eq!(
        response.get("error").and_then(|e| e.get("code")),
        Some(&Json::Number(-32601))
    );
}

#[test]
fn method_not_found_reply_is_exact() {
    let mut store: Option<NotificationStore> = None;
    let response = handle_native_host_message(
        object(vec![("id", Json::Number(3)), ("method", text("tabs.list"))]),
        &mut store,
        0,
    )
    .expect("reply");
    assert_eq!(
        response.to_compact(),
        "{\"error\":{\"code\":-32601,\"message\":\"No handler registered for method: tabs.list\"},\"id\":3,\"jsonrpc\":\"2.0\"}"
    );
}

#[test]
fn replies_from_chrome_pass_through_unchanged() {
    let mut store = Some(NotificationStore::new());
    let reply = object(vec![("id", Json::Number(10001)), ("result", object(vec![("ok", Json::Bool(true))]))]);
    let out = handle_native_host_message(reply.copy(), &mut store, 0);
    assert_eq!(out, Some(reply.copy()));
    assert_eq!(store.as_ref().map(|s| s.len()), Some(0));
    assert_eq!(reply_id_for_pending(&reply), Some(10001));
}

#[test]
fn notifications_without_store_or_unknown_method_give_nothing() {
    let mut store = Some(NotificationStore::new());
    let out = handle_native_host_message(
        object(vec![("method", text("onSomethingElse")), ("params", object(vec![]))]),
        &mut store,
        0,
    );
    assert!(out.is_none());
    assert_eq!(store.as_ref().map(|s| s.len()), Some(0));
    let no_method = handle_native_host_message(object(vec![("id", Json::Number(1))]), &mut store, 0);
    assert!(no_method.is_none());
}

#[test]
fn recorded_notification_has_method_params_and_time() {
    let mut store = Some(NotificationStore::new());
    let out = handle_native_host_message(
        object(vec![("method", text("onCDPEvent"))]),
        &mut store,
        1234,
    );
    assert!(out.is_none());
    let s = store.as_ref().unwrap();
    assert_eq!(s.len(), 1);
    assert_eq!(
        s.get(0).to_compact(),
        "{\"method\":\"onCDPEvent\",\"params\":{},\"receivedAt\":1234}"
    );
}

#[test]
fn store_keeps_only_the_newest_notifications() {
    let mut store = NotificationStore::new();
    for i in 0..(MAX_NATIVE_NOTIFICATIONS + 3) {
        store.record("onCDPEvent", Some(Json::Number(i as i128)), i as u64);
    }
    assert_eq!(store.len(), MAX_NATIVE_NOTIFICATIONS);
    assert_eq!(store.get(0).get("params"), Some(&Json::Number(3)));
    assert_eq!(
        store.get(MAX_NATIVE_NOTIFICATIONS - 1).get("params"),
        Some(&Json::Number((MAX_NATIVE_NOTIFICATIONS + 2) as i128))
    );
}

#[test]
fn poll_hands_out_matching_notifications_and_keeps_the_rest() {
    let mut store = NotificationStore::new();
    store.record("onCDPEvent", Some(Json::Number(1)), 1);
    store.record("onDownloadChange", Some(Json::Number(2)), 2);
    store.record("onCDPEvent", Some(Json::Number(3)), 3);
    let answer = store.poll(&object(vec![("kind", text("onCDPEvent")), ("limit", Json::Number(1))]));
    assert_eq!(
        answer.to_compact(),
        "{\"id\":null,\"jsonrpc\":\"2.0\",\"result\":{\"notifications\":[{\"method\":\"onCDPEvent\",\"params\":1,\"receivedAt\":1}]}}"
    );
    assert_eq!(store.len(), 2);
    assert_eq!(store.get(0).get("params"), Some(&Json::Number(2)));
    assert_eq!(store.get(1).get("params"), Some(&Json::Number(3)));
    let rest = store.poll(&object(vec![]));
    let items = rest
        .get("result")
        .and_then(|r| r.get("notifications"))
        .and_then(|n| n.as_array())
        .map(|a| a.len());
    assert_eq!(items, Some(2));
    assert_eq!(store.len(), 0);
}

#[test]
fn poll_limit_is_at_least_one() {
    let mut store = NotificationStore::new();
    store.record("onCDPEvent", None, 1);
    store.record("onCDPEvent", None, 2);
    let answer = store.poll(&object(vec![("limit", Json::Number(0))]));
    let items = answer
        .get("result")
        .and_then(|r| r.get("notifications"))
        .and_then(|n| n.as_array())
        .map(|a| a.len());
    assert_eq!(items, Some(1));
    assert_eq!(store.len(), 1);
}

#[test]
fn frame_and_length_round_trip() {
    let framed = frame_native_message(b"{}").expect("small reply");
    assert_eq!(framed, vec![2, 0, 0, 0, b'{', b'}']);
    let header = [framed[0], framed[1], framed[2], framed[3]];
    assert_eq!(native_message_length(&header), Ok(2));
    assert_eq!(native_message_length(&[0, 0, 0, 4]), Ok(67108864));
}

#[test]
fn oversized_native_message_is_refused() {
    assert_eq!(
        native_message_length(&[1, 0, 0, 4]),
        Err("Native message is too large: 67108865 bytes exceeds 67108864".to_string())
    );
}

#[test]
fn broker_requests_are_read_and_forwarded() {
    assert!(is_notification_poll("__multiagent_poll_notifications"));
    assert!(!is_notification_poll("tabs.list"));
    let (method, params) = parse_broker_request(&object(vec![("method", text("tabs.list"))])).unwrap();
    assert_eq!(method, "tabs.list");
    assert_eq!(params, object(vec![]));
    assert_eq!(
        parse_broker_request(&object(vec![("method", Json::Number(1))])),
        Err("Broker request missing method.".to_string())
    );
    let forwarded = broker_native_request(10000, "tabs.list", params);
    assert_eq!(
        forwarded.to_compact(),
        "{\"id\":10000,\"jsonrpc\":\"2.0\",\"method\":\"tabs.list\",\"params\":{}}"
    );
    assert_eq!(
        broker_timeout_response(10001).to_compact(),
        "{\"error\":{\"code\":-32000,\"message\":\"Timed out waiting for Chrome extension response\"},\"id\":10001,\"jsonrpc\":\"2.0\"}"
    );
}

#[test]
fn pending_reply_ids() {
    assert_eq!(
        reply_id_for_pending(&object(vec![("id", Json::Number(5)), ("error", object(vec![]))])),
        Some(5)
    );
    assert_eq!(
        reply_id_for_pending(&object(vec![("id", Json::Number(5)), ("method", text("x"))])),
        None
    );
    assert_eq!(reply_id_for_pending(&object(vec![("id", text("5")), ("result", Json::Null)])), None);
}
