use rustfox::model::{AppError, WsMessageType};
use rustfox::ws::{
    backoff_delay, connect_failed_message, decode_records, heartbeat_after_ping, persist_failed,
    send_decision, validate_url, ws_step, Heartbeat, QueueOutcome, SendDecision, StoredMessage,
    WsLoopEvent, WsMessage, WsNext, WsOptions, WsOutgoing, WsState,
};

fn ws_message(r: Result<(), AppError>) -> String {
    match r {
        Err(AppError::WsError(m)) => m,
        _ => panic!("应返回 WebSocket 错误"),
    }
}

#[test]
fn rejects_non_ws_url() {
    let err = ws_message(validate_url("http://example.com"));
    assert!(err.contains("仅支持 ws:// 或 wss://"));
    assert_eq!(err, "不支持的协议：http（仅支持 ws:// 或 wss://）");
}

#[test]
fn accepts_ws_and_wss() {
    assert!(validate_url("ws://127.0.0.1:9000/socket").is_ok());
    assert!(validate_url("wss://example.com/").is_ok());
    assert!(validate_url("WS://EXAMPLE.COM").is_ok());
    let err = ws_message(validate_url("not a url"));
    assert!(err.starts_with("无效的 WebSocket 地址："));
}

#[test]
fn backoff_doubles_up_to_max() {
    let o = WsOptions::default();
    assert_eq!(backoff_delay(&o, 1), 500);
    assert_eq!(backoff_delay(&o, 2), 1000);
    assert_eq!(backoff_delay(&o, 3), 2000);
    assert_eq!(backoff_delay(&o, 7), 30_000);
    assert_eq!(backoff_delay(&o, 0), 500);
    assert_eq!(backoff_delay(&o, u32::MAX), 30_000);
    let big = WsOptions { backoff_base_ms: u64::MAX / 2, backoff_max_ms: u64::MAX, ..WsOptions::default() };
    assert_eq!(backoff_delay(&big, 3), u64::MAX);
    let mut last = 0;
    for a in 1..40 {
        let d = backoff_delay(&o, a);
        assert!(d >= last && d <= o.backoff_max_ms);
        last = d;
    }
}

#[test]
fn heartbeat_counts_missed_pongs() {
    assert!(matches!(heartbeat_after_ping(0, 3), Heartbeat::Alive(1)));
    assert!(matches!(heartbeat_after_ping(1, 3), Heartbeat::Alive(2)));
    assert!(matches!(heartbeat_after_ping(2, 3), Heartbeat::Dead(m) if m == "心跳超时：连续 3 次未收到 Pong"));
}

#[test]
fn loop_reacts_to_failures() {
    let o = WsOptions::default();
    let d = ws_step(&o, 1, WsLoopEvent::ConnectFailed(connect_failed_message("refused")));
    assert_eq!(d.state, WsState::Error);
    assert_eq!(d.failed.as_deref(), Some("WebSocket 连接失败：refused"));
    assert!(matches!(d.next, WsNext::Retry { delay_ms: 500, attempt: 2 }));

    let d = ws_step(&o, 3, WsLoopEvent::SessionEnded(Ok(())));
    assert_eq!(d.state, WsState::Closed);
    assert!(d.failed.is_none());
    assert!(matches!(d.next, WsNext::Retry { delay_ms: 2000, attempt: 3 }));

    let d = ws_step(&o, 1, WsLoopEvent::SessionEnded(Err("心跳超时".into())));
    assert_eq!(d.state, WsState::Error);
    assert_eq!(d.failed.as_deref(), Some("心跳超时"));

    let off = WsOptions { auto_reconnect: false, ..WsOptions::default() };
    let d = ws_step(&off, 1, WsLoopEvent::SessionEnded(Err("gone".into())));
    assert_eq!(d.state, WsState::Error);
    assert!(matches!(d.next, WsNext::Finish));
    let d = ws_step(&off, 1, WsLoopEvent::ConnectFailed("x".into()));
    assert!(matches!(d.next, WsNext::Finish));
}

#[test]
fn outbox_backpressure_decisions() {
    assert!(matches!(send_decision(QueueOutcome::Queued, false), SendDecision::Done));
    assert!(matches!(send_decision(QueueOutcome::Full, true), SendDecision::Persist));
    assert!(matches!(
        send_decision(QueueOutcome::Full, false),
        SendDecision::Refuse(AppError::WsError(m)) if m == "发送队列已满，消息已丢弃"
    ));
    assert!(matches!(
        send_decision(QueueOutcome::Closed, true),
        SendDecision::Refuse(AppError::WsError(m)) if m == "WebSocket 客户端已停止，无法发送消息"
    ));
    assert!(matches!(persist_failed("disk"), AppError::WsError(m) if m == "发送队列已满，持久化待发消息失败：disk"));
}

#[test]
fn stored_form_round_trips() {
    let msgs = vec![
        WsMessage::Text("hello".into()),
        WsMessage::Binary(vec![0, 1, 2, 255]),
        WsMessage::Ping(b"hb".to_vec()),
    ];
    for m in msgs {
        let out = WsOutgoing::from_message(m);
        let t = out.message_type();
        let stored = out.encoded();
        let back = WsOutgoing::from_record(t, &stored).unwrap();
        match (&out, &back) {
            (WsOutgoing::Text(a), WsOutgoing::Text(b)) => assert_eq!(a, b),
            (WsOutgoing::Binary(a), WsOutgoing::Binary(b)) => assert_eq!(a, b),
            (WsOutgoing::Ping(a), WsOutgoing::Ping(b)) => assert_eq!(a, b),
            _ => panic!("类型不一致"),
        }
    }
    assert_eq!(WsOutgoing::Binary(b"hi".to_vec()).encoded(), "aGk=");
    assert_eq!(WsOutgoing::from_message(WsMessage::Ping(Vec::new())).message_type(), WsMessageType::Ping);
}

#[test]
fn undecodable_records_are_dropped() {
    let records = vec![
        StoredMessage { id: 1, message_type: WsMessageType::Text, payload: "a".into() },
        StoredMessage { id: 2, message_type: WsMessageType::Binary, payload: "!!not base64!!".into() },
        StoredMessage { id: 3, message_type: WsMessageType::Binary, payload: "aGk=".into() },
    ];
    let out = decode_records(&records);
    assert_eq!(out.len(), 2);
    assert_eq!(out[0].0, 1);
    assert_eq!(out[1].0, 3);
    assert!(matches!(&out[1].1, WsOutgoing::Binary(b) if b == b"hi"));
}
