//! WebSocket client policy: address check, reconnect back-off, heartbeat,
//! the decisions of the connection loop, and the stored form of queued
//! messages. The socket itself is driven by the caller.

use vstd::prelude::*;
use crate::client::cat;
use crate::codec::{base64_decode, base64_encode, base64_standard, base64_standard_decode, parse_url_scheme, url_scheme};
use crate::model::{ws_error, AppError, WsMessageType};
use crate::text::{decimal, decimal_string, str_eq};

verus! {

/// Capacity of the event broadcast.
pub const EVENT_CAPACITY: usize = 256;

/// Capacity of the outgoing queue.
pub const OUTBOX_CAPACITY: usize = 1024;

/// Connection state; every change is announced to subscribers.
#[derive(PartialEq, Eq, Structural, Clone, Copy, Debug)]
pub enum WsState {
    /// Connecting or reconnecting.
    Connecting,
    /// Connected.
    Open,
    /// Closed by the user, or by the server with no reconnect.
    Closed,
    /// Failed (and left so when reconnecting is off).
    Error,
}

/// A message sent or received.
#[derive(Clone, Debug)]
pub enum WsMessage {
    Text(String),
    Binary(Vec<u8>),
    Ping(Vec<u8>),
}

/// What subscribers are told.
#[derive(Clone, Debug)]
pub enum WsEvent {
    State(WsState),
    Message(WsMessage),
    Failed(String),
}

/// Client options; durations in milliseconds.
pub struct WsOptions {
    /// A ping is sent every this many milliseconds.
    pub heartbeat_interval_ms: u64,
    /// This many pings in a row without a pong mean the link is dead.
    pub max_missed_pongs: u32,
    /// First reconnect delay; later ones double, up to `backoff_max_ms`.
    pub backoff_base_ms: u64,
    /// Longest reconnect delay.
    pub backoff_max_ms: u64,
    /// Reconnect after the connection is lost.
    pub auto_reconnect: bool,
}

impl Default for WsOptions {
    fn default() -> (r: Self)
        ensures
            r.heartbeat_interval_ms == 10_000,
            r.max_missed_pongs == 3,
            r.backoff_base_ms == 500,
            r.backoff_max_ms == 30_000,
            r.auto_reconnect,
    {
        WsOptions {
            heartbeat_interval_ms: 10_000,
            max_missed_pongs: 3,
            backoff_base_ms: 500,
            backoff_max_ms: 30_000,
            auto_reconnect: true,
        }
    }
}

/// Check that the address is a `ws://` or `wss://` URL.
pub fn validate_url(target: &str) -> (r: Result<(), AppError>)
    ensures
        match url_scheme(target@) {
            Ok(s) => if s == "ws"@ || s == "wss"@ {
                r is Ok
            } else {
                r matches Err(AppError::WsError(m)) && m@ == "不支持的协议："@ + s
                    + "（仅支持 ws:// 或 wss://）"@
            },
            Err(e) => r matches Err(AppError::WsError(m)) && m@ == "无效的 WebSocket 地址："@ + e,
        },
{
    match parse_url_scheme(target) {
        Ok(scheme) => {
            if str_eq(scheme.as_str(), "ws") || str_eq(scheme.as_str(), "wss") {
                Ok(())
            } else {
                let a = cat("不支持的协议：", scheme.as_str());
                Err(ws_error(cat(a.as_str(), "（仅支持 ws:// 或 wss://）")))
            }
        },
        Err(e) => Err(ws_error(cat("无效的 WebSocket 地址：", e.as_str()))),
    }
}

/// Two to the power `n`.
pub open spec fn pow2s(n: nat) -> nat
    decreases n,
{
    if n == 0 {
        1
    } else {
        2 * pow2s((n - 1) as nat)
    }
}

/// `2^n`, or `u64::MAX` when it does not fit.
pub open spec fn sat_pow2(n: nat) -> nat {
    if pow2s(n) <= u64::MAX {
        pow2s(n)
    } else {
        u64::MAX as nat
    }
}

/// Delay before reconnect attempt `attempt` (counted from 1): the base
/// doubled `attempt - 1` times (saturating), at most the maximum.
pub open spec fn backoff_spec(base: u64, max: u64, attempt: u32) -> nat {
    let e: nat = if attempt == 0 {
        0
    } else {
        (attempt - 1) as nat
    };
    let p: nat = (base as nat) * sat_pow2(e);
    let sat: nat = if p <= u64::MAX {
        p
    } else {
        u64::MAX as nat
    };
    if sat <= max {
        sat
    } else {
        max as nat
    }
}

proof fn lemma_pow2s_pos(n: nat)
    ensures
        pow2s(n) >= 1,
    decreases n,
{
    if n > 0 {
        lemma_pow2s_pos((n - 1) as nat);
    }
}

proof fn lemma_pow2s_mono(a: nat, b: nat)
    requires
        a <= b,
    ensures
        1 <= pow2s(a) <= pow2s(b),
    decreases b,
{
    lemma_pow2s_pos(a);
    if b > a {
        lemma_pow2s_mono(a, (b - 1) as nat);
    }
}

/// Delay before reconnect attempt `attempt`, in milliseconds.
pub fn backoff_delay(options: &WsOptions, attempt: u32) -> (r: u64)
    ensures
        r == backoff_spec(options.backoff_base_ms, options.backoff_max_ms, attempt),
{
    let e: u32 = if attempt == 0 {
        0
    } else {
        attempt - 1
    };
    let mut f: u64 = 1;
    let mut k: u32 = 0;
    let mut saturated = false;
    while k < e && !saturated
        invariant
            k <= e,
            !saturated ==> f == pow2s(k as nat),
            saturated ==> f == u64::MAX && pow2s(e as nat) > u64::MAX,
        decreases e - k + if saturated { 0int } else { 1int },
    {
        if f > u64::MAX / 2 {
            proof {
                lemma_pow2s_mono((k + 1) as nat, e as nat);
            }
            f = u64::MAX;
            saturated = true;
        } else {
            f = f * 2;
            k = k + 1;
        }
    }
    assert(f == sat_pow2(e as nat)) by {
        if !saturated {
            assert(k == e);
        }
    }
    let base = options.backoff_base_ms;
    let p: u64 = if base != 0 && f > u64::MAX / base {
        assert(base * f > u64::MAX) by (nonlinear_arith)
            requires
                base > 0,
                f > u64::MAX / base,
        ;
        u64::MAX
    } else {
        assert(base * f <= u64::MAX) by (nonlinear_arith)
            requires
                base == 0 || f <= u64::MAX / base,
        ;
        base * f
    };
    if p <= options.backoff_max_ms {
        p
    } else {
        options.backoff_max_ms
    }
}

/// Reconnect delays never exceed the maximum, start at the base (capped),
/// and never shrink from one attempt to the next.
pub proof fn law_backoff_bounded_and_monotone(base: u64, max: u64, a: u32, b: u32)
    requires
        a <= b,
    ensures
        backoff_spec(base, max, a) <= max,
        backoff_spec(base, max, 1) == if base <= max { base as nat } else { max as nat },
        backoff_spec(base, max, 0) == backoff_spec(base, max, 1),
        backoff_spec(base, max, a) <= backoff_spec(base, max, b),
{
    let ea: nat = if a == 0 { 0 } else { (a - 1) as nat };
    let eb: nat = if b == 0 { 0 } else { (b - 1) as nat };
    lemma_pow2s_mono(ea, eb);
    assert(pow2s(0) == 1);
    let fa = sat_pow2(ea);
    let fb = sat_pow2(eb);
    assert(fa <= fb);
    assert(sat_pow2(0) == 1);
    assert((base as nat) * 1 == base);
    assert(base * fa <= base * fb) by (nonlinear_arith)
        requires
            fa <= fb,
    ;
}

/// Outcome of sending a heartbeat ping.
pub enum Heartbeat {
    /// Keep going with this many pings unanswered.
    Alive(u32),
    /// The link is dead; this is why.
    Dead(String),
}

/// A ping was sent: one more unanswered; at the limit the link is dead.
pub fn heartbeat_after_ping(missed: u32, max_missed: u32) -> (r: Heartbeat)
    ensures
        ({
            let n: nat = if missed == u32::MAX { missed as nat } else { (missed + 1) as nat };
            if n >= max_missed {
                r matches Heartbeat::Dead(m) && m@ == "心跳超时：连续 "@ + decimal(n) + " 次未收到 Pong"@
            } else {
                r matches Heartbeat::Alive(k) && k == n
            }
        }),
{
    let n: u32 = if missed == u32::MAX {
        missed
    } else {
        missed + 1
    };
    if n >= max_missed {
        let count = decimal_string(n as u64);
        let a = cat("心跳超时：连续 ", count.as_str());
        Heartbeat::Dead(cat(a.as_str(), " 次未收到 Pong"))
    } else {
        Heartbeat::Alive(n)
    }
}

/// What the connection loop learned.
pub enum WsLoopEvent {
    /// The handshake request could not be built or the connection failed;
    /// the words say why.
    ConnectFailed(String),
    /// A session ended: cleanly, or with this reason.
    SessionEnded(Result<(), String>),
}

/// What the connection loop does next.
pub enum WsNext {
    /// Stop the loop.
    Finish,
    /// Wait this long, then connect again as attempt `attempt`.
    Retry { delay_ms: u64, attempt: u32 },
}

/// The loop's reaction: the state to announce, a failure to report, and
/// what follows.
pub struct WsDecision {
    pub state: WsState,
    pub failed: Option<String>,
    pub next: WsNext,
}

/// Decide how the connection loop reacts (stop requests are handled before):
/// a failed connection is reported as an error and retried after the
/// back-off with the next attempt number; a session that ended is reported
/// (closed, or error with its reason) and reconnected after the back-off;
/// without auto-reconnect the loop stops in that state.
pub fn ws_step(options: &WsOptions, attempt: u32, event: WsLoopEvent) -> (r: WsDecision)
    ensures
        match event {
            WsLoopEvent::ConnectFailed(msg) => r.state == WsState::Error && r.failed == Some(msg)
                && if options.auto_reconnect {
                r.next matches WsNext::Retry { delay_ms, attempt: next } && delay_ms
                    == backoff_spec(options.backoff_base_ms, options.backoff_max_ms, attempt)
                    && next == if attempt == u32::MAX { attempt } else { (attempt + 1) as u32 }
            } else {
                r.next is Finish
            },
            WsLoopEvent::SessionEnded(outcome) => (match outcome {
                Ok(()) => r.state == WsState::Closed && r.failed is None,
                Err(reason) => r.state == WsState::Error && r.failed == Some(reason),
            }) && if options.auto_reconnect {
                r.next matches WsNext::Retry { delay_ms, attempt: next } && delay_ms
                    == backoff_spec(options.backoff_base_ms, options.backoff_max_ms, attempt)
                    && next == attempt
            } else {
                r.next is Finish
            },
        },
{
    match event {
        WsLoopEvent::ConnectFailed(msg) => {
            let next = if options.auto_reconnect {
                let n: u32 = if attempt == u32::MAX {
                    attempt
                } else {
                    attempt + 1
                };
                WsNext::Retry { delay_ms: backoff_delay(options, attempt), attempt: n }
            } else {
                WsNext::Finish
            };
            WsDecision { state: WsState::Error, failed: Some(msg), next }
        },
        WsLoopEvent::SessionEnded(outcome) => {
            let next = if options.auto_reconnect {
                WsNext::Retry { delay_ms: backoff_delay(options, attempt), attempt }
            } else {
                WsNext::Finish
            };
            match outcome {
                Ok(()) => WsDecision { state: WsState::Closed, failed: None, next },
                Err(reason) => WsDecision { state: WsState::Error, failed: Some(reason), next },
            }
        },
    }
}

/// Words for a failed connection.
pub fn connect_failed_message(detail: &str) -> (r: String)
    ensures
        r@ == "WebSocket 连接失败："@ + detail@,
{
    cat("WebSocket 连接失败：", detail)
}

/// How a queue push went.
pub enum QueueOutcome {
    Queued,
    Full,
    Closed,
}

/// What sending does next.
pub enum SendDecision {
    /// Sent to the queue.
    Done,
    /// Store the message for later.
    Persist,
    /// Refuse with this error.
    Refuse(AppError),
}

/// Decide what a send does: queued is done; a full queue stores the message
/// when a store is configured and refuses it otherwise; a stopped client
/// refuses.
pub fn send_decision(outcome: QueueOutcome, has_store: bool) -> (r: SendDecision)
    ensures
        match outcome {
            QueueOutcome::Queued => r is Done,
            QueueOutcome::Full => if has_store {
                r is Persist
            } else {
                r matches SendDecision::Refuse(AppError::WsError(m)) && m@ == "发送队列已满，消息已丢弃"@
            },
            QueueOutcome::Closed => r matches SendDecision::Refuse(AppError::WsError(m)) && m@
                == "WebSocket 客户端已停止，无法发送消息"@,
        },
{
    match outcome {
        QueueOutcome::Queued => SendDecision::Done,
        QueueOutcome::Full => if has_store {
            SendDecision::Persist
        } else {
            SendDecision::Refuse(ws_error("发送队列已满，消息已丢弃".to_owned()))
        },
        QueueOutcome::Closed => SendDecision::Refuse(
            ws_error("WebSocket 客户端已停止，无法发送消息".to_owned()),
        ),
    }
}

/// The error of a store that could not keep an overflowing message.
pub fn persist_failed(detail: &str) -> (r: AppError)
    ensures
        r matches AppError::WsError(m) && m@ == "发送队列已满，持久化待发消息失败："@ + detail@,
{
    ws_error(cat("发送队列已满，持久化待发消息失败：", detail))
}

/// A queued outgoing message.
pub enum WsOutgoing {
    Text(String),
    Binary(Vec<u8>),
    Ping(Vec<u8>),
}

/// Mathematical value of a [`WsOutgoing`].
pub enum WsOutgoingView {
    Text(Seq<char>),
    Binary(Seq<u8>),
    Ping(Seq<u8>),
}

impl View for WsOutgoing {
    type V = WsOutgoingView;

    open spec fn view(&self) -> WsOutgoingView {
        match self {
            WsOutgoing::Text(t) => WsOutgoingView::Text(t@),
            WsOutgoing::Binary(b) => WsOutgoingView::Binary(b@),
            WsOutgoing::Ping(b) => WsOutgoingView::Ping(b@),
        }
    }
}

/// Kind of a message.
pub open spec fn kind_of(m: WsOutgoingView) -> WsMessageType {
    match m {
        WsOutgoingView::Text(_) => WsMessageType::Text,
        WsOutgoingView::Binary(_) => WsMessageType::Binary,
        WsOutgoingView::Ping(_) => WsMessageType::Ping,
    }
}

/// Stored form: text as it is, bytes in standard base64.
pub open spec fn encoded_spec(m: WsOutgoingView) -> Seq<char> {
    match m {
        WsOutgoingView::Text(t) => t,
        WsOutgoingView::Binary(b) => base64_standard(b),
        WsOutgoingView::Ping(b) => base64_standard(b),
    }
}

/// A message read back from its stored form; `None` when bytes do not decode.
pub open spec fn from_record_spec(t: WsMessageType, payload: Seq<char>) -> Option<WsOutgoingView> {
    match t {
        WsMessageType::Text => Some(WsOutgoingView::Text(payload)),
        WsMessageType::Binary => match base64_standard_decode(payload) {
            Some(b) => Some(WsOutgoingView::Binary(b)),
            None => None,
        },
        WsMessageType::Ping => match base64_standard_decode(payload) {
            Some(b) => Some(WsOutgoingView::Ping(b)),
            None => None,
        },
    }
}

impl WsOutgoing {
    /// A message to queue.
    pub fn from_message(m: WsMessage) -> (r: WsOutgoing)
        ensures
            match m {
                WsMessage::Text(t) => r == WsOutgoing::Text(t),
                WsMessage::Binary(b) => r == WsOutgoing::Binary(b),
                WsMessage::Ping(b) => r == WsOutgoing::Ping(b),
            },
    {
        match m {
            WsMessage::Text(t) => WsOutgoing::Text(t),
            WsMessage::Binary(b) => WsOutgoing::Binary(b),
            WsMessage::Ping(b) => WsOutgoing::Ping(b),
        }
    }

    /// Kind of this message.
    pub fn message_type(&self) -> (r: WsMessageType)
        ensures
            r == kind_of(self@),
    {
        match self {
            WsOutgoing::Text(_) => WsMessageType::Text,
            WsOutgoing::Binary(_) => WsMessageType::Binary,
            WsOutgoing::Ping(_) => WsMessageType::Ping,
        }
    }

    /// Stored form of this message; reading it back gives the same message.
    pub fn encoded(&self) -> (r: String)
        ensures
            r@ == encoded_spec(self@),
            from_record_spec(kind_of(self@), r@) == Some(self@),
    {
        match self {
            WsOutgoing::Text(t) => t.clone(),
            WsOutgoing::Binary(data) => base64_encode(data.as_slice()),
            WsOutgoing::Ping(data) => base64_encode(data.as_slice()),
        }
    }

    /// A message from its stored form; undecodable bytes give `None`.
    pub fn from_record(message_type: WsMessageType, payload: &str) -> (r: Option<WsOutgoing>)
        ensures
            match r {
                Some(m) => from_record_spec(message_type, payload@) == Some(m@),
                None => from_record_spec(message_type, payload@) is None,
            },
    {
        match message_type {
            WsMessageType::Text => Some(WsOutgoing::Text(payload.to_owned())),
            WsMessageType::Binary => match base64_decode(payload) {
                Some(b) => Some(WsOutgoing::Binary(b)),
                None => None,
            },
            WsMessageType::Ping => match base64_decode(payload) {
                Some(b) => Some(WsOutgoing::Ping(b)),
                None => None,
            },
        }
    }
}

/// A stored message: its id, kind and stored form.
pub struct StoredMessage {
    pub id: u128,
    pub message_type: WsMessageType,
    pub payload: String,
}

/// Stored messages read back, in order, those that do not decode dropped.
pub open spec fn decoded_records(s: Seq<StoredMessage>) -> Seq<(u128, WsOutgoingView)>
    decreases s.len(),
{
    if s.len() == 0 {
        Seq::empty()
    } else {
        let r = decoded_records(s.drop_last());
        match from_record_spec(s.last().message_type, s.last().payload@) {
            Some(m) => r.push((s.last().id, m)),
            None => r,
        }
    }
}

/// Views of decoded records.
pub open spec fn record_views(s: Seq<(u128, WsOutgoing)>) -> Seq<(u128, WsOutgoingView)> {
    s.map_values(|p: (u128, WsOutgoing)| (p.0, p.1@))
}

/// Read stored messages back for resending, dropping those that do not decode.
pub fn decode_records(records: &Vec<StoredMessage>) -> (r: Vec<(u128, WsOutgoing)>)
    ensures
        record_views(r@) == decoded_records(records@),
{
    let mut out: Vec<(u128, WsOutgoing)> = Vec::new();
    let mut i: usize = 0;
    while i < records.len()
        invariant
            i <= records@.len(),
            record_views(out@) == decoded_records(records@.take(i as int)),
        decreases records.len() - i,
    {
        assert(records@.take(i + 1).drop_last() =~= records@.take(i as int));
        let ghost before = out@;
        match WsOutgoing::from_record(records[i].message_type, records[i].payload.as_str()) {
            Some(m) => {
                out.push((records[i].id, m));
                assert(record_views(out@) =~= record_views(before).push((records@[i as int].id, out@.last().1@)));
            },
            None => {},
        }
        i = i + 1;
    }
    assert(records@.take(records.len() as int) =~= records@);
    out
}

} // verus!
