use xvnc_viewer::bridge::{ws_message_step, PumpStep, WsMessage, MAX_WS_FRAME_SIZE};
use xvnc_viewer::request::extract_session_request;
use xvnc_viewer::session::{ProxySession, SessionTable, SESSION_TTL_NANOS};

const ADDR: &str = "127.0.0.1:40123";

fn open(table: &mut SessionTable, host: &str, port: u16, now: u64) -> (String, String) {
    let resp = table
        .create_session(host.to_string(), port, ADDR, now)
        .expect("session should open");
    let prefix = format!("ws://{}", ADDR);
    assert!(resp.ws_url.starts_with(&prefix));
    let (id, secret) = extract_session_request(&resp.ws_url[prefix.len()..]).unwrap();
    assert_eq!(id, resp.session_id);
    (id, secret)
}

fn is_uuid_v4(s: &str) -> bool {
    let b = s.as_bytes();
    b.len() == 36
        && b.iter().enumerate().all(|(i, c)| match i {
            8 | 13 | 18 | 23 => *c == b'-',
            _ => c.is_ascii_digit() || (b'a'..=b'f').contains(c),
        })
        && b[14] == b'4'
        && matches!(b[19], b'8' | b'9' | b'a' | b'b')
}

#[test]
fn created_session_url_reaches_the_session() {
    let mut table = SessionTable::new();
    let resp = table
        .create_session("vnc-host".to_string(), 5900, ADDR, 10)
        .unwrap();
    let (id, secret) = open(&mut table, "vnc-host", 5901, 10);
    assert!(is_uuid_v4(&resp.session_id));
    assert!(is_uuid_v4(&id));
    assert!(is_uuid_v4(&secret));
    assert_ne!(id, secret);
    assert_ne!(id, resp.session_id);
    assert_eq!(table.len(), 2);
    assert_eq!(
        resp.ws_url.len(),
        "ws://".len() + ADDR.len() + "/vnc/".len() + 36 + "?secret=".len() + 36
    );

    assert!(table.check_session(&id, &secret, 10 + SESSION_TTL_NANOS).is_ok());
    let session = table.claim_session(&id, &secret, 10 + SESSION_TTL_NANOS).unwrap();
    assert_eq!(session.host, "vnc-host");
    assert_eq!(session.port, 5901);
    assert_eq!(session.target(), "vnc-host:5901");
    assert_eq!(table.len(), 1);
}

#[test]
fn sessions_serve_one_connection() {
    let mut table = SessionTable::new();
    let (id, secret) = open(&mut table, "localhost", 5900, 0);
    assert!(table.claim_session(&id, &secret, 1).is_ok());
    assert_eq!(
        table.claim_session(&id, &secret, 2).map(|s| s.port),
        Err("proxy session already used".to_string())
    );
    assert_eq!(
        table.check_session(&id, &secret, 2),
        Err("proxy session not found or already used".to_string())
    );
}

#[test]
fn wrong_secret_is_refused() {
    let mut table = SessionTable::new();
    let (id, secret) = open(&mut table, "localhost", 5900, 0);
    let wrong = "0".repeat(36);
    assert_eq!(
        table.check_session(&id, &wrong, 1),
        Err("proxy session secret is invalid".to_string())
    );
    assert_eq!(table.len(), 1);
    assert!(table.check_session(&id, &secret, 1).is_ok());
    assert_eq!(
        table.claim_session(&id, &wrong, 1).map(|s| s.port),
        Err("proxy session secret is invalid".to_string())
    );
    assert_eq!(table.len(), 0);
}

#[test]
fn sessions_expire_after_their_ttl() {
    let mut table = SessionTable::new();
    let (id, secret) = open(&mut table, "localhost", 5900, 1_000);
    assert!(table.check_session(&id, &secret, 1_000 + SESSION_TTL_NANOS).is_ok());
    assert_eq!(
        table.check_session(&id, &secret, 1_001 + SESSION_TTL_NANOS),
        Err("proxy session expired".to_string())
    );
    assert_eq!(table.len(), 0);

    let (id, secret) = open(&mut table, "localhost", 5900, 1_000);
    assert_eq!(
        table.claim_session(&id, &secret, 2_000 + SESSION_TTL_NANOS).map(|s| s.port),
        Err("proxy session expired".to_string())
    );
    // A clock that reads earlier than the creation time counts as no time passed.
    let (id, secret) = open(&mut table, "localhost", 5900, 1_000);
    assert!(table.claim_session(&id, &secret, 0).is_ok());
}

#[test]
fn creating_a_session_sweeps_expired_ones() {
    let mut table = SessionTable::new();
    open(&mut table, "a", 1, 0);
    open(&mut table, "b", 2, SESSION_TTL_NANOS);
    assert_eq!(table.len(), 2);
    open(&mut table, "c", 3, SESSION_TTL_NANOS + 1);
    assert_eq!(table.len(), 2);
    table.remove_expired(3 * SESSION_TTL_NANOS);
    assert_eq!(table.len(), 0);
    let status = table.status(Some(ADDR.to_string()));
    assert_eq!(status.active_sessions, 0);
    assert_eq!(status.listen_addr.as_deref(), Some(ADDR));
}

#[test]
fn refused_target_opens_nothing() {
    let mut table = SessionTable::new();
    open(&mut table, "a", 1, 0);
    let r = table.create_session("http://x".to_string(), 1, ADDR, 10 * SESSION_TTL_NANOS);
    assert_eq!(
        r.map(|resp| resp.session_id),
        Err("host must be a hostname or IP address without a scheme or port".to_string())
    );
    // Not even the expired session was swept.
    assert_eq!(table.len(), 1);
}

#[test]
fn table_insert_and_remove_work_by_id() {
    let mut table = SessionTable::new();
    let session = |port: u16| ProxySession {
        host: "h".to_string(),
        port,
        secret: "s".to_string(),
        created_at: 0,
    };
    table.insert("one".to_string(), session(1));
    table.insert("two".to_string(), session(2));
    table.insert("one".to_string(), session(3));
    assert_eq!(table.len(), 2);
    assert_eq!(table.remove(&"one".to_string()).map(|s| s.port), Some(3));
    assert_eq!(table.remove(&"one".to_string()).map(|s| s.port), None);
    assert_eq!(table.len(), 1);
}

#[test]
fn target_joins_host_and_decimal_port() {
    let make = |host: &str, port: u16| ProxySession {
        host: host.to_string(),
        port,
        secret: String::new(),
        created_at: 0,
    };
    assert_eq!(make("localhost", 5900).target(), "localhost:5900");
    assert_eq!(make("10.0.0.2", 7).target(), "10.0.0.2:7");
    assert_eq!(make("h", 65535).target(), "h:65535");
    assert_eq!(make(" h ", 10).target(), " h :10");
}

fn fail_message(step: PumpStep) -> Option<String> {
    match step {
        PumpStep::Fail(e) => Some(e),
        _ => None,
    }
}

#[test]
fn pump_forwards_binary_messages_only() {
    assert!(matches!(ws_message_step(&WsMessage::Binary(0)), PumpStep::Forward));
    assert!(matches!(
        ws_message_step(&WsMessage::Binary(MAX_WS_FRAME_SIZE)),
        PumpStep::Forward
    ));
    assert_eq!(MAX_WS_FRAME_SIZE, 8 * 1024 * 1024);
    assert_eq!(
        fail_message(ws_message_step(&WsMessage::Binary(MAX_WS_FRAME_SIZE + 1))).as_deref(),
        Some("websocket frame exceeds proxy limit")
    );
    assert!(matches!(ws_message_step(&WsMessage::Close), PumpStep::Finish));
    assert!(matches!(ws_message_step(&WsMessage::Ping), PumpStep::Skip));
    assert!(matches!(ws_message_step(&WsMessage::Pong), PumpStep::Skip));
    for msg in [WsMessage::Text, WsMessage::Frame] {
        assert_eq!(
            fail_message(ws_message_step(&msg)).as_deref(),
            Some("proxy accepts binary websocket frames only")
        );
    }
}

#[test]
fn sweeping_twice_at_one_time_changes_nothing() {
    let mut table = SessionTable::new();
    open(&mut table, "a", 1, 0);
    open(&mut table, "b", 2, 10);
    open(&mut table, "c", 3, 20);
    table.remove_expired(SESSION_TTL_NANOS + 10);
    assert_eq!(table.len(), 2);
    table.remove_expired(SESSION_TTL_NANOS + 10);
    assert_eq!(table.len(), 2);
}
