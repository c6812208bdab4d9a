use xvnc_viewer::request::{extract_session_request, is_allowed_origin};
use xvnc_viewer::target::validate_target;

#[test]
fn parses_session_request_with_secret() {
    let (session_id, secret) = extract_session_request(
        "/vnc/5f7d7d47-1ca8-4da3-9177-33065173336b?secret=57a07d14-5db0-44c6-97cc-6f8e7ed9c8fb",
    )
    .expect("session request should parse");

    assert_eq!(session_id, "5f7d7d47-1ca8-4da3-9177-33065173336b");
    assert_eq!(secret, "57a07d14-5db0-44c6-97cc-6f8e7ed9c8fb");
}

#[test]
fn rejects_missing_or_malformed_session_secret() {
    assert!(extract_session_request("/vnc/5f7d7d47-1ca8-4da3-9177-33065173336b").is_err());
    assert!(extract_session_request(
        "/vnc/5f7d7d47-1ca8-4da3-9177-33065173336b?secret=not%20hex"
    )
    .is_err());
}

#[test]
fn validates_hostname_targets() {
    assert!(validate_target("127.0.0.1", 5900).is_ok());
    assert!(validate_target("localhost", 5900).is_ok());
    assert!(validate_target("vnc-host.internal", 5900).is_ok());
    assert!(validate_target("http://127.0.0.1", 5900).is_err());
    assert!(validate_target("127.0.0.1:5900", 5900).is_err());
    assert!(validate_target("::1", 5900).is_err());
    assert!(validate_target("127.0.0.1", 0).is_err());
}

#[test]
fn allows_expected_webview_origins() {
    assert!(is_allowed_origin(None));
    assert!(is_allowed_origin(Some("tauri://localhost")));
    assert!(is_allowed_origin(Some("http://127.0.0.1:1420")));
    assert!(is_allowed_origin(Some("http://localhost:1420")));
    assert!(!is_allowed_origin(Some("https://example.com")));
}
