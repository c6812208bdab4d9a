use xvnc_viewer::request::{admit_request, extract_session_request, is_allowed_origin};
use xvnc_viewer::target::validate_target;

fn err_of<T: std::fmt::Debug>(r: Result<T, String>) -> String {
    r.expect_err("expected an error")
}

#[test]
fn target_errors_come_in_order() {
    assert_eq!(err_of(validate_target("", 5900)), "host is required");
    assert_eq!(err_of(validate_target(" \t\n ", 0)), "host is required");
    assert_eq!(err_of(validate_target(&"a".repeat(256), 0)), "host is too long");
    assert_eq!(
        err_of(validate_target("localhost", 0)),
        "port must be between 1 and 65535"
    );
    assert_eq!(
        err_of(validate_target("user@host", 1)),
        "host must be a hostname or IP address without a scheme or port"
    );
    assert_eq!(
        err_of(validate_target("a\\b", 1)),
        "host must be a hostname or IP address without a scheme or port"
    );
    assert_eq!(
        err_of(validate_target("vnc_host", 1)),
        "host contains unsupported characters"
    );
    assert_eq!(
        err_of(validate_target("exa mple", 1)),
        "host contains unsupported characters"
    );
}

#[test]
fn target_host_is_trimmed_and_measured_in_bytes() {
    assert!(validate_target("  localhost\t", 65535).is_ok());
    assert!(validate_target("\u{3000}localhost\u{a0}", 1).is_ok());
    assert!(validate_target(&"a".repeat(255), 1).is_ok());
    // 128 two-byte characters: 256 bytes, though only 128 characters.
    assert_eq!(err_of(validate_target(&"é".repeat(128), 1)), "host is too long");
    assert_eq!(
        err_of(validate_target(&"é".repeat(127), 1)),
        "host contains unsupported characters"
    );
}

#[test]
fn route_errors_name_their_cause() {
    assert_eq!(
        err_of(extract_session_request("/ws/abc?secret=1")),
        "websocket path must be /vnc/<session_id>"
    );
    assert_eq!(
        err_of(extract_session_request("/vnc/?secret=1")),
        "invalid proxy session id"
    );
    assert_eq!(
        err_of(extract_session_request("/vnc/xyz?secret=1")),
        "invalid proxy session id"
    );
    assert_eq!(
        err_of(extract_session_request(&format!("/vnc/{}?secret=1", "a".repeat(65)))),
        "invalid proxy session id"
    );
    assert_eq!(
        err_of(extract_session_request("/vnc/abc?token=1&secret")),
        "proxy session secret is required"
    );
    assert_eq!(
        err_of(extract_session_request("/vnc/abc?secret=zz")),
        "invalid proxy session secret"
    );
    assert_eq!(
        err_of(extract_session_request(&format!("/vnc/abc?secret={}", "0".repeat(65)))),
        "invalid proxy session secret"
    );
}

#[test]
fn route_secret_is_the_first_secret_parameter() {
    let (id, secret) = extract_session_request("/vnc/AB-cd?x=1&secretx=2&secret&secret=ff&secret=00")
        .unwrap();
    assert_eq!(id, "AB-cd");
    assert_eq!(secret, "ff");
    let (_, secret) = extract_session_request("/vnc/ab?secret=").unwrap();
    assert_eq!(secret, "");
    let (id, _) = extract_session_request(&format!("/vnc/{}?secret=ab?", "a".repeat(64))).unwrap_or_default();
    assert_eq!(id, "");
    assert_eq!(
        err_of(extract_session_request(&format!("/vnc/{}?secret=a=b", "a".repeat(64)))),
        "invalid proxy session secret"
    );
    let (id, secret) = extract_session_request(&format!("/vnc/{}?a=b&secret=c?d", "F".repeat(64)))
        .unwrap_or_default();
    assert_eq!((id.as_str(), secret.as_str()), ("", ""));
}

#[test]
fn only_local_origins_are_allowed() {
    assert!(is_allowed_origin(Some("http://tauri.localhost")));
    assert!(!is_allowed_origin(Some("http://localhost")));
    assert!(!is_allowed_origin(Some("tauri://localhost.evil")));
    assert!(!is_allowed_origin(Some("")));
}

#[test]
fn admission_checks_origin_before_route() {
    assert_eq!(
        err_of(admit_request(Some("https://example.com"), "/vnc/ab?secret=cd")),
        "websocket origin is not allowed"
    );
    assert_eq!(
        admit_request(None, "/vnc/ab?secret=cd").unwrap(),
        ("ab".to_string(), "cd".to_string())
    );
    assert_eq!(
        err_of(admit_request(Some("tauri://localhost"), "/vnc/ab")),
        "proxy session secret is required"
    );
}
