use rinova_void::clash::{
    health_response_ok, scan_next_free_port, service_is_alive, stopped_status,
    validate_subscription_url,
};

#[test]
fn validate_accepts_public_https() {
    let url = validate_subscription_url("https://example.com/sub").unwrap();
    assert_eq!(url, "https://example.com/sub");
}

#[test]
fn validate_rejects_localhost() {
    assert!(validate_subscription_url("http://localhost/sub").is_err());
}

#[test]
fn validate_rejects_private_ip() {
    assert!(validate_subscription_url("http://192.168.1.1/sub").is_err());
    assert!(validate_subscription_url("http://10.0.0.1/sub").is_err());
}

#[test]
fn validate_rejects_invalid_scheme() {
    assert!(validate_subscription_url("ftp://example.com/sub").is_err());
}

#[test]
fn scan_next_free_port_skips_occupied() {
    let occupied = |p: u16| matches!(p, 25501 | 25502);
    assert_eq!(scan_next_free_port(25500, occupied, 32), Some(25503));
}

#[test]
fn scan_next_free_port_none_when_exhausted() {
    assert_eq!(scan_next_free_port(25500, |_| true, 3), None);
}

#[test]
fn scan_respects_max_bound() {
    assert_eq!(scan_next_free_port(65535, |_| true, 5), None);
}

#[test]
fn stopped_status_has_no_runner_label() {
    assert!(stopped_status().runner_kind.is_empty());
}

#[test]
fn health_response_ok_matches_status_variants() {
    assert!(health_response_ok("HTTP/1.1 200 OK\r\n\r\n"));
    assert!(health_response_ok(r#"{"status":"ok","nodes":1}"#));
    assert!(health_response_ok(r#"{"status": "ok", "nodes": 1}"#));
    assert!(!health_response_ok(r#"{"status":"initializing"}"#));
}

#[test]
fn service_is_alive_requires_handle_and_listening_port() {
    // Nothing listens in the test environment.
    let nothing_listens = |_p: u16| false;
    assert!(!service_is_alive(false, Some(25500), nothing_listens));
    assert!(!service_is_alive(true, None, nothing_listens));
    assert!(!service_is_alive(true, Some(1), nothing_listens));
}
