use preload_supervisor::http::{body_text, payload_buffer_size, redirect_location, FetchOptions};

#[test]
fn location_header_found_in_any_case() {
    let headers = vec![
        ("Content-Type".to_string(), b"text/html".to_vec()),
        ("LoCaTiOn".to_string(), b"https://example.com/agent.jar".to_vec()),
        ("location".to_string(), b"second".to_vec()),
    ];
    assert_eq!(redirect_location(&headers), Some("https://example.com/agent.jar".to_string()));
}

#[test]
fn missing_location_is_none() {
    let headers = vec![("Server".to_string(), b"x".to_vec())];
    assert_eq!(redirect_location(&headers), None);
    assert_eq!(redirect_location(&vec![]), None);
}

#[test]
fn body_text_replaces_invalid_bytes() {
    assert_eq!(body_text(b"{\"generation\":1}"), "{\"generation\":1}");
    assert_eq!(body_text(&[b'a', 0xFF, b'b']), "a\u{FFFD}b");
}

#[test]
fn payload_buffer_sizes() {
    assert_eq!(payload_buffer_size(Some(1000)), 1100);
    assert_eq!(payload_buffer_size(None), 100_000_100);
    assert_eq!(payload_buffer_size(Some(usize::MAX - 5)), usize::MAX);
}

#[test]
fn fetch_options_leave_verification_off() {
    let s = FetchOptions::settings();
    assert!(!s.verify_certificates);
    assert_eq!(s.tls_buffer_size, 16 * 1024);
    let p = FetchOptions::payload();
    assert!(!p.verify_certificates);
    assert_eq!(p.tls_buffer_size, 8 * 1024 * 1024);
}

#[test]
fn only_success_statuses_are_read() {
    use_status(200, true);
    use_status(204, true);
    use_status(299, true);
    use_status(199, false);
    use_status(301, false);
    use_status(404, false);
}

fn use_status(code: u16, expected: bool) {
    assert_eq!(preload_supervisor::http::settings_status_accepted(code), expected);
}
