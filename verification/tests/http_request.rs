use chocobase::http::request::{parse_request_head, rate_limit_key, split_target, MAX_PAYLOAD_BYTES};

#[test]
fn request_heads_are_read() {
    let head = "get /rest/v1/users?id=eq.1 HTTP/1.1\r\nHost: example.com\r\nAUTHORIZATION: Bearer  abc.def \r\napikey: k1\r\nX-Project-Ref: p9\r\nContent-Length: 42\r\nUpgrade: WebSocket\r\nSec-WebSocket-Key: xyz\r\nPrefer: return=minimal\r\nAccept: */*\r\nOrigin: https://a.io\r\nRange: 0-9\r\nno colon here";
    let h = parse_request_head(head).unwrap();
    assert_eq!(h.method, "GET");
    assert_eq!(h.full_path, "/rest/v1/users?id=eq.1");
    assert_eq!(h.host_header.as_deref(), Some("example.com"));
    assert_eq!(h.auth_token.as_deref(), Some("abc.def"));
    assert_eq!(h.apikey_header.as_deref(), Some("k1"));
    assert_eq!(h.project_header.as_deref(), Some("p9"));
    assert_eq!(h.content_length, 42);
    assert!(h.ws_upgrade);
    assert_eq!(h.ws_key.as_deref(), Some("xyz"));
    assert_eq!(h.prefer_header.as_deref(), Some("return=minimal"));
    assert_eq!(h.accept_header.as_deref(), Some("*/*"));
    assert_eq!(h.origin_header.as_deref(), Some("https://a.io"));
    assert_eq!(h.range_header.as_deref(), Some("0-9"));
}

#[test]
fn request_head_defaults_and_edge_cases() {
    assert!(parse_request_head("").is_none());
    let h = parse_request_head("\nAuthorization: Basic zzz\nContent-Length: nope\nUpgrade: h2c").unwrap();
    assert_eq!(h.method, "GET");
    assert_eq!(h.full_path, "/");
    assert_eq!(h.auth_token, None);
    assert_eq!(h.content_length, 0);
    assert!(!h.ws_upgrade);
    let h = parse_request_head("POST /x\r\nx-project-id: a\r\nx-project-ref: b\r\n").unwrap();
    assert_eq!(h.method, "POST");
    assert_eq!(h.project_header.as_deref(), Some("b"));
}

#[test]
fn targets_and_rate_keys() {
    assert_eq!(split_target("/a?b=1?c"), ("/a".to_string(), "b=1?c".to_string()));
    assert_eq!(split_target("/a"), ("/a".to_string(), String::new()));
    assert_eq!(rate_limit_key(Some("t1"), "1.2.3.4"), "token:t1");
    assert_eq!(rate_limit_key(None, "1.2.3.4"), "ip:1.2.3.4");
    assert_eq!(MAX_PAYLOAD_BYTES, 10 * 1024 * 1024);
}
