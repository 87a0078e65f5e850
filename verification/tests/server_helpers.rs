use chocobase::http::rate_limit::{RateLimitConfig, RateLimiter};
use chocobase::http::storage::{
    sanitize_object_path, sign_download_token, verify_download_signature,
    verify_download_signature_at,
};
use chocobase::metrics::MetricsRegistry;
use chocobase::migration::split_statements;

#[test]
fn sanitize_drops_traversal_segments() {
    assert_eq!(sanitize_object_path("../etc//passwd"), "etc/passwd");
    assert_eq!(sanitize_object_path("a\\b\\..\\c"), "a/b/c");
    assert_eq!(sanitize_object_path("./x/./y/"), "x/y");
    assert_eq!(sanitize_object_path(".."), "");
    let once = sanitize_object_path("/a//../b/./c.txt");
    assert_eq!(sanitize_object_path(&once), once);
}

#[test]
fn download_tokens_verify_until_expiry() {
    let secret = b"k3y";
    let tok = sign_download_token("b", "k/o.png", 100, secret);
    assert_eq!(tok.len(), 64);
    assert!(tok.chars().all(|c| c.is_ascii_hexdigit()));
    assert!(verify_download_signature_at("b", "k/o.png", 100, &tok, secret, 99));
    assert!(!verify_download_signature_at("b", "k/o.png", 100, &tok, secret, 100));
    assert!(!verify_download_signature_at("b", "k/other", 100, &tok, secret, 99));
    assert!(!verify_download_signature_at("b", "k/o.png", 100, &tok, b"other", 99));
    assert!(!verify_download_signature("b", "k/o.png", 100, &tok, secret));
    let far = sign_download_token("b", "k", u64::MAX, secret);
    assert!(verify_download_signature("b", "k", u64::MAX, &far, secret));
}

#[test]
fn rate_limiter_refuses_after_limit_and_recovers() {
    let mut rl = RateLimiter::new();
    assert_eq!(rl.check_rate_limit_at("ip", 2, 60, 1000), Ok(()));
    assert_eq!(rl.check_rate_limit_at("ip", 2, 60, 1010), Ok(()));
    assert_eq!(rl.check_rate_limit_at("ip", 2, 60, 1020), Err(40));
    assert_eq!(rl.check_rate_limit_at("other", 2, 60, 1020), Ok(()));
    assert_eq!(rl.check_rate_limit_at("ip", 2, 60, 1061), Ok(()));
    let keys = rl.list_active_keys_at(1100);
    assert_eq!(keys.len(), 2);
    assert!(keys.contains(&("ip".to_string(), 2)));
    rl.clear();
    assert!(rl.list_active_keys_at(1100).is_empty());
    assert_eq!(rl.check_rate_limit("live", 1, 60), Ok(()));
    assert!(rl.check_rate_limit("live", 1, 60).is_err());
    let cfg = RateLimitConfig::default();
    assert_eq!((cfg.max_requests, cfg.window_secs), (100, 60));
}

#[test]
fn metrics_count_and_render() {
    let mut m = MetricsRegistry::started_at(0);
    m.record_http_request(200);
    m.record_http_request(404);
    m.record_http_request(503);
    m.record_http_request(302);
    m.record_sql_query(true);
    m.record_sql_query(false);
    m.record_auth_attempt(false);
    m.record_realtime_broadcast();
    assert_eq!(m.http_requests_total, 4);
    assert_eq!((m.http_requests_2xx, m.http_requests_4xx, m.http_requests_5xx), (1, 1, 1));
    let text = m.render_prometheus_at(7);
    assert!(text.contains("chocobase_uptime_seconds 7\n"));
    assert!(text.contains("chocobase_http_requests_total 4\n"));
    assert!(text.contains("chocobase_http_requests_total{status=\"4xx\"} 1\n"));
    assert!(text.contains("chocobase_sql_queries_total{status=\"failed\"} 1\n"));
    assert!(text.contains("chocobase_auth_failures_total 1\n"));
    assert!(text.ends_with("chocobase_realtime_events_broadcast_total 1\n"));
    let g = MetricsRegistry::global();
    assert!(g.render_prometheus().contains("chocobase_http_requests_total 0\n"));
}

#[test]
fn statements_split_outside_quotes() {
    assert_eq!(
        split_statements("CREATE TABLE t (a TEXT); INSERT INTO t VALUES ('x;y');;  "),
        vec!["CREATE TABLE t (a TEXT)", "INSERT INTO t VALUES ('x;y')"]
    );
    assert_eq!(split_statements("SELECT 1"), vec!["SELECT 1"]);
    assert_eq!(split_statements("a; 'open;b"), vec!["a", "'open", "b"]);
    assert!(split_statements(" ; ; ").is_empty());
}
