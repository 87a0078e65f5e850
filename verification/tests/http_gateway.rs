use chocobase::http::dispatch::{ApiRoute, StaticAsset};
use chocobase::http::gateway::{http_step, render_reply, ConnState, Dispatch, HttpAction, HttpEvent};

fn head(method: &str, target: &str, len: usize, token: Option<&str>) -> HttpEvent {
    HttpEvent::Head {
        method: method.into(),
        target: target.into(),
        content_length: len,
        origin_allowed: true,
        peer: "10.0.0.9".into(),
        token: token.map(|t| t.to_string()),
        ws_upgrade: false,
        has_ws_key: false,
    }
}

#[test]
fn oversized_heads_and_bodies_are_refused() {
    assert!(matches!(http_step(&ConnState::AwaitHead, HttpEvent::HeaderOverflow), (ConnState::Done, HttpAction::Respond(431))));
    assert!(matches!(http_step(&ConnState::AwaitHead, head("POST", "/v1/sql", 10 * 1024 * 1024 + 1, None)), (ConnState::Done, HttpAction::Respond(413))));
    assert!(matches!(http_step(&ConnState::AwaitHead, head("OPTIONS", "/x", 0, None)), (ConnState::Done, HttpAction::Respond(204))));
}

#[test]
fn requests_are_rate_checked_then_dispatched() {
    let (st, act) = http_step(&ConnState::AwaitHead, head("GET", "/rest/v1/items?id=eq.1", 10 * 1024 * 1024, Some("tok")));
    match act {
        HttpAction::CheckRate { key, max, window } => assert_eq!((key.as_str(), max, window), ("token:tok", 200, 60)),
        other => panic!("unexpected {other:?}"),
    }
    match http_step(&st, HttpEvent::RateChecked(Ok(()))) {
        (ConnState::Done, HttpAction::Dispatch(Dispatch::Api(ApiRoute::RestTable(t)))) => assert_eq!(t, "items"),
        other => panic!("unexpected {other:?}"),
    }
    assert!(matches!(http_step(&st, HttpEvent::RateChecked(Err(17))), (ConnState::Done, HttpAction::TooManyRequests(17))));
}

#[test]
fn auth_routes_have_a_smaller_allowance_and_exempt_routes_go_straight_on() {
    match http_step(&ConnState::AwaitHead, head("POST", "/v1/auth/token", 5, None)).1 {
        HttpAction::CheckRate { key, max, .. } => assert_eq!((key.as_str(), max), ("ip:10.0.0.9", 30)),
        other => panic!("unexpected {other:?}"),
    }
    assert!(matches!(http_step(&ConnState::AwaitHead, head("GET", "/health", 0, None)), (ConnState::Done, HttpAction::Dispatch(Dispatch::Api(ApiRoute::Health)))));
    assert!(matches!(http_step(&ConnState::AwaitHead, head("GET", "/metrics", 0, None)).1, HttpAction::Dispatch(Dispatch::Api(ApiRoute::Metrics))));
}

#[test]
fn the_rate_limit_test_route_answers_itself() {
    let (st, act) = http_step(&ConnState::AwaitHead, head("GET", "/v1/test/rate-limit", 0, None));
    match act {
        HttpAction::CheckRate { key, max, .. } => assert_eq!((key.as_str(), max), ("test:ip:10.0.0.9", 2)),
        other => panic!("unexpected {other:?}"),
    }
    assert!(matches!(http_step(&st, HttpEvent::RateChecked(Ok(()))), (ConnState::Done, HttpAction::Respond(200))));
    let (st2, _) = http_step(&ConnState::AwaitHead, head("GET", "/", 0, None));
    assert!(matches!(http_step(&st2, HttpEvent::RateChecked(Ok(()))).1, HttpAction::Dispatch(Dispatch::Asset(StaticAsset::Page))));
    assert!(matches!(http_step(&ConnState::Done, HttpEvent::HeaderOverflow), (ConnState::Done, HttpAction::Ignore)));
}

#[test]
fn an_oversized_body_gets_the_exact_413_reply() {
    let (_, act) = http_step(&ConnState::AwaitHead, head("POST", "/v1/sql", 10 * 1024 * 1024 + 1, None));
    let reply = render_reply(&act, "").unwrap();
    let body = "{\"error\":\"payload too large (max 10MB)\"}";
    let expected = format!(
        "HTTP/1.1 413 Payload Too Large\r\nContent-Type: application/json\r\nContent-Length: {}\r\nConnection: close\r\n\r\n{}",
        body.len(),
        body
    );
    assert_eq!(reply, expected);
    assert_eq!(body.len(), 40);
}

#[test]
fn other_gateway_replies_are_rendered() {
    assert_eq!(
        render_reply(&HttpAction::Respond(431), "").unwrap(),
        "HTTP/1.1 431 Request Header Fields Too Large\r\nConnection: close\r\n\r\n"
    );
    assert_eq!(render_reply(&HttpAction::Respond(403), "").unwrap(), "HTTP/1.1 403 Forbidden\r\nContent-Length: 0\r\nConnection: close\r\n\r\n");
    let ok = render_reply(&HttpAction::Respond(200), "").unwrap();
    assert!(ok.starts_with("HTTP/1.1 200 OK\r\nContent-Type: application/json\r\nConnection: close\r\nContent-Length: 15\r\n\r\n"));
    assert!(ok.ends_with("{\"status\":\"ok\"}"));
    let busy = render_reply(&HttpAction::TooManyRequests(42), "").unwrap();
    let body = "{\"error\":\"too many requests, rate limit exceeded\",\"retry_after\":42}";
    assert_eq!(
        busy,
        format!("HTTP/1.1 429 Too Many Requests\r\nContent-Type: application/json\r\nRetry-After: 42\r\nConnection: close\r\nContent-Length: {}\r\n\r\n{}", body.len(), body)
    );
    let pre = render_reply(&HttpAction::Respond(204), "Access-Control-Allow-Origin: x\r\n").unwrap();
    assert!(pre.starts_with("HTTP/1.1 204 No Content\r\nAccess-Control-Allow-Origin: x\r\nAccess-Control-Allow-Methods: "));
    assert!(render_reply(&HttpAction::Respond(500), "").is_none());
    assert!(render_reply(&HttpAction::Ignore, "").is_none());
}
