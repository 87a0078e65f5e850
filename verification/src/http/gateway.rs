use vstd::prelude::*;

use crate::http::dispatch::{
    api_route, rate_limit_allowance, route_view, spec_api_route, spec_rate_limit_allowance, spec_static_asset,
    static_asset, str_starts, ApiRoute, StaticAsset,
};
use crate::http::request::{rate_limit_key, spec_rate_limit_key, spec_split_target, split_target, MAX_PAYLOAD_BYTES};
use crate::text::{chars_of, nat_decimal, push_chars, push_str, push_u64_decimal, starts_with, str_equal, string_of};

verus! {

/// Where a request is handed once it may proceed.
#[derive(Debug)]
pub enum Dispatch {
    /// A websocket upgrade on the realtime socket path.
    Websocket,
    /// A file of the bundled dashboard.
    Asset(StaticAsset),
    /// The realtime event stream, with the request's query string.
    Stream(String),
    /// An API handler.
    Api(ApiRoute),
}

/// The abstract content of a dispatch.
pub enum DispatchView {
    Websocket,
    Asset(StaticAsset),
    Stream(Seq<char>),
    Api((int, Seq<char>)),
}

impl View for Dispatch {
    type V = DispatchView;

    open spec fn view(&self) -> DispatchView {
        match self {
            Dispatch::Websocket => DispatchView::Websocket,
            Dispatch::Asset(a) => DispatchView::Asset(*a),
            Dispatch::Stream(q) => DispatchView::Stream(q@),
            Dispatch::Api(r) => DispatchView::Api(route_view(*r)),
        }
    }
}

/// Where a request goes, in order: a websocket upgrade with a key on the realtime socket
/// path; a dashboard file; the event stream (`GET /v1/realtime/v1/stream`); else the API.
pub open spec fn spec_dispatch(
    method: Seq<char>,
    path: Seq<char>,
    query: Seq<char>,
    ws_upgrade: bool,
    has_ws_key: bool,
) -> DispatchView {
    if ws_upgrade && has_ws_key && (starts_with(path, "/v1/realtime/v1/websocket"@) || starts_with(
        path,
        "/realtime/v1/websocket"@,
    )) {
        DispatchView::Websocket
    } else if spec_static_asset(method, path) is Some {
        DispatchView::Asset(spec_static_asset(method, path).unwrap())
    } else if method == "GET"@ && path == "/v1/realtime/v1/stream"@ {
        DispatchView::Stream(query)
    } else {
        DispatchView::Api(spec_api_route(method, path))
    }
}

/// Where a request goes.
pub fn dispatch(method: &str, path: &str, query: &str, ws_upgrade: bool, has_ws_key: bool) -> (r: Dispatch)
    ensures
        r@ == spec_dispatch(method@, path@, query@, ws_upgrade, has_ws_key),
{
    if ws_upgrade && has_ws_key && (str_starts(path, "/v1/realtime/v1/websocket") || str_starts(
        path,
        "/realtime/v1/websocket",
    )) {
        return Dispatch::Websocket;
    }
    if let Some(a) = static_asset(method, path) {
        return Dispatch::Asset(a);
    }
    if str_equal(method, "GET") && str_equal(path, "/v1/realtime/v1/stream") {
        return Dispatch::Stream(String::from_str(query));
    }
    Dispatch::Api(api_route(method, path))
}

/// Where a connection stands.
#[derive(Debug)]
pub enum ConnState {
    /// Waiting for the request head.
    AwaitHead,
    /// Waiting for the rate limiter's answer on a request (`test` for the limiter's own
    /// test route).
    AwaitRate { method: String, path: String, query: String, test: bool, ws_upgrade: bool, has_ws_key: bool },
    /// Answered.
    Done,
}

/// The abstract content of a connection state.
pub enum ConnStateView {
    AwaitHead,
    AwaitRate {
        method: Seq<char>,
        path: Seq<char>,
        query: Seq<char>,
        test: bool,
        ws_upgrade: bool,
        has_ws_key: bool,
    },
    Done,
}

impl View for ConnState {
    type V = ConnStateView;

    open spec fn view(&self) -> ConnStateView {
        match self {
            ConnState::AwaitHead => ConnStateView::AwaitHead,
            ConnState::AwaitRate { method, path, query, test, ws_upgrade, has_ws_key } => ConnStateView::AwaitRate {
                method: method@,
                path: path@,
                query: query@,
                test: *test,
                ws_upgrade: *ws_upgrade,
                has_ws_key: *has_ws_key,
            },
            ConnState::Done => ConnStateView::Done,
        }
    }
}

/// What happened on a connection.
#[derive(Debug)]
pub enum HttpEvent {
    /// No end of the head within the header limit.
    HeaderOverflow,
    /// The head was read: method (uppercase), target, declared body length, whether the
    /// `Origin` is allowed, the peer's address, the bearer token and the websocket headers.
    Head {
        method: String,
        target: String,
        content_length: usize,
        origin_allowed: bool,
        peer: String,
        token: Option<String>,
        ws_upgrade: bool,
        has_ws_key: bool,
    },
    /// The rate limiter's answer: allowed, or refused with the seconds to wait.
    RateChecked(Result<(), u64>),
}

/// What to do next on a connection.
#[derive(Debug)]
pub enum HttpAction {
    /// Answer with this status and close: 431 (head too large), 413 (body over 10 MB),
    /// 403 (preflight from a refused origin), 204 (preflight), 200 (rate-limit test passed).
    Respond(u16),
    /// Answer 429 with the seconds to wait.
    TooManyRequests(u64),
    /// Count a request under `key` against `max` per `window` seconds, then report.
    CheckRate { key: String, max: usize, window: u64 },
    /// Hand the request on.
    Dispatch(Dispatch),
    /// Nothing: the event does not belong to the state.
    Ignore,
}

/// The abstract content of an action.
pub enum HttpActionView {
    Respond(u16),
    TooManyRequests(u64),
    CheckRate { key: Seq<char>, max: usize, window: u64 },
    Dispatch(DispatchView),
    Ignore,
}

impl View for HttpAction {
    type V = HttpActionView;

    open spec fn view(&self) -> HttpActionView {
        match self {
            HttpAction::Respond(s) => HttpActionView::Respond(*s),
            HttpAction::TooManyRequests(w) => HttpActionView::TooManyRequests(*w),
            HttpAction::CheckRate { key, max, window } => HttpActionView::CheckRate {
                key: key@,
                max: *max,
                window: *window,
            },
            HttpAction::Dispatch(d) => HttpActionView::Dispatch(d@),
            HttpAction::Ignore => HttpActionView::Ignore,
        }
    }
}

/// The abstract content of an event.
pub enum HttpEventView {
    HeaderOverflow,
    Head {
        method: Seq<char>,
        target: Seq<char>,
        content_length: usize,
        origin_allowed: bool,
        peer: Seq<char>,
        token: Option<Seq<char>>,
        ws_upgrade: bool,
        has_ws_key: bool,
    },
    RateChecked(Result<(), u64>),
}

impl View for HttpEvent {
    type V = HttpEventView;

    open spec fn view(&self) -> HttpEventView {
        match self {
            HttpEvent::HeaderOverflow => HttpEventView::HeaderOverflow,
            HttpEvent::Head { method, target, content_length, origin_allowed, peer, token, ws_upgrade, has_ws_key } =>
                HttpEventView::Head {
                method: method@,
                target: target@,
                content_length: *content_length,
                origin_allowed: *origin_allowed,
                peer: peer@,
                token: match token {
                    Some(t) => Some(t@),
                    None => None,
                },
                ws_upgrade: *ws_upgrade,
                has_ws_key: *has_ws_key,
            },
            HttpEvent::RateChecked(r) => HttpEventView::RateChecked(*r),
        }
    }
}

/// The next state and action of a connection: a head too large is refused (431); a body
/// over 10 MB is refused (413); a preflight is answered (204, or 403 for a refused
/// origin); the rate-limit test route is counted against 2 per minute, other routes
/// against their allowance, exempt routes go on at once; a refused count is answered 429,
/// an allowed one goes on (the test route answers 200).
pub open spec fn spec_http_step(s: ConnStateView, e: HttpEventView) -> (ConnStateView, HttpActionView) {
    match (s, e) {
        (ConnStateView::AwaitHead, HttpEventView::HeaderOverflow) => (ConnStateView::Done, HttpActionView::Respond(431)),
        (
            ConnStateView::AwaitHead,
            HttpEventView::Head { method, target, content_length, origin_allowed, peer, token, ws_upgrade, has_ws_key },
        ) => {
            let path = spec_split_target(target).0;
            let query = spec_split_target(target).1;
            let key = spec_rate_limit_key(token, peer);
            if content_length > MAX_PAYLOAD_BYTES {
                (ConnStateView::Done, HttpActionView::Respond(413))
            } else if method == "OPTIONS"@ {
                (ConnStateView::Done, HttpActionView::Respond(if origin_allowed { 204 } else { 403 }))
            } else if path == "/v1/test/rate-limit"@ {
                (
                    ConnStateView::AwaitRate { method, path, query, test: true, ws_upgrade, has_ws_key },
                    HttpActionView::CheckRate { key: "test:"@ + key, max: 2, window: 60 },
                )
            } else if spec_rate_limit_allowance(path) is Some {
                (
                    ConnStateView::AwaitRate { method, path, query, test: false, ws_upgrade, has_ws_key },
                    HttpActionView::CheckRate { key, max: spec_rate_limit_allowance(path).unwrap(), window: 60 },
                )
            } else {
                (
                    ConnStateView::Done,
                    HttpActionView::Dispatch(spec_dispatch(method, path, query, ws_upgrade, has_ws_key)),
                )
            }
        },
        (
            ConnStateView::AwaitRate { method, path, query, test, ws_upgrade, has_ws_key },
            HttpEventView::RateChecked(res),
        ) => match res {
            Err(wait) => (ConnStateView::Done, HttpActionView::TooManyRequests(wait)),
            Ok(_) => if test {
                (ConnStateView::Done, HttpActionView::Respond(200))
            } else {
                (
                    ConnStateView::Done,
                    HttpActionView::Dispatch(spec_dispatch(method, path, query, ws_upgrade, has_ws_key)),
                )
            },
        },
        _ => (s, HttpActionView::Ignore),
    }
}

fn copy_state(s: &ConnState) -> (r: ConnState)
    ensures
        r@ == s@,
{
    match s {
        ConnState::AwaitHead => ConnState::AwaitHead,
        ConnState::AwaitRate { method, path, query, test, ws_upgrade, has_ws_key } => ConnState::AwaitRate {
            method: method.clone(),
            path: path.clone(),
            query: query.clone(),
            test: *test,
            ws_upgrade: *ws_upgrade,
            has_ws_key: *has_ws_key,
        },
        ConnState::Done => ConnState::Done,
    }
}

/// The next state of a connection and what to do.
pub fn http_step(state: &ConnState, event: HttpEvent) -> (r: (ConnState, HttpAction))
    ensures
        (r.0@, r.1@) == spec_http_step(state@, event@),
{
    match (state, event) {
        (ConnState::AwaitHead, HttpEvent::HeaderOverflow) => (ConnState::Done, HttpAction::Respond(431)),
        (
            ConnState::AwaitHead,
            HttpEvent::Head { method, target, content_length, origin_allowed, peer, token, ws_upgrade, has_ws_key },
        ) => {
            if content_length > MAX_PAYLOAD_BYTES {
                return (ConnState::Done, HttpAction::Respond(413));
            }
            if str_equal(method.as_str(), "OPTIONS") {
                return (ConnState::Done, HttpAction::Respond(if origin_allowed { 204 } else { 403 }));
            }
            let (path, query) = split_target(target.as_str());
            let key = match &token {
                Some(t) => rate_limit_key(Some(t.as_str()), peer.as_str()),
                None => rate_limit_key(None, peer.as_str()),
            };
            if str_equal(path.as_str(), "/v1/test/rate-limit") {
                let mut v: Vec<char> = Vec::new();
                push_str(&mut v, "test:");
                push_str(&mut v, key.as_str());
                let k = string_of(v.as_slice());
                return (
                    ConnState::AwaitRate { method, path, query, test: true, ws_upgrade, has_ws_key },
                    HttpAction::CheckRate { key: k, max: 2, window: 60 },
                );
            }
            match rate_limit_allowance(path.as_str()) {
                Some(m) => (
                    ConnState::AwaitRate { method, path, query, test: false, ws_upgrade, has_ws_key },
                    HttpAction::CheckRate { key, max: m, window: 60 },
                ),
                None => {
                    let d = dispatch(method.as_str(), path.as_str(), query.as_str(), ws_upgrade, has_ws_key);
                    (ConnState::Done, HttpAction::Dispatch(d))
                },
            }
        },
        (
            ConnState::AwaitRate { method, path, query, test, ws_upgrade, has_ws_key },
            HttpEvent::RateChecked(res),
        ) => match res {
            Err(wait) => (ConnState::Done, HttpAction::TooManyRequests(wait)),
            Ok(_) => if *test {
                (ConnState::Done, HttpAction::Respond(200))
            } else {
                let d = dispatch(method.as_str(), path.as_str(), query.as_str(), *ws_upgrade, *has_ws_key);
                (ConnState::Done, HttpAction::Dispatch(d))
            },
        },
        (st, _) => (copy_state(st), HttpAction::Ignore),
    }
}

/// The body of the answer to a request whose body is over 10 MB.
pub open spec fn too_large_body() -> Seq<char> {
    "{\"error\":\"payload too large (max 10MB)\"}"@
}

/// The body of the answer to the rate-limit test route.
pub open spec fn test_ok_body() -> Seq<char> {
    "{\"status\":\"ok\"}"@
}

/// The body of a 429 answer that asks to wait `wait` seconds.
pub open spec fn too_many_body(wait: u64) -> Seq<char> {
    "{\"error\":\"too many requests, rate limit exceeded\",\"retry_after\":"@ + nat_decimal(wait as nat) + "}"@
}

/// The headers of an answered preflight after the CORS headers.
pub open spec fn preflight_tail() -> Seq<char> {
    "Access-Control-Allow-Methods: GET, POST, PATCH, DELETE, OPTIONS, PUT, HEAD\r\nAccess-Control-Allow-Headers: Content-Type, Authorization, X-Requested-With, apikey, Prefer, Range, X-Client-Info, accept-profile, content-profile, x-relay-key, x-upsert\r\nAccess-Control-Max-Age: 86400\r\nContent-Length: 0\r\nConnection: close\r\n\r\n"@
}

/// The text written to the socket for an action that answers the request itself, given
/// the CORS headers of the request's origin; `None` for an action that answers nothing
/// yet (a rate check, a dispatch, an ignored event). Every body is ASCII, so its length
/// in characters is its `Content-Length` in bytes.
pub open spec fn spec_reply(a: HttpActionView, cors: Seq<char>) -> Option<Seq<char>> {
    match a {
        HttpActionView::Respond(status) => if status == 431 {
            Some("HTTP/1.1 431 Request Header Fields Too Large\r\nConnection: close\r\n\r\n"@)
        } else if status == 413 {
            Some(
                "HTTP/1.1 413 Payload Too Large\r\nContent-Type: application/json\r\nContent-Length: "@ + nat_decimal(
                    too_large_body().len(),
                ) + "\r\nConnection: close\r\n\r\n"@ + too_large_body(),
            )
        } else if status == 403 {
            Some("HTTP/1.1 403 Forbidden\r\nContent-Length: 0\r\nConnection: close\r\n\r\n"@)
        } else if status == 204 {
            Some("HTTP/1.1 204 No Content\r\n"@ + cors + preflight_tail())
        } else if status == 200 {
            Some(
                "HTTP/1.1 200 OK\r\nContent-Type: application/json\r\nConnection: close\r\nContent-Length: "@
                    + nat_decimal(test_ok_body().len()) + "\r\n\r\n"@ + test_ok_body(),
            )
        } else {
            None
        },
        HttpActionView::TooManyRequests(wait) => Some(
            "HTTP/1.1 429 Too Many Requests\r\nContent-Type: application/json\r\nRetry-After: "@ + nat_decimal(
                wait as nat,
            ) + "\r\nConnection: close\r\nContent-Length: "@ + nat_decimal(too_many_body(wait).len()) + "\r\n\r\n"@
                + too_many_body(wait),
        ),
        _ => None,
    }
}

/// The text to write for an action that answers the request itself (see `spec_reply`).
pub fn render_reply(action: &HttpAction, cors: &str) -> (r: Option<String>)
    ensures
        match spec_reply(action@, cors@) {
            Some(t) => r matches Some(s) && s@ == t,
            None => r is None,
        },
{
    let mut out: Vec<char> = Vec::new();
    match action {
        HttpAction::Respond(status) => {
            if *status == 431 {
                push_str(&mut out, "HTTP/1.1 431 Request Header Fields Too Large\r\nConnection: close\r\n\r\n");
            } else if *status == 413 {
                let body = chars_of("{\"error\":\"payload too large (max 10MB)\"}");
                push_str(&mut out, "HTTP/1.1 413 Payload Too Large\r\nContent-Type: application/json\r\nContent-Length: ");
                push_u64_decimal(&mut out, body.len() as u64);
                push_str(&mut out, "\r\nConnection: close\r\n\r\n");
                push_chars(&mut out, body.as_slice());
            } else if *status == 403 {
                push_str(&mut out, "HTTP/1.1 403 Forbidden\r\nContent-Length: 0\r\nConnection: close\r\n\r\n");
            } else if *status == 204 {
                push_str(&mut out, "HTTP/1.1 204 No Content\r\n");
                push_str(&mut out, cors);
                push_str(
                    &mut out,
                    "Access-Control-Allow-Methods: GET, POST, PATCH, DELETE, OPTIONS, PUT, HEAD\r\nAccess-Control-Allow-Headers: Content-Type, Authorization, X-Requested-With, apikey, Prefer, Range, X-Client-Info, accept-profile, content-profile, x-relay-key, x-upsert\r\nAccess-Control-Max-Age: 86400\r\nContent-Length: 0\r\nConnection: close\r\n\r\n",
                );
            } else if *status == 200 {
                let body = chars_of("{\"status\":\"ok\"}");
                push_str(&mut out, "HTTP/1.1 200 OK\r\nContent-Type: application/json\r\nConnection: close\r\nContent-Length: ");
                push_u64_decimal(&mut out, body.len() as u64);
                push_str(&mut out, "\r\n\r\n");
                push_chars(&mut out, body.as_slice());
            } else {
                return None;
            }
        },
        HttpAction::TooManyRequests(wait) => {
            let mut body: Vec<char> = Vec::new();
            push_str(&mut body, "{\"error\":\"too many requests, rate limit exceeded\",\"retry_after\":");
            push_u64_decimal(&mut body, *wait);
            push_str(&mut body, "}");
            push_str(&mut out, "HTTP/1.1 429 Too Many Requests\r\nContent-Type: application/json\r\nRetry-After: ");
            push_u64_decimal(&mut out, *wait);
            push_str(&mut out, "\r\nConnection: close\r\nContent-Length: ");
            push_u64_decimal(&mut out, body.len() as u64);
            push_str(&mut out, "\r\n\r\n");
            push_chars(&mut out, body.as_slice());
        },
        _ => {
            return None;
        },
    }
    Some(string_of(out.as_slice()))
}

} // verus!
