use chocobase::http::dispatch::{api_route, rate_limit_allowance, static_asset, stream_channel, stream_refused, ApiRoute, StaticAsset};

#[test]
fn rate_limits_depend_on_the_route() {
    assert_eq!(rate_limit_allowance("/v1/admin/dump"), None);
    assert_eq!(rate_limit_allowance("/admin/replicas"), None);
    assert_eq!(rate_limit_allowance("/health"), None);
    assert_eq!(rate_limit_allowance("/metrics"), None);
    assert_eq!(rate_limit_allowance("/healthz"), Some(200));
    assert_eq!(rate_limit_allowance("/v1/auth/token"), Some(30));
    assert_eq!(rate_limit_allowance("/auth/v1/signup"), Some(30));
    assert_eq!(rate_limit_allowance("/rest/v1/items"), Some(200));
}

#[test]
fn dashboard_files_are_served_for_gets() {
    assert_eq!(static_asset("GET", "/"), Some(StaticAsset::Page));
    assert_eq!(static_asset("GET", "/dashboard"), Some(StaticAsset::Page));
    assert_eq!(static_asset("GET", "/assets/index-CsT9bNzu.css"), Some(StaticAsset::Stylesheet));
    assert_eq!(static_asset("GET", "/v1/x.js"), Some(StaticAsset::Script));
    assert_eq!(static_asset("GET", "/projects/42"), Some(StaticAsset::Page));
    assert_eq!(static_asset("GET", "/rest/v1/items"), None);
    assert_eq!(static_asset("GET", "/health"), None);
    assert_eq!(static_asset("POST", "/"), None);
}

#[test]
fn stream_channel_is_the_last_one_asked_for() {
    assert_eq!(stream_channel(""), "general");
    assert_eq!(stream_channel("a=1&channel=room&b"), "room");
    assert_eq!(stream_channel("channel=one&channel=two"), "two");
    assert_eq!(stream_channel("channel"), "general");
    assert!(stream_refused("private:ops", false, false));
    assert!(!stream_refused("private:ops", true, false));
    assert!(!stream_refused("private:ops", false, true));
    assert!(!stream_refused("public", false, false));
}

#[test]
fn requests_are_routed_in_order() {
    assert!(matches!(api_route("GET", "/storage/v1/object/b/k"), ApiRoute::Storage));
    assert!(matches!(api_route("GET", "/v1/storage/v1/render/image/b/k"), ApiRoute::Storage));
    assert!(matches!(api_route("GET", "/v1/tables"), ApiRoute::ListTables));
    assert!(matches!(api_route("GET", "/v1/tables/users"), ApiRoute::TableSchema(t) if t == "users"));
    assert!(matches!(api_route("POST", "/v1/tables/users"), ApiRoute::NotFound));
    assert!(matches!(api_route("DELETE", "/admin/replicas/r1"), ApiRoute::AdminReplica(r) if r == "r1"));
    assert!(matches!(api_route("GET", "/fdw/remote"), ApiRoute::FdwScan(t) if t == "remote"));
    assert!(matches!(api_route("POST", "/auth/v1/token/refresh"), ApiRoute::AuthRefresh));
    assert!(matches!(api_route("GET", "/auth/v1/authorize"), ApiRoute::OauthAuthorize));
    assert!(matches!(api_route("POST", "/v1/functions/v1/hello"), ApiRoute::Functions));
    assert!(matches!(api_route("GET", "/livez"), ApiRoute::Health));
    assert!(matches!(api_route("GET", "/rest/v1/"), ApiRoute::OpenApi));
    assert!(matches!(api_route("PATCH", "/v1/admin/projects/p1/pause"), ApiRoute::AdminProject(r) if r == "p1/pause"));
    assert!(matches!(api_route("POST", "/rest/v1/rpc/add"), ApiRoute::Rpc(f) if f == "add"));
    assert!(matches!(api_route("POST", "/rpc/add"), ApiRoute::Rpc(f) if f == "add"));
    assert!(matches!(api_route("GET", "/v1/rest/items"), ApiRoute::RestTable(t) if t == "items"));
    assert!(matches!(api_route("GET", "/nowhere"), ApiRoute::NotFound));
}
