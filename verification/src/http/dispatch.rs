use vstd::prelude::*;

use crate::http::branches::{strip_prefix, strip_prefix_chars};

use crate::text::{
    chars_ends_with, chars_of, chars_starts_with, ends_with, find_chars, find_first, split_at_char, split_char,
    split_once, split_once_char, starts_with, str_equal, string_of,
};

verus! {

/// Whether `s` starts with `p`.
pub fn str_starts(s: &str, p: &str) -> (r: bool)
    ensures
        r == starts_with(s@, p@),
{
    chars_starts_with(chars_of(s).as_slice(), chars_of(p).as_slice())
}

/// Whether `s` ends with `p`.
pub fn str_ends(s: &str, p: &str) -> (r: bool)
    ensures
        r == ends_with(s@, p@),
{
    chars_ends_with(chars_of(s).as_slice(), chars_of(p).as_slice())
}

/// Whether `p` occurs in `s`.
pub fn str_contains(s: &str, p: &str) -> (r: bool)
    ensures
        r == (find_first(s@, p@) is Some),
{
    find_chars(chars_of(s).as_slice(), chars_of(p).as_slice()).is_some()
}

/// How many requests a client may make per minute on `path`: none counted for the admin
/// API, health and metrics; 30 for authentication routes; 200 otherwise.
pub open spec fn spec_rate_limit_allowance(path: Seq<char>) -> Option<usize> {
    if starts_with(path, "/v1/admin"@) || starts_with(path, "/admin"@) || path == "/health"@ || path
        == "/metrics"@ {
        None
    } else if starts_with(path, "/v1/auth"@) || starts_with(path, "/auth"@) {
        Some(30)
    } else {
        Some(200)
    }
}

/// How many requests a client may make per minute on `path`, or `None` when it is not
/// rate limited.
pub fn rate_limit_allowance(path: &str) -> (r: Option<usize>)
    ensures
        r == spec_rate_limit_allowance(path@),
{
    if str_starts(path, "/v1/admin") || str_starts(path, "/admin") || str_equal(path, "/health") || str_equal(
        path,
        "/metrics",
    ) {
        None
    } else if str_starts(path, "/v1/auth") || str_starts(path, "/auth") {
        Some(30)
    } else {
        Some(200)
    }
}

/// A file of the bundled dashboard.
#[derive(Debug, Clone, Copy, PartialEq, Eq, Structural)]
pub enum StaticAsset {
    /// The dashboard page.
    Page,
    /// The dashboard's style sheet.
    Stylesheet,
    /// The dashboard's script.
    Script,
}

/// Whether `path` belongs to the API rather than to the dashboard's client-side routes.
pub open spec fn is_api_path(path: Seq<char>) -> bool {
    ||| starts_with(path, "/v1/"@)
    ||| starts_with(path, "/rest/"@)
    ||| starts_with(path, "/graphql"@)
    ||| starts_with(path, "/auth/"@)
    ||| starts_with(path, "/storage/"@)
    ||| starts_with(path, "/functions/"@)
    ||| starts_with(path, "/realtime/"@)
    ||| starts_with(path, "/assets/"@)
    ||| path == "/health"@
    ||| path == "/healthz"@
    ||| path == "/readyz"@
    ||| path == "/livez"@
    ||| path == "/metrics"@
    ||| path == "/.well-known/jwks.json"@
}

/// The dashboard file a `GET` of `path` serves: the page at `/` and `/dashboard`, the
/// style sheet and script by their names, and the page again for any path that is not the
/// API's; nothing for other methods.
pub open spec fn spec_static_asset(method: Seq<char>, path: Seq<char>) -> Option<StaticAsset> {
    if method != "GET"@ {
        None
    } else if path == "/"@ || path == "/dashboard"@ {
        Some(StaticAsset::Page)
    } else if ends_with(path, ".css"@) || find_first(path, "index-CsT9bNzu.css"@) is Some {
        Some(StaticAsset::Stylesheet)
    } else if ends_with(path, ".js"@) || find_first(path, "index-D-C9egtQ.js"@) is Some {
        Some(StaticAsset::Script)
    } else if !is_api_path(path) {
        Some(StaticAsset::Page)
    } else {
        None
    }
}

/// The dashboard file a request serves, if any.
pub fn static_asset(method: &str, path: &str) -> (r: Option<StaticAsset>)
    ensures
        r == spec_static_asset(method@, path@),
{
    if !str_equal(method, "GET") {
        return None;
    }
    if str_equal(path, "/") || str_equal(path, "/dashboard") {
        return Some(StaticAsset::Page);
    }
    if str_ends(path, ".css") || str_contains(path, "index-CsT9bNzu.css") {
        return Some(StaticAsset::Stylesheet);
    }
    if str_ends(path, ".js") || str_contains(path, "index-D-C9egtQ.js") {
        return Some(StaticAsset::Script);
    }
    let api = str_starts(path, "/v1/") || str_starts(path, "/rest/") || str_starts(path, "/graphql") || str_starts(
        path,
        "/auth/",
    ) || str_starts(path, "/storage/") || str_starts(path, "/functions/") || str_starts(path, "/realtime/")
        || str_starts(path, "/assets/") || str_equal(path, "/health") || str_equal(path, "/healthz") || str_equal(
        path,
        "/readyz",
    ) || str_equal(path, "/livez") || str_equal(path, "/metrics") || str_equal(path, "/.well-known/jwks.json");
    if !api {
        Some(StaticAsset::Page)
    } else {
        None
    }
}

/// The channel an event stream asks for: the value of the last `channel=` pair of the
/// query, or `general`.
pub open spec fn stream_channel_of(pairs: Seq<Seq<char>>) -> Seq<char>
    decreases pairs.len(),
{
    if pairs.len() == 0 {
        "general"@
    } else {
        match split_once(pairs.last(), '=') {
            Some((k, v)) => if k == "channel"@ {
                v
            } else {
                stream_channel_of(pairs.drop_last())
            },
            None => stream_channel_of(pairs.drop_last()),
        }
    }
}

/// The channel an event stream with query string `query` asks for.
pub fn stream_channel(query: &str) -> (r: String)
    ensures
        r@ == stream_channel_of(split_at_char(query@, '&')),
{
    let pairs = split_char(chars_of(query).as_slice(), '&');
    let ghost ps = split_at_char(query@, '&');
    let mut i: usize = pairs.len();
    assert(ps.take(ps.len() as int) =~= ps);
    while i > 0
        invariant
            i <= pairs@.len(),
            ps == split_at_char(query@, '&'),
            pairs@.len() == ps.len(),
            forall|j: int| 0 <= j < pairs@.len() ==> #[trigger] pairs@[j]@ == ps[j],
            stream_channel_of(ps) == stream_channel_of(ps.take(i as int)),
        decreases i,
    {
        let j = i - 1;
        assert(ps.take(i as int).drop_last() =~= ps.take(j as int));
        assert(ps.take(i as int).last() == pairs@[j as int]@);
        if let Some((k, v)) = split_once_char(pairs[j].as_slice(), '=') {
            if str_equal(string_of(k.as_slice()).as_str(), "channel") {
                proof {
                    reveal_strlit("channel");
                    assert(split_once(ps.take(i as int).last(), '=') == Some((k@, v@)));
                    assert(stream_channel_of(ps.take(i as int)) == v@);
                }
                return string_of(v.as_slice());
            }
        }
        i = j;
    }
    assert(ps.take(0) =~= Seq::<Seq<char>>::empty());
    proof {
        reveal_strlit("general");
    }
    String::from_str("general")
}

/// Whether a stream on `channel` is refused: private channels need a signed-in user or
/// the service role.
pub open spec fn spec_stream_refused(channel: Seq<char>, authenticated: bool, is_admin: bool) -> bool {
    starts_with(channel, "private:"@) && !authenticated && !is_admin
}

/// Whether a stream on `channel` is refused to the caller.
pub fn stream_refused(channel: &str, authenticated: bool, is_admin: bool) -> (r: bool)
    ensures
        r == spec_stream_refused(channel@, authenticated, is_admin),
{
    str_starts(channel, "private:") && !authenticated && !is_admin
}


/// The handler a request goes to once it is past rate limiting, sockets and the dashboard.
#[derive(Debug)]
pub enum ApiRoute {
    /// Object storage (`/storage/`, `/v1/storage/`, `/s3/`; image rendering shares its prefix).
    Storage,
    ListTables,
    TableSchema(String),
    DbMetrics,
    AdminDump,
    AdminRestore,
    AdminPitrRestore,
    AdminAuditLogs,
    AdminMigrationRollback,
    AdminReplicas,
    AdminReplica(String),
    AdminFdwServers,
    AdminFdwTables,
    AdminFdwTable(String),
    FdwScan(String),
    Sql,
    AuthSignup,
    AuthToken,
    AuthRefresh,
    AuthLogout,
    AuthUser,
    OauthAuthorize,
    OauthCallback,
    Functions,
    Realtime,
    Webhooks,
    Graphql,
    Health,
    Metrics,
    Jwks,
    OpenApi,
    AdminOrganizations,
    AdminProjects,
    AdminProject(String),
    BillingWebhook,
    Relationships,
    Branches,
    Rpc(String),
    RestTable(String),
    NotFound,
}

/// The abstract content of a route: its kind and the name it carries (empty when none).
pub open spec fn route_view(r: ApiRoute) -> (int, Seq<char>) {
    match r {
        ApiRoute::Storage => (0, Seq::empty()),
        ApiRoute::ListTables => (1, Seq::empty()),
        ApiRoute::TableSchema(n) => (2, n@),
        ApiRoute::DbMetrics => (3, Seq::empty()),
        ApiRoute::AdminDump => (4, Seq::empty()),
        ApiRoute::AdminRestore => (5, Seq::empty()),
        ApiRoute::AdminPitrRestore => (6, Seq::empty()),
        ApiRoute::AdminAuditLogs => (7, Seq::empty()),
        ApiRoute::AdminMigrationRollback => (8, Seq::empty()),
        ApiRoute::AdminReplicas => (9, Seq::empty()),
        ApiRoute::AdminReplica(n) => (10, n@),
        ApiRoute::AdminFdwServers => (11, Seq::empty()),
        ApiRoute::AdminFdwTables => (12, Seq::empty()),
        ApiRoute::AdminFdwTable(n) => (13, n@),
        ApiRoute::FdwScan(n) => (14, n@),
        ApiRoute::Sql => (15, Seq::empty()),
        ApiRoute::AuthSignup => (16, Seq::empty()),
        ApiRoute::AuthToken => (17, Seq::empty()),
        ApiRoute::AuthRefresh => (18, Seq::empty()),
        ApiRoute::AuthLogout => (19, Seq::empty()),
        ApiRoute::AuthUser => (20, Seq::empty()),
        ApiRoute::OauthAuthorize => (21, Seq::empty()),
        ApiRoute::OauthCallback => (22, Seq::empty()),
        ApiRoute::Functions => (23, Seq::empty()),
        ApiRoute::Realtime => (24, Seq::empty()),
        ApiRoute::Webhooks => (25, Seq::empty()),
        ApiRoute::Graphql => (26, Seq::empty()),
        ApiRoute::Health => (27, Seq::empty()),
        ApiRoute::Metrics => (28, Seq::empty()),
        ApiRoute::Jwks => (29, Seq::empty()),
        ApiRoute::OpenApi => (30, Seq::empty()),
        ApiRoute::AdminOrganizations => (31, Seq::empty()),
        ApiRoute::AdminProjects => (32, Seq::empty()),
        ApiRoute::AdminProject(n) => (33, n@),
        ApiRoute::BillingWebhook => (34, Seq::empty()),
        ApiRoute::Relationships => (35, Seq::empty()),
        ApiRoute::Branches => (36, Seq::empty()),
        ApiRoute::Rpc(n) => (37, n@),
        ApiRoute::RestTable(n) => (38, n@),
        ApiRoute::NotFound => (39, Seq::empty()),
    }
}

/// `path` without the first of two prefixes it has.
pub open spec fn strip_either(path: Seq<char>, a: Seq<char>, b: Seq<char>) -> Option<Seq<char>> {
    match strip_prefix(path, a) {
        Some(r) => Some(r),
        None => strip_prefix(path, b),
    }
}

/// The route of a request, tried in order: storage; the table catalogue and metrics; the
/// admin API (dump, restore, point-in-time restore, audit logs, migration rollback,
/// replicas, foreign servers and tables); foreign scans; SQL; authentication; functions,
/// realtime, webhooks and GraphQL; health, metrics and keys; the OpenAPI description;
/// organizations, projects and billing; relationships; branches; remote procedures; and
/// REST tables; anything else is not found.
pub open spec fn spec_api_route(m: Seq<char>, p: Seq<char>) -> (int, Seq<char>) {
    let e = Seq::<char>::empty();
    if starts_with(p, "/storage/"@) || starts_with(p, "/v1/storage/"@) || starts_with(p, "/s3/"@) {
        (0, e)
    } else if m == "GET"@ && p == "/v1/tables"@ {
        (1, e)
    } else if m == "GET"@ && strip_prefix(p, "/v1/tables/"@) is Some {
        (2, strip_prefix(p, "/v1/tables/"@).unwrap())
    } else if m == "GET"@ && p == "/v1/metrics"@ {
        (3, e)
    } else if m == "GET"@ && p == "/v1/admin/dump"@ {
        (4, e)
    } else if m == "POST"@ && p == "/v1/admin/restore"@ {
        (5, e)
    } else if m == "POST"@ && p == "/v1/admin/pitr/restore"@ {
        (6, e)
    } else if m == "GET"@ && p == "/v1/admin/audit-logs"@ {
        (7, e)
    } else if m == "POST"@ && p == "/v1/admin/migrations/rollback"@ {
        (8, e)
    } else if p == "/v1/admin/replicas"@ || p == "/admin/replicas"@ {
        (9, e)
    } else if strip_either(p, "/v1/admin/replicas/"@, "/admin/replicas/"@) is Some {
        (10, strip_either(p, "/v1/admin/replicas/"@, "/admin/replicas/"@).unwrap())
    } else if p == "/v1/admin/fdw/servers"@ || p == "/admin/fdw/servers"@ {
        (11, e)
    } else if p == "/v1/admin/fdw/tables"@ || p == "/admin/fdw/tables"@ {
        (12, e)
    } else if strip_either(p, "/v1/admin/fdw/tables/"@, "/admin/fdw/tables/"@) is Some {
        (13, strip_either(p, "/v1/admin/fdw/tables/"@, "/admin/fdw/tables/"@).unwrap())
    } else if strip_either(p, "/v1/fdw/"@, "/fdw/"@) is Some {
        (14, strip_either(p, "/v1/fdw/"@, "/fdw/"@).unwrap())
    } else if m == "POST"@ && (p == "/v1/sql"@ || p == "/sql"@) {
        (15, e)
    } else if m == "POST"@ && (p == "/v1/auth/signup"@ || p == "/auth/v1/signup"@) {
        (16, e)
    } else if m == "POST"@ && (p == "/v1/auth/token"@ || p == "/auth/v1/token"@) {
        (17, e)
    } else if m == "POST"@ && (p == "/v1/auth/refresh"@ || p == "/auth/v1/refresh"@ || p == "/auth/v1/token/refresh"@) {
        (18, e)
    } else if m == "POST"@ && (p == "/v1/auth/logout"@ || p == "/auth/v1/logout"@) {
        (19, e)
    } else if m == "GET"@ && (p == "/v1/auth/user"@ || p == "/auth/v1/user"@) {
        (20, e)
    } else if (m == "POST"@ || m == "GET"@) && (p == "/v1/auth/oauth/authorize"@ || p == "/auth/v1/authorize"@) {
        (21, e)
    } else if m == "POST"@ && (p == "/v1/auth/oauth/callback"@ || p == "/auth/v1/callback"@) {
        (22, e)
    } else if starts_with(p, "/functions/v1"@) || starts_with(p, "/v1/functions/v1"@) {
        (23, e)
    } else if starts_with(p, "/realtime/v1"@) || starts_with(p, "/v1/realtime/v1"@) {
        (24, e)
    } else if starts_with(p, "/v1/webhooks"@) || starts_with(p, "/admin/webhooks"@) {
        (25, e)
    } else if m == "POST"@ && (p == "/v1/graphql"@ || p == "/graphql"@) {
        (26, e)
    } else if m == "GET"@ && (p == "/health"@ || p == "/healthz"@ || p == "/readyz"@ || p == "/livez"@) {
        (27, e)
    } else if m == "GET"@ && p == "/metrics"@ {
        (28, e)
    } else if m == "GET"@ && (p == "/.well-known/jwks.json"@ || p == "/v1/auth/keys"@) {
        (29, e)
    } else if m == "GET"@ && (p == "/v1/openapi.json"@ || p == "/rest/v1"@ || p == "/rest/v1/"@) {
        (30, e)
    } else if p == "/v1/admin/organizations"@ {
        (31, e)
    } else if p == "/v1/admin/projects"@ {
        (32, e)
    } else if strip_prefix(p, "/v1/admin/projects/"@) is Some {
        (33, strip_prefix(p, "/v1/admin/projects/"@).unwrap())
    } else if m == "POST"@ && p == "/v1/admin/billing/webhook"@ {
        (34, e)
    } else if m == "GET"@ && p == "/v1/schema/relationships"@ {
        (35, e)
    } else if starts_with(p, "/v1/branches"@) || starts_with(p, "/admin/branches"@) {
        (36, e)
    } else if strip_either(p, "/rest/v1/rpc/"@, "/v1/rpc/"@) is Some {
        (37, strip_either(p, "/rest/v1/rpc/"@, "/v1/rpc/"@).unwrap())
    } else if strip_prefix(p, "/rpc/"@) is Some {
        (37, strip_prefix(p, "/rpc/"@).unwrap())
    } else if strip_either(p, "/rest/v1/"@, "/v1/rest/"@) is Some {
        (38, strip_either(p, "/rest/v1/"@, "/v1/rest/"@).unwrap())
    } else {
        (39, e)
    }
}

pub(crate) fn strip_either_chars(p: &[char], a: &str, b: &str) -> (r: Option<String>)
    ensures
        match strip_either(p@, a@, b@) {
            Some(t) => r matches Some(x) && x@ == t,
            None => r is None,
        },
{
    match strip_prefix_chars(p, a) {
        Some(t) => Some(string_of(t.as_slice())),
        None => match strip_prefix_chars(p, b) {
            Some(t) => Some(string_of(t.as_slice())),
            None => None,
        },
    }
}

/// The route of a request with `method` on `path`.
pub fn api_route(method: &str, path: &str) -> (r: ApiRoute)
    ensures
        route_view(r) == spec_api_route(method@, path@),
{
    let pc = chars_of(path);
    let p = pc.as_slice();
    let get = str_equal(method, "GET");
    let post = str_equal(method, "POST");
    if str_starts(path, "/storage/") || str_starts(path, "/v1/storage/") || str_starts(path, "/s3/") {
        return ApiRoute::Storage;
    }
    if get && str_equal(path, "/v1/tables") {
        return ApiRoute::ListTables;
    }
    if get {
        if let Some(n) = strip_prefix_chars(p, "/v1/tables/") {
            return ApiRoute::TableSchema(string_of(n.as_slice()));
        }
    }
    if get && str_equal(path, "/v1/metrics") {
        return ApiRoute::DbMetrics;
    }
    if get && str_equal(path, "/v1/admin/dump") {
        return ApiRoute::AdminDump;
    }
    if post && str_equal(path, "/v1/admin/restore") {
        return ApiRoute::AdminRestore;
    }
    if post && str_equal(path, "/v1/admin/pitr/restore") {
        return ApiRoute::AdminPitrRestore;
    }
    if get && str_equal(path, "/v1/admin/audit-logs") {
        return ApiRoute::AdminAuditLogs;
    }
    if post && str_equal(path, "/v1/admin/migrations/rollback") {
        return ApiRoute::AdminMigrationRollback;
    }
    if str_equal(path, "/v1/admin/replicas") || str_equal(path, "/admin/replicas") {
        return ApiRoute::AdminReplicas;
    }
    if let Some(n) = strip_either_chars(p, "/v1/admin/replicas/", "/admin/replicas/") {
        return ApiRoute::AdminReplica(n);
    }
    if str_equal(path, "/v1/admin/fdw/servers") || str_equal(path, "/admin/fdw/servers") {
        return ApiRoute::AdminFdwServers;
    }
    if str_equal(path, "/v1/admin/fdw/tables") || str_equal(path, "/admin/fdw/tables") {
        return ApiRoute::AdminFdwTables;
    }
    if let Some(n) = strip_either_chars(p, "/v1/admin/fdw/tables/", "/admin/fdw/tables/") {
        return ApiRoute::AdminFdwTable(n);
    }
    if let Some(n) = strip_either_chars(p, "/v1/fdw/", "/fdw/") {
        return ApiRoute::FdwScan(n);
    }
    if post && (str_equal(path, "/v1/sql") || str_equal(path, "/sql")) {
        return ApiRoute::Sql;
    }
    if post && (str_equal(path, "/v1/auth/signup") || str_equal(path, "/auth/v1/signup")) {
        return ApiRoute::AuthSignup;
    }
    if post && (str_equal(path, "/v1/auth/token") || str_equal(path, "/auth/v1/token")) {
        return ApiRoute::AuthToken;
    }
    if post && (str_equal(path, "/v1/auth/refresh") || str_equal(path, "/auth/v1/refresh") || str_equal(
        path,
        "/auth/v1/token/refresh",
    )) {
        return ApiRoute::AuthRefresh;
    }
    if post && (str_equal(path, "/v1/auth/logout") || str_equal(path, "/auth/v1/logout")) {
        return ApiRoute::AuthLogout;
    }
    if get && (str_equal(path, "/v1/auth/user") || str_equal(path, "/auth/v1/user")) {
        return ApiRoute::AuthUser;
    }
    if (post || get) && (str_equal(path, "/v1/auth/oauth/authorize") || str_equal(path, "/auth/v1/authorize")) {
        return ApiRoute::OauthAuthorize;
    }
    if post && (str_equal(path, "/v1/auth/oauth/callback") || str_equal(path, "/auth/v1/callback")) {
        return ApiRoute::OauthCallback;
    }
    if str_starts(path, "/functions/v1") || str_starts(path, "/v1/functions/v1") {
        return ApiRoute::Functions;
    }
    if str_starts(path, "/realtime/v1") || str_starts(path, "/v1/realtime/v1") {
        return ApiRoute::Realtime;
    }
    if str_starts(path, "/v1/webhooks") || str_starts(path, "/admin/webhooks") {
        return ApiRoute::Webhooks;
    }
    if post && (str_equal(path, "/v1/graphql") || str_equal(path, "/graphql")) {
        return ApiRoute::Graphql;
    }
    if get && (str_equal(path, "/health") || str_equal(path, "/healthz") || str_equal(path, "/readyz")
        || str_equal(path, "/livez")) {
        return ApiRoute::Health;
    }
    if get && str_equal(path, "/metrics") {
        return ApiRoute::Metrics;
    }
    if get && (str_equal(path, "/.well-known/jwks.json") || str_equal(path, "/v1/auth/keys")) {
        return ApiRoute::Jwks;
    }
    if get && (str_equal(path, "/v1/openapi.json") || str_equal(path, "/rest/v1") || str_equal(path, "/rest/v1/")) {
        return ApiRoute::OpenApi;
    }
    if str_equal(path, "/v1/admin/organizations") {
        return ApiRoute::AdminOrganizations;
    }
    if str_equal(path, "/v1/admin/projects") {
        return ApiRoute::AdminProjects;
    }
    if let Some(n) = strip_prefix_chars(p, "/v1/admin/projects/") {
        return ApiRoute::AdminProject(string_of(n.as_slice()));
    }
    if post && str_equal(path, "/v1/admin/billing/webhook") {
        return ApiRoute::BillingWebhook;
    }
    if get && str_equal(path, "/v1/schema/relationships") {
        return ApiRoute::Relationships;
    }
    if str_starts(path, "/v1/branches") || str_starts(path, "/admin/branches") {
        return ApiRoute::Branches;
    }
    if let Some(n) = strip_either_chars(p, "/rest/v1/rpc/", "/v1/rpc/") {
        return ApiRoute::Rpc(n);
    }
    if let Some(n) = strip_prefix_chars(p, "/rpc/") {
        return ApiRoute::Rpc(string_of(n.as_slice()));
    }
    if let Some(n) = strip_either_chars(p, "/rest/v1/", "/v1/rest/") {
        return ApiRoute::RestTable(n);
    }
    ApiRoute::NotFound
}

} // verus!
