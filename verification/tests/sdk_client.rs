use chocobase::create_client;
use chocobase::sdk::postgrest::QueryParams;

#[test]
fn test_rust_client_initialization() {
    let client = create_client("http://localhost:8080", "anon-key-123");
    assert_eq!(client.base_url, "http://localhost:8080");
    assert_eq!(client.api_key, "anon-key-123");

    let query = client.from("profiles").select("id, name").eq("role", "member").limit(10);
    assert_eq!(query.params.get("select").unwrap(), "id, name");
    assert_eq!(query.params.get("role").unwrap(), "eq.member");
    assert_eq!(query.params.get("limit").unwrap(), "10");

    let signed_url = client.storage.from("avatars").create_signed_url("user.png", 3600);
    assert!(signed_url.contains("/sign/user.png?expires_in=3600"));
}

#[test]
fn client_urls_for_each_service() {
    let client = create_client("https://example.com//", "k");
    assert_eq!(client.base_url, "https://example.com");
    assert_eq!(client.auth.base_url, "https://example.com/v1/auth");
    assert_eq!(client.functions.base_url, "https://example.com/v1/functions");
    assert_eq!(client.storage.base_url, "https://example.com/v1/storage/v1");
    assert_eq!(client.realtime.base_url, "wss://example.com/v1/realtime");
    let plain = create_client("http://h:1", "k");
    assert_eq!(plain.realtime.base_url, "ws://h:1/v1/realtime");
    let other = create_client("ftp://h", "k");
    assert_eq!(other.realtime.base_url, "ftp://h/v1/realtime");
    let q = client.table("t");
    assert_eq!(q.base_url, "https://example.com/rest/v1/t");
    assert_eq!(q.table, "t");
}

#[test]
fn query_params_replace_earlier_values() {
    let client = create_client("http://h", "k");
    let q = client
        .from("t")
        .eq("a", "1")
        .neq("b", "2")
        .gt("c", "3")
        .lt("d", "4")
        .eq("a", "5");
    assert_eq!(q.params.get("a").unwrap(), "eq.5");
    assert_eq!(q.params.get("b").unwrap(), "neq.2");
    assert_eq!(q.params.get("c").unwrap(), "gt.3");
    assert_eq!(q.params.get("d").unwrap(), "lt.4");
    assert!(q.params.get("e").is_none());
    let mut p = QueryParams::new();
    assert!(p.get("x").is_none());
    p.insert("x".to_string(), "1".to_string());
    p.insert("x".to_string(), "2".to_string());
    assert_eq!(p.get("x").unwrap(), "2");
}

#[test]
fn auth_responses_carry_email() {
    let client = create_client("http://h", "k");
    let r = client.auth.sign_up("a@b.c", "pw");
    assert_eq!(r.user.as_ref().unwrap().email, "a@b.c");
    assert_eq!(r.user.unwrap().id, "usr_rust_client");
    assert_eq!(r.session.unwrap().access_token, "mock_jwt_token");
    assert!(r.error.is_none());
    let s = client.auth.sign_in_with_password("x@y.z", "pw");
    assert_eq!(s.session.unwrap().refresh_token, "rt_mock_refresh_token");
}

#[test]
fn realtime_channel_keeps_topic() {
    let client = create_client("http://h", "k");
    let ch = client.realtime.channel("public:t");
    assert_eq!(ch.on("INSERT").subscribe().topic, "public:t");
}

#[test]
fn signed_url_is_exact() {
    let client = create_client("http://h", "k");
    let b = client.storage.from("bk");
    assert_eq!(b.bucket, "bk");
    assert_eq!(
        b.create_signed_url("p/q.txt", 0),
        "http://h/v1/storage/v1/object/bk/sign/p/q.txt?expires_in=0"
    );
}
