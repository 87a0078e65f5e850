use chocobase::http::storage_routes::{
    content_type, storage_route_step, BodyField, Stage, StorageCall, StorageEvent, StorageRouteAction, StorageRouteState,
};
use chocobase::types::value::Value;

fn idle() -> StorageRouteState {
    StorageRouteState {
        stage: Stage::Idle,
        method: String::new(),
        bucket: String::new(),
        key: String::new(),
        user: None,
        admin: false,
        signed_ok: false,
        public: false,
        body: Vec::new(),
        range: None,
        now: 0,
        status: 0,
        answer: String::new(),
        sql: String::new(),
        content_type: String::new(),
        expires_in: 0,
        secret: Vec::new(),
        name: String::new(),
        total: 0,
    }
}

fn call(method: &str, path: &str) -> StorageCall {
    StorageCall {
        method: method.into(),
        path: path.into(),
        query: String::new(),
        body: Vec::new(),
        payload: Some(Vec::new()),
        range: None,
        user_id: None,
        is_admin: false,
        now: 1000,
        secret: b"secret".to_vec(),
        pid: 7,
    }
}

fn text(key: &str, v: &str) -> BodyField {
    BodyField { key: key.into(), text: Some(v.into()), flag: None, unsigned: None, signed: None }
}

fn flag(key: &str, v: bool) -> BodyField {
    BodyField { key: key.into(), text: None, flag: Some(v), unsigned: None, signed: None }
}

fn answer_of(a: StorageRouteAction) -> (u16, String) {
    match a {
        StorageRouteAction::Answer { status, body } => (status, body),
        other => panic!("unexpected {other:?}"),
    }
}

fn sql_of(a: &StorageRouteAction) -> String {
    match a {
        StorageRouteAction::Sql { text, .. } => text.clone(),
        other => panic!("unexpected {other:?}"),
    }
}

#[test]
fn creating_a_bucket_records_it_and_makes_its_directory() {
    let mut c = call("POST", "/v1/storage/v1/bucket");
    c.payload = Some(vec![text("name", "av'atars"), flag("public", true)]);
    let (st, act) = storage_route_step(&idle(), StorageEvent::Request(c));
    assert_eq!(
        sql_of(&act),
        "INSERT INTO _storage_buckets (id, name, public, created_at) VALUES ('av'atars', 'av''atars', TRUE, 1000)"
    );
    let (st, act) = storage_route_step(&st, StorageEvent::Rows(Ok(vec![])));
    assert!(matches!(act, StorageRouteAction::MakeDir { ref bucket } if bucket == "av'atars"));
    let (st, act) = storage_route_step(&st, StorageEvent::FileDone);
    assert_eq!(answer_of(act), (201, "{\"message\":\"bucket created successfully\",\"name\":\"av'atars\"}".to_string()));
    assert_eq!(st.stage, Stage::Done);
}

#[test]
fn bucket_requests_are_refused_on_bad_bodies_and_errors() {
    let mut c = call("POST", "/bucket");
    c.payload = None;
    assert_eq!(answer_of(storage_route_step(&idle(), StorageEvent::Request(c)).1), (400, "{\"error\":\"invalid JSON body\"}".to_string()));
    let c = call("POST", "/bucket/");
    assert_eq!(answer_of(storage_route_step(&idle(), StorageEvent::Request(c)).1), (400, "{\"error\":\"missing bucket id/name\"}".to_string()));
    let mut c = call("POST", "/bucket");
    c.payload = Some(vec![text("id", "b")]);
    let (st, _) = storage_route_step(&idle(), StorageEvent::Request(c));
    let (_, act) = storage_route_step(&st, StorageEvent::Rows(Err("table exists".into())));
    assert_eq!(answer_of(act), (400, "{\"error\":\"table exists\"}".to_string()));
    assert_eq!(answer_of(storage_route_step(&idle(), StorageEvent::Request(call("PUT", "/bucket"))).1).0, 405);
}

#[test]
fn buckets_are_listed_fetched_and_deleted() {
    let (st, act) = storage_route_step(&idle(), StorageEvent::Request(call("GET", "/v1/storage/v1/bucket")));
    assert_eq!(sql_of(&act), "SELECT id, name, public, created_at FROM _storage_buckets ORDER BY created_at ASC");
    let row = vec![Value::Text("a".into()), Value::Text("A".into()), Value::Boolean(true), Value::Integer(5)];
    let (_, act) = storage_route_step(&st, StorageEvent::Rows(Ok(vec![row.clone()])));
    assert_eq!(answer_of(act), (200, "[{\"created_at\":5,\"id\":\"a\",\"name\":\"A\",\"public\":true}]".to_string()));
    let (st, act) = storage_route_step(&idle(), StorageEvent::Request(call("GET", "/bucket/a")));
    assert_eq!(sql_of(&act), "SELECT id, name, public, created_at FROM _storage_buckets WHERE id = 'a'");
    let (_, act) = storage_route_step(&st, StorageEvent::Rows(Ok(vec![])));
    assert_eq!(answer_of(act), (404, "{\"error\":\"bucket not found\"}".to_string()));
    let (st, _) = storage_route_step(&idle(), StorageEvent::Request(call("DELETE", "/bucket/a")));
    let (st, act) = storage_route_step(&st, StorageEvent::Rows(Ok(vec![])));
    assert!(matches!(act, StorageRouteAction::RemoveDir { ref bucket } if bucket == "a"));
    assert_eq!(answer_of(storage_route_step(&st, StorageEvent::FileDone).1), (200, "{\"message\":\"bucket deleted\"}".to_string()));
}

#[test]
fn an_s3_upload_writes_the_file_then_records_it() {
    let mut c = call("PUT", "/s3/pics/../a/b.png");
    c.body = b"hello".to_vec();
    let (st, act) = storage_route_step(&idle(), StorageEvent::Request(c));
    match &act {
        StorageRouteAction::WriteFile { bucket, key, bytes } => {
            assert_eq!((bucket.as_str(), key.as_str(), bytes.as_slice()), ("pics", "a/b.png", &b"hello"[..]));
        }
        other => panic!("unexpected {other:?}"),
    }
    let (st, act) = storage_route_step(&st, StorageEvent::FileWritten(true));
    assert_eq!(
        sql_of(&act),
        "INSERT INTO _storage_objects (id, bucket_id, name, owner_id, content_type, size_bytes, metadata, created_at, updated_at) VALUES ('pics/a/b.png', 'pics', 'a/b.png', NULL, 'application/octet-stream', 5, '{}', 1000, 1000)"
    );
    let (status, body) = answer_of(storage_route_step(&st, StorageEvent::Rows(Ok(vec![]))).1);
    assert_eq!(status, 200);
    assert_eq!(
        body,
        "{\"Bucket\":\"pics\",\"ETag\":\"\\\"2cf24dba5fb0a30e26e83b2ac5b9e29e1b161e5c1fa7425e73043362938b9824\\\"\",\"Key\":\"a/b.png\"}"
    );
    let (_, act) = storage_route_step(&idle(), StorageEvent::Request(call("PUT", "/s3/x/y")));
    let (_, act) = storage_route_step(&{
        let (st, _) = storage_route_step(&idle(), StorageEvent::Request(call("PUT", "/s3/x/y")));
        st
    }, StorageEvent::FileWritten(false));
    assert_eq!(answer_of(act), (500, "{\"error\":\"failed to write object\"}".to_string()));
}

#[test]
fn an_s3_download_serves_the_asked_range() {
    let mut c = call("GET", "/v1/storage/s3/b/k");
    c.range = Some("bytes=1-3".into());
    let (st, act) = storage_route_step(&idle(), StorageEvent::Request(c));
    assert!(matches!(act, StorageRouteAction::ReadFile { .. }));
    match storage_route_step(&st, StorageEvent::FileRead(Some(b"abcdef".to_vec()))).1 {
        StorageRouteAction::Serve { status, bytes, content_type, content_range, .. } => {
            assert_eq!((status, bytes.as_slice(), content_type.as_str()), (206, &b"bcd"[..], "application/octet-stream"));
            assert_eq!(content_range.as_deref(), Some("bytes 1-3/6"));
        }
        other => panic!("unexpected {other:?}"),
    }
    let (st, _) = storage_route_step(&idle(), StorageEvent::Request(call("GET", "/s3/b/k")));
    assert_eq!(answer_of(storage_route_step(&st, StorageEvent::FileRead(None)).1), (404, "{\"error\":\"NoSuchKey\"}".to_string()));
}

#[test]
fn an_s3_bucket_listing_counts_its_objects() {
    let (st, act) = storage_route_step(&idle(), StorageEvent::Request(call("GET", "/s3/pics")));
    assert_eq!(sql_of(&act), "SELECT name, size_bytes, created_at FROM _storage_objects WHERE bucket_id = 'pics'");
    let rows = vec![vec![Value::Text("a.txt".into()), Value::Integer(3), Value::Integer(9)]];
    assert_eq!(
        answer_of(storage_route_step(&st, StorageEvent::Rows(Ok(rows))).1),
        (200, "{\"Contents\":[{\"Key\":\"a.txt\",\"LastModified\":9,\"Size\":3}],\"KeyCount\":1,\"Name\":\"pics\"}".to_string())
    );
}

#[test]
fn private_objects_are_refused_to_strangers_and_served_to_owners() {
    let (st, act) = storage_route_step(&idle(), StorageEvent::Request(call("GET", "/object/priv/doc.json")));
    assert_eq!(sql_of(&act), "SELECT public FROM _storage_buckets WHERE id = 'priv'");
    let (st, act) = storage_route_step(&st, StorageEvent::Rows(Ok(vec![vec![Value::Boolean(false)]])));
    assert_eq!(sql_of(&act), "SELECT owner_id FROM _storage_objects WHERE id = 'priv/doc.json'");
    let (_, act) = storage_route_step(&st, StorageEvent::Rows(Ok(vec![vec![Value::Integer(4)]])));
    assert_eq!(answer_of(act), (401, "{\"error\":\"access denied to private object\"}".to_string()));

    let mut c = call("GET", "/object/priv/doc.json");
    c.user_id = Some(4);
    let (st, _) = storage_route_step(&idle(), StorageEvent::Request(c));
    let (st, _) = storage_route_step(&st, StorageEvent::Rows(Ok(vec![vec![Value::Boolean(false)]])));
    let (st, act) = storage_route_step(&st, StorageEvent::Rows(Ok(vec![vec![Value::Integer(4)]])));
    assert!(matches!(act, StorageRouteAction::ReadFile { .. }));
    match storage_route_step(&st, StorageEvent::FileRead(Some(b"{}".to_vec()))).1 {
        StorageRouteAction::Serve { status, content_type, .. } => assert_eq!((status, content_type.as_str()), (200, "application/json")),
        other => panic!("unexpected {other:?}"),
    }
}

#[test]
fn uploads_and_removals_through_the_object_route() {
    let mut c = call("POST", "/v1/storage/v1/object/pub/f.txt");
    c.user_id = Some(2);
    c.body = b"abc".to_vec();
    let (st, _) = storage_route_step(&idle(), StorageEvent::Request(c));
    let (st, _) = storage_route_step(&st, StorageEvent::Rows(Ok(vec![vec![Value::Boolean(true)]])));
    let (st, act) = storage_route_step(&st, StorageEvent::Rows(Ok(vec![])));
    assert!(matches!(act, StorageRouteAction::WriteFile { .. }));
    let (st, act) = storage_route_step(&st, StorageEvent::FileWritten(true));
    assert!(sql_of(&act).contains("VALUES ('pub/f.txt', 'pub', 'f.txt', 2, 'application/octet-stream', 3, '{}', 1000, 1000)"));
    let (status, body) = answer_of(storage_route_step(&st, StorageEvent::Rows(Ok(vec![]))).1);
    assert_eq!(status, 200);
    let digest = "ba7816bf8f01cfea414140de5dae2223b00361a396177a9cb410ff61f20015ad";
    assert_eq!(
        body,
        format!("{{\"Id\":\"pub/f.txt\",\"Key\":\"pub/f.txt\",\"checksum_sha256\":\"{digest}\",\"etag\":\"{digest}\",\"size\":3}}")
    );

    let (st, _) = storage_route_step(&idle(), StorageEvent::Request(call("DELETE", "/object/pub/f.txt")));
    let (st, _) = storage_route_step(&st, StorageEvent::Rows(Ok(vec![vec![Value::Boolean(true)]])));
    let (st, act) = storage_route_step(&st, StorageEvent::Rows(Ok(vec![vec![Value::Null]])));
    assert!(matches!(act, StorageRouteAction::RemoveFile { .. }));
    let (st, act) = storage_route_step(&st, StorageEvent::FileDone);
    assert_eq!(sql_of(&act), "DELETE FROM _storage_objects WHERE id = 'pub/f.txt'");
    assert_eq!(answer_of(storage_route_step(&st, StorageEvent::Rows(Ok(vec![]))).1), (200, "{\"message\":\"object deleted\"}".to_string()));
}

#[test]
fn object_listings_of_private_buckets_are_filtered_to_the_caller() {
    let mut c = call("GET", "/object/list/priv");
    c.user_id = Some(3);
    let (st, _) = storage_route_step(&idle(), StorageEvent::Request(c));
    let (st, act) = storage_route_step(&st, StorageEvent::Rows(Ok(vec![])));
    assert_eq!(
        sql_of(&act),
        "SELECT id, name, owner_id, size_bytes, created_at FROM _storage_objects WHERE bucket_id = 'priv' AND owner_id = 3"
    );
    let rows = vec![vec![Value::Text("priv/a".into()), Value::Text("a".into()), Value::Null, Value::Integer(8), Value::Integer(1)]];
    assert_eq!(
        answer_of(storage_route_step(&st, StorageEvent::Rows(Ok(rows))).1),
        (200, "[{\"created_at\":1,\"id\":\"priv/a\",\"metadata\":{\"size\":8},\"name\":\"a\",\"owner_id\":null}]".to_string())
    );
    let (st, _) = storage_route_step(&idle(), StorageEvent::Request(call("GET", "/object/list/priv")));
    assert_eq!(answer_of(storage_route_step(&st, StorageEvent::Rows(Ok(vec![]))).1).0, 401);
}

#[test]
fn content_types_follow_the_extension() {
    assert_eq!(content_type("a.png"), "image/png");
    assert_eq!(content_type("a.jpeg"), "image/jpeg");
    assert_eq!(content_type("a.jpg"), "image/jpeg");
    assert_eq!(content_type("a.json"), "application/json");
    assert_eq!(content_type("a.txt"), "text/plain");
    assert_eq!(content_type("a.bin"), "application/octet-stream");
}

#[test]
fn signed_links_lifecycle_rules_and_unknown_routes() {
    let mut c = call("POST", "/object/sign/pub/a.txt");
    c.payload = Some(vec![BodyField { key: "expiresIn".into(), text: None, flag: None, unsigned: Some(60), signed: Some(60) }]);
    let (st, _) = storage_route_step(&idle(), StorageEvent::Request(c));
    let (st, _) = storage_route_step(&st, StorageEvent::Rows(Ok(vec![vec![Value::Boolean(true)]])));
    let (status, body) = answer_of(storage_route_step(&st, StorageEvent::Rows(Ok(vec![]))).1);
    assert_eq!(status, 200);
    let token = chocobase::http::storage::sign_download_token("pub", "a.txt", 1060, b"secret");
    assert_eq!(
        body,
        format!("{{\"expiresAt\":1060,\"signedURL\":\"/v1/storage/v1/object/pub/a.txt?token={token}&expires=1060\",\"token\":\"{token}\"}}")
    );
    assert_eq!(
        answer_of(storage_route_step(&idle(), StorageEvent::Request(call("GET", "/bucket/b/lifecycle"))).1),
        (403, "{\"error\":\"admin privileges required for lifecycle rules\"}".to_string())
    );
    let mut c = call("POST", "/bucket/b/lifecycle");
    c.is_admin = true;
    c.payload = Some(vec![text("prefix", "logs/")]);
    let (st, act) = storage_route_step(&idle(), StorageEvent::Request(c));
    assert_eq!(
        sql_of(&act),
        "INSERT INTO _storage_lifecycle_rules (id, bucket_id, prefix, expiry_days, created_at) VALUES ('b_logs/_30', 'b', 'logs/', 30, 1000)"
    );
    assert_eq!(
        answer_of(storage_route_step(&st, StorageEvent::Rows(Ok(vec![]))).1),
        (201, "{\"bucket_id\":\"b\",\"expiry_days\":30,\"id\":\"b_logs/_30\",\"prefix\":\"logs/\"}".to_string())
    );
    assert_eq!(
        answer_of(storage_route_step(&idle(), StorageEvent::Request(call("GET", "/nowhere"))).1),
        (404, "{\"error\":\"storage endpoint not found\"}".to_string())
    );
    assert_eq!(
        answer_of(storage_route_step(&idle(), StorageEvent::Request(call("GET", "/render/image/b/x.png"))).1).0,
        200
    );
}

#[test]
fn a_resumable_upload_is_staged_then_finished() {
    let mut c = call("POST", "/upload/resumable");
    c.payload = Some(vec![
        text("bucket_id", "b"),
        text("object_name", "big.bin"),
        BodyField { key: "total_size".into(), text: None, flag: None, unsigned: Some(4), signed: Some(4) },
    ]);
    let (st, act) = storage_route_step(&idle(), StorageEvent::Request(c));
    assert!(matches!(act, StorageRouteAction::WriteFile { ref bucket, ref key, .. } if bucket == "tmp_resumable" && key == "sess_1000_7"));
    let (st, act) = storage_route_step(&st, StorageEvent::FileWritten(true));
    assert!(sql_of(&act).starts_with("INSERT INTO _storage_resumable_sessions"));
    assert_eq!(
        answer_of(storage_route_step(&st, StorageEvent::Rows(Ok(vec![]))).1),
        (201, "{\"location\":\"/v1/storage/v1/upload/resumable/sess_1000_7\",\"session_id\":\"sess_1000_7\",\"status\":\"created\"}".to_string())
    );

    let session_row = vec![
        Value::Text("sess_1000_7".into()),
        Value::Text("b".into()),
        Value::Text("big.bin".into()),
        Value::Null,
        Value::Text("application/octet-stream".into()),
        Value::Integer(4),
        Value::Integer(0),
    ];
    let mut c = call("PATCH", "/upload/resumable/sess_1000_7");
    c.body = b"ab".to_vec();
    let (st, _) = storage_route_step(&idle(), StorageEvent::Request(c));
    let (st, _) = storage_route_step(&st, StorageEvent::Rows(Ok(vec![session_row.clone()])));
    let (st, act) = storage_route_step(&st, StorageEvent::FileRead(Some(b"xy".to_vec())));
    assert!(matches!(act, StorageRouteAction::WriteFile { ref bytes, .. } if bytes == b"xyab"));
    let (st, act) = storage_route_step(&st, StorageEvent::FileWritten(true));
    assert!(matches!(act, StorageRouteAction::WriteFile { ref bucket, ref key, .. } if bucket == "b" && key == "big.bin"));
    let (st, act) = storage_route_step(&st, StorageEvent::FileWritten(true));
    assert!(matches!(act, StorageRouteAction::RemoveFile { .. }));
    let (st, act) = storage_route_step(&st, StorageEvent::FileDone);
    assert_eq!(sql_of(&act), "DELETE FROM _storage_resumable_sessions WHERE id = 'sess_1000_7'");
    let (st, act) = storage_route_step(&st, StorageEvent::Rows(Ok(vec![])));
    assert!(sql_of(&act).starts_with("INSERT INTO _storage_objects"));
    let (status, body) = answer_of(storage_route_step(&st, StorageEvent::Rows(Ok(vec![]))).1);
    assert_eq!(status, 200);
    assert!(body.contains("\"status\":\"completed\",\"uploaded_offset\":4}"));

    let (st, _) = storage_route_step(&idle(), StorageEvent::Request(call("GET", "/upload/resumable/nope")));
    assert_eq!(
        answer_of(storage_route_step(&st, StorageEvent::Rows(Ok(vec![]))).1),
        (404, "{\"error\":\"upload session not found\"}".to_string())
    );
}
