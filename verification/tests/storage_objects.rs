use chocobase::http::storage::{byte_range, bytes_content_range, object_etag};

#[test]
fn byte_ranges_of_objects() {
    assert_eq!(byte_range(None, 10), None);
    assert_eq!(byte_range(Some("items=0-1"), 10), None);
    assert_eq!(byte_range(Some("bytes=2-5"), 10), Some((2, 5)));
    assert_eq!(byte_range(Some("bytes=2-"), 10), Some((2, 9)));
    assert_eq!(byte_range(Some("bytes=2-99"), 10), Some((2, 9)));
    assert_eq!(byte_range(Some("bytes=x-3"), 10), Some((0, 3)));
    assert_eq!(byte_range(Some("bytes=5-2"), 10), None);
    assert_eq!(byte_range(Some("bytes=10-"), 10), None);
    assert_eq!(byte_range(Some("bytes=0-0"), 0), None);
    assert_eq!(bytes_content_range(2, 5, 10), "bytes 2-5/10");
}

#[test]
fn etags_are_quoted_sha256_hex() {
    assert_eq!(
        object_etag(b"abc"),
        "\"ba7816bf8f01cfea414140de5dae2223b00361a396177a9cb410ff61f20015ad\""
    );
}

#[test]
fn statement_statistics_keys() {
    use_statement_helpers();
}

fn use_statement_helpers() {
    let n = chocobase::extensions::normalize_statement("  SELECT 1 \n");
    assert_eq!(n, "select 1");
    assert_eq!(chocobase::extensions::statement_query_id(&n), 9379556002627786123u64);
}
