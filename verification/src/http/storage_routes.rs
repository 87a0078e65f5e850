use vstd::prelude::*;

use crate::crypto::{hex_bytes, push_hex_bytes, sha256, sha256_bytes};
use crate::exec::rows_view;
use crate::http::json_text::{json_bool, json_int, json_str, push_json_int, push_json_str};
use crate::text::{
    char_vecs, escape_quotes, int_decimal, join_with, nat_decimal, push_escaped, push_i64_decimal, push_joined_sep,
    push_str, push_u64_decimal, string_of, chars_of,
};
use crate::http::branches::{strip_prefix, strip_prefix_chars};
use crate::http::dispatch::{strip_either, strip_either_chars};
use crate::http::object_access::{spec_storage_step, storage_step, ObjectMeta, StorageAction, StorageRequest};
use crate::http::storage::{
    byte_range, bytes_content_range, download_token, download_valid, sign_download_token, object_etag, sanitize_object_path, spec_byte_range,
    spec_bytes_content_range, spec_etag, spec_sanitize, verify_download_signature_at,
};
use crate::text::{
    chars_ends_with, ends_with, split_at_char, split_char, split_once, split_once_char, spec_parse_u64, parse_u64,
    starts_with, str_equal, trim_start_all, trim_start_matches, spec_trim, trim_chars,
};
use crate::types::value::{row_view, Value, ValueView};

verus! {

// ---------------------------------------------------------------------------------------
// SQL statements on the storage tables
// ---------------------------------------------------------------------------------------

/// An SQL string literal with quotes doubled.
pub open spec fn quoted(s: Seq<char>) -> Seq<char> {
    "'"@ + escape_quotes(s) + "'"@
}

/// An SQL string literal taken as it is (bucket names are sanitized paths).
pub open spec fn quoted_raw(s: Seq<char>) -> Seq<char> {
    "'"@ + s + "'"@
}

/// The owner column of a new object: the caller's id, or `NULL`.
pub open spec fn owner_literal(owner: Option<i64>) -> Seq<char> {
    match owner {
        Some(u) => int_decimal(u as int),
        None => "NULL"@,
    }
}

/// Records an object of `size` bytes written at `now`.
pub open spec fn object_insert_sql(
    obj: Seq<char>,
    bucket: Seq<char>,
    key: Seq<char>,
    owner: Option<i64>,
    ct: Seq<char>,
    size: nat,
    now: u64,
) -> Seq<char> {
    "INSERT INTO _storage_objects (id, bucket_id, name, owner_id, content_type, size_bytes, metadata, created_at, updated_at) VALUES ("@
        + quoted(obj) + ", "@ + quoted(bucket) + ", "@ + quoted(key) + ", "@ + owner_literal(owner) + ", "@ + quoted(ct)
        + ", "@ + nat_decimal(size) + ", '{}', "@ + nat_decimal(now as nat) + ", "@
        + nat_decimal(now as nat) + ")"@
}

/// Forgets an object.
pub open spec fn object_delete_sql(obj: Seq<char>) -> Seq<char> {
    "DELETE FROM _storage_objects WHERE id = "@ + quoted(obj)
}

/// The recorded owner of an object.
pub open spec fn object_owner_sql(obj: Seq<char>) -> Seq<char> {
    "SELECT owner_id FROM _storage_objects WHERE id = "@ + quoted(obj)
}

/// The objects of a bucket as an S3 listing needs them.
pub open spec fn s3_list_sql(bucket: Seq<char>) -> Seq<char> {
    "SELECT name, size_bytes, created_at FROM _storage_objects WHERE bucket_id = "@ + quoted_raw(bucket)
}

/// Every bucket, oldest first.
pub open spec fn buckets_list_sql() -> Seq<char> {
    "SELECT id, name, public, created_at FROM _storage_buckets ORDER BY created_at ASC"@
}

/// Records a bucket created at `now`.
pub open spec fn bucket_insert_sql(id: Seq<char>, name: Seq<char>, public: bool, now: u64) -> Seq<char> {
    "INSERT INTO _storage_buckets (id, name, public, created_at) VALUES ("@ + quoted_raw(id) + ", "@ + quoted(name)
        + ", "@ + (if public {
        "TRUE"@
    } else {
        "FALSE"@
    }) + ", "@ + nat_decimal(now as nat) + ")"@
}

/// One bucket.
pub open spec fn bucket_get_sql(id: Seq<char>) -> Seq<char> {
    "SELECT id, name, public, created_at FROM _storage_buckets WHERE id = "@ + quoted_raw(id)
}

/// Forgets a bucket.
pub open spec fn bucket_delete_sql(id: Seq<char>) -> Seq<char> {
    "DELETE FROM _storage_buckets WHERE id = "@ + quoted_raw(id)
}

/// Whether a bucket is public.
pub open spec fn bucket_public_sql(id: Seq<char>) -> Seq<char> {
    "SELECT public FROM _storage_buckets WHERE id = "@ + quoted_raw(id)
}

/// The objects of a bucket, only those of user `only` when given.
pub open spec fn object_list_sql(bucket: Seq<char>, only: Option<i64>) -> Seq<char> {
    "SELECT id, name, owner_id, size_bytes, created_at FROM _storage_objects WHERE bucket_id = "@ + quoted_raw(bucket)
        + match only {
        Some(u) => " AND owner_id = "@ + int_decimal(u as int),
        None => Seq::empty(),
    }
}

fn push_quoted(out: &mut Vec<char>, s: &str)
    ensures
        final(out)@ == old(out)@ + quoted(s@),
{
    let ghost start = out@;
    push_str(out, "'");
    push_escaped(out, chars_of(s).as_slice());
    push_str(out, "'");
    assert(out@ =~= start + quoted(s@));
}

fn push_quoted_raw(out: &mut Vec<char>, s: &str)
    ensures
        final(out)@ == old(out)@ + quoted_raw(s@),
{
    let ghost start = out@;
    push_str(out, "'");
    push_str(out, s);
    push_str(out, "'");
    assert(out@ =~= start + quoted_raw(s@));
}

fn push_owner(out: &mut Vec<char>, owner: Option<i64>)
    ensures
        final(out)@ == old(out)@ + owner_literal(owner),
{
    match owner {
        Some(u) => push_i64_decimal(out, u),
        None => push_str(out, "NULL"),
    }
}

/// Records an object (see `object_insert_sql`).
pub fn object_insert(obj: &str, bucket: &str, key: &str, owner: Option<i64>, ct: &str, size: usize, now: u64) -> (r: String)
    ensures
        r@ == object_insert_sql(obj@, bucket@, key@, owner, ct@, size as nat, now),
{
    let mut out: Vec<char> = Vec::new();
    push_str(
        &mut out,
        "INSERT INTO _storage_objects (id, bucket_id, name, owner_id, content_type, size_bytes, metadata, created_at, updated_at) VALUES (",
    );
    push_quoted(&mut out, obj);
    push_str(&mut out, ", ");
    push_quoted(&mut out, bucket);
    push_str(&mut out, ", ");
    push_quoted(&mut out, key);
    push_str(&mut out, ", ");
    push_owner(&mut out, owner);
    push_str(&mut out, ", ");
    push_quoted(&mut out, ct);
    push_str(&mut out, ", ");
    push_u64_decimal(&mut out, size as u64);
    push_str(&mut out, ", '{}', ");
    push_u64_decimal(&mut out, now);
    push_str(&mut out, ", ");
    push_u64_decimal(&mut out, now);
    push_str(&mut out, ")");
    string_of(out.as_slice())
}

/// Forgets an object.
pub fn object_delete(obj: &str) -> (r: String)
    ensures
        r@ == object_delete_sql(obj@),
{
    let mut out: Vec<char> = Vec::new();
    push_str(&mut out, "DELETE FROM _storage_objects WHERE id = ");
    push_quoted(&mut out, obj);
    string_of(out.as_slice())
}

/// The recorded owner of an object.
pub fn object_owner(obj: &str) -> (r: String)
    ensures
        r@ == object_owner_sql(obj@),
{
    let mut out: Vec<char> = Vec::new();
    push_str(&mut out, "SELECT owner_id FROM _storage_objects WHERE id = ");
    push_quoted(&mut out, obj);
    string_of(out.as_slice())
}

/// An S3 listing's query.
pub fn s3_list(bucket: &str) -> (r: String)
    ensures
        r@ == s3_list_sql(bucket@),
{
    let mut out: Vec<char> = Vec::new();
    push_str(&mut out, "SELECT name, size_bytes, created_at FROM _storage_objects WHERE bucket_id = ");
    push_quoted_raw(&mut out, bucket);
    string_of(out.as_slice())
}

/// Every bucket, oldest first.
pub fn buckets_list() -> (r: String)
    ensures
        r@ == buckets_list_sql(),
{
    String::from_str("SELECT id, name, public, created_at FROM _storage_buckets ORDER BY created_at ASC")
}

/// Records a bucket.
pub fn bucket_insert(id: &str, name: &str, public: bool, now: u64) -> (r: String)
    ensures
        r@ == bucket_insert_sql(id@, name@, public, now),
{
    let mut out: Vec<char> = Vec::new();
    push_str(&mut out, "INSERT INTO _storage_buckets (id, name, public, created_at) VALUES (");
    push_quoted_raw(&mut out, id);
    push_str(&mut out, ", ");
    push_quoted(&mut out, name);
    push_str(&mut out, ", ");
    if public {
        push_str(&mut out, "TRUE");
    } else {
        push_str(&mut out, "FALSE");
    }
    push_str(&mut out, ", ");
    push_u64_decimal(&mut out, now);
    push_str(&mut out, ")");
    string_of(out.as_slice())
}

/// One bucket.
pub fn bucket_get(id: &str) -> (r: String)
    ensures
        r@ == bucket_get_sql(id@),
{
    let mut out: Vec<char> = Vec::new();
    push_str(&mut out, "SELECT id, name, public, created_at FROM _storage_buckets WHERE id = ");
    push_quoted_raw(&mut out, id);
    string_of(out.as_slice())
}

/// Forgets a bucket.
pub fn bucket_delete(id: &str) -> (r: String)
    ensures
        r@ == bucket_delete_sql(id@),
{
    let mut out: Vec<char> = Vec::new();
    push_str(&mut out, "DELETE FROM _storage_buckets WHERE id = ");
    push_quoted_raw(&mut out, id);
    string_of(out.as_slice())
}

/// Whether a bucket is public.
pub fn bucket_public(id: &str) -> (r: String)
    ensures
        r@ == bucket_public_sql(id@),
{
    let mut out: Vec<char> = Vec::new();
    push_str(&mut out, "SELECT public FROM _storage_buckets WHERE id = ");
    push_quoted_raw(&mut out, id);
    string_of(out.as_slice())
}

/// The objects of a bucket.
pub fn object_list(bucket: &str, only: Option<i64>) -> (r: String)
    ensures
        r@ == object_list_sql(bucket@, only),
{
    let mut out: Vec<char> = Vec::new();
    push_str(&mut out, "SELECT id, name, owner_id, size_bytes, created_at FROM _storage_objects WHERE bucket_id = ");
    push_quoted_raw(&mut out, bucket);
    if let Some(u) = only {
        push_str(&mut out, " AND owner_id = ");
        push_i64_decimal(&mut out, u);
    }
    string_of(out.as_slice())
}

// ---------------------------------------------------------------------------------------
// Answers, as JSON text (object keys in ascending order)
// ---------------------------------------------------------------------------------------

/// `{"error": msg}`.
pub open spec fn error_json(msg: Seq<char>) -> Seq<char> {
    "{\"error\":"@ + json_str(msg) + "}"@
}

/// `{"message": msg}`.
pub open spec fn message_json(msg: Seq<char>) -> Seq<char> {
    "{\"message\":"@ + json_str(msg) + "}"@
}

/// A cell of a row, NULL past its end.
pub open spec fn cell(row: Seq<ValueView>, i: int) -> ValueView {
    if 0 <= i < row.len() {
        row[i]
    } else {
        ValueView::Null
    }
}

/// A text cell's text, else empty.
pub open spec fn text_of(v: ValueView) -> Seq<char> {
    match v {
        ValueView::Text(s) => s,
        _ => Seq::empty(),
    }
}

/// An integer cell's value, else 0.
pub open spec fn int_of(v: ValueView) -> int {
    match v {
        ValueView::Integer(i) => i as int,
        _ => 0,
    }
}

/// Whether a cell holds `true`.
pub open spec fn is_true(v: ValueView) -> bool {
    v == ValueView::Boolean(true)
}

/// A bucket row `(id, name, public, created_at)` as JSON.
pub open spec fn bucket_json(r: Seq<ValueView>) -> Seq<char> {
    "{\"created_at\":"@ + json_int(int_of(cell(r, 3))) + ",\"id\":"@ + json_str(text_of(cell(r, 0))) + ",\"name\":"@
        + json_str(text_of(cell(r, 1))) + ",\"public\":"@ + json_bool(is_true(cell(r, 2))) + "}"@
}

/// An S3 listing entry from a row `(name, size_bytes, created_at)`.
pub open spec fn s3_entry_json(r: Seq<ValueView>) -> Seq<char> {
    "{\"Key\":"@ + json_str(text_of(cell(r, 0))) + ",\"LastModified\":"@ + json_int(int_of(cell(r, 2))) + ",\"Size\":"@
        + json_int(int_of(cell(r, 1))) + "}"@
}

/// An object listing entry from a row `(id, name, owner_id, size_bytes, created_at)`.
pub open spec fn object_entry_json(r: Seq<ValueView>) -> Seq<char> {
    "{\"created_at\":"@ + json_int(int_of(cell(r, 4))) + ",\"id\":"@ + json_str(text_of(cell(r, 0)))
        + ",\"metadata\":{\"size\":"@ + json_int(int_of(cell(r, 3))) + "},\"name\":"@ + json_str(text_of(cell(r, 1)))
        + ",\"owner_id\":"@ + match cell(r, 2) {
        ValueView::Integer(i) => json_int(i as int),
        _ => "null"@,
    } + "}"@
}

/// A lifecycle rule row `(id, prefix, expiry_days, created_at)` as JSON.
pub open spec fn rule_entry_json(r: Seq<ValueView>) -> Seq<char> {
    "{\"created_at\":"@ + json_int(int_of(cell(r, 3))) + ",\"expiry_days\":"@ + json_int(int_of(cell(r, 2))) + ",\"id\":"@
        + json_str(text_of(cell(r, 0))) + ",\"prefix\":"@ + json_str(text_of(cell(r, 1))) + "}"@
}

/// The lifecycle rules answer.
pub open spec fn rules_json(rows: Seq<Seq<ValueView>>) -> Seq<char> {
    json_array(rows, |r: Seq<ValueView>| rule_entry_json(r))
}

/// The answer to a recorded lifecycle rule.
pub open spec fn rule_json(id: Seq<char>, bucket: Seq<char>, prefix: Seq<char>, days: i64) -> Seq<char> {
    "{\"bucket_id\":"@ + json_str(bucket) + ",\"expiry_days\":"@ + json_int(days as int) + ",\"id\":"@ + json_str(id)
        + ",\"prefix\":"@ + json_str(prefix) + "}"@
}

/// The name of a lifecycle rule.
pub open spec fn rule_id(bucket: Seq<char>, prefix: Seq<char>, days: i64) -> Seq<char> {
    bucket + "_"@ + prefix + "_"@ + int_decimal(days as int)
}

/// Records a lifecycle rule.
pub open spec fn rule_insert_sql(id: Seq<char>, bucket: Seq<char>, prefix: Seq<char>, days: i64, now: u64) -> Seq<char> {
    "INSERT INTO _storage_lifecycle_rules (id, bucket_id, prefix, expiry_days, created_at) VALUES ("@ + quoted(id)
        + ", "@ + quoted(bucket) + ", "@ + quoted(prefix) + ", "@ + int_decimal(days as int) + ", "@ + nat_decimal(
        now as nat,
    ) + ")"@
}

/// A bucket's lifecycle rules.
pub open spec fn rules_list_sql(bucket: Seq<char>) -> Seq<char> {
    "SELECT id, prefix, expiry_days, created_at FROM _storage_lifecycle_rules WHERE bucket_id = "@ + quoted(bucket)
}

/// Forgets a bucket's lifecycle rules.
pub open spec fn rules_delete_sql(bucket: Seq<char>) -> Seq<char> {
    "DELETE FROM _storage_lifecycle_rules WHERE bucket_id = "@ + quoted(bucket)
}

/// The path of a signed download link.
pub open spec fn signed_url(bucket: Seq<char>, key: Seq<char>, token: Seq<char>, expires_at: nat) -> Seq<char> {
    "/v1/storage/v1/object/"@ + bucket + "/"@ + key + "?token="@ + token + "&expires="@ + nat_decimal(expires_at)
}

/// The answer to a signed link.
pub open spec fn signed_json(url: Seq<char>, token: Seq<char>, expires_at: nat) -> Seq<char> {
    "{\"expiresAt\":"@ + nat_decimal(expires_at) + ",\"signedURL\":"@ + json_str(url) + ",\"token\":"@ + json_str(token)
        + "}"@
}

/// A JSON array of the rows, each rendered by `f`.
pub open spec fn json_array(rows: Seq<Seq<ValueView>>, f: spec_fn(Seq<ValueView>) -> Seq<char>) -> Seq<char> {
    "["@ + join_with(Seq::new(rows.len(), |i: int| f(rows[i])), ","@) + "]"@
}

/// The bucket list answer.
pub open spec fn buckets_json(rows: Seq<Seq<ValueView>>) -> Seq<char> {
    json_array(rows, |r: Seq<ValueView>| bucket_json(r))
}

/// The object list answer.
pub open spec fn objects_json(rows: Seq<Seq<ValueView>>) -> Seq<char> {
    json_array(rows, |r: Seq<ValueView>| object_entry_json(r))
}

/// The S3 listing answer of a bucket.
pub open spec fn s3_listing_json(bucket: Seq<char>, rows: Seq<Seq<ValueView>>) -> Seq<char> {
    "{\"Contents\":"@ + json_array(rows, |r: Seq<ValueView>| s3_entry_json(r)) + ",\"KeyCount\":"@ + nat_decimal(rows.len())
        + ",\"Name\":"@ + json_str(bucket) + "}"@
}

/// The answer to an S3 upload.
pub open spec fn s3_put_json(bucket: Seq<char>, key: Seq<char>, etag: Seq<char>) -> Seq<char> {
    "{\"Bucket\":"@ + json_str(bucket) + ",\"ETag\":"@ + json_str(etag) + ",\"Key\":"@ + json_str(key) + "}"@
}

/// The answer to an upload through the object route.
pub open spec fn upload_json(obj: Seq<char>, size: nat, digest: Seq<char>) -> Seq<char> {
    "{\"Id\":"@ + json_str(obj) + ",\"Key\":"@ + json_str(obj) + ",\"checksum_sha256\":"@ + json_str(digest)
        + ",\"etag\":"@ + json_str(digest) + ",\"size\":"@ + nat_decimal(size) + "}"@
}

/// The answer to a created bucket.
pub open spec fn created_json(id: Seq<char>) -> Seq<char> {
    "{\"message\":\"bucket created successfully\",\"name\":"@ + json_str(id) + "}"@
}

/// The answer of the image transformation route.
pub open spec fn render_json(bucket: Seq<char>, path: Seq<char>) -> Seq<char> {
    "{\"bucket\":"@ + json_str(bucket) + ",\"object_path\":"@ + json_str(path)
        + ",\"status\":\"transformed\",\"transform\":{\"cache_status\":\"hit\",\"format\":\"webp\",\"quality\":80}}"@
}

/// `{"error": msg}` as text.
pub fn error_answer(msg: &str) -> (r: String)
    ensures
        r@ == error_json(msg@),
{
    let mut out: Vec<char> = Vec::new();
    push_str(&mut out, "{\"error\":");
    push_json_str(&mut out, msg);
    push_str(&mut out, "}");
    string_of(out.as_slice())
}

/// `{"message": msg}` as text.
pub fn message_answer(msg: &str) -> (r: String)
    ensures
        r@ == message_json(msg@),
{
    let mut out: Vec<char> = Vec::new();
    push_str(&mut out, "{\"message\":");
    push_json_str(&mut out, msg);
    push_str(&mut out, "}");
    string_of(out.as_slice())
}

fn cell_at(row: &Vec<Value>, i: usize) -> (r: Value)
    ensures
        r@ == cell(row_view(row@), i as int),
{
    if i < row.len() {
        crate::types::value::copy_value(&row[i])
    } else {
        Value::Null
    }
}

fn push_text_of(out: &mut Vec<char>, v: &Value)
    ensures
        final(out)@ == old(out)@ + json_str(text_of(v@)),
{
    match v {
        Value::Text(s) => push_json_str(out, s.as_str()),
        _ => {
            push_json_str(out, "");
            proof {
                reveal_strlit("");
            }
        },
    }
}

fn push_int_of(out: &mut Vec<char>, v: &Value)
    ensures
        final(out)@ == old(out)@ + json_int(int_of(v@)),
{
    match v {
        Value::Integer(i) => push_json_int(out, *i),
        _ => push_json_int(out, 0),
    }
}

fn bucket_entry(row: &Vec<Value>) -> (r: Vec<char>)
    ensures
        r@ == bucket_json(row_view(row@)),
{
    let mut out: Vec<char> = Vec::new();
    push_str(&mut out, "{\"created_at\":");
    push_int_of(&mut out, &cell_at(row, 3));
    push_str(&mut out, ",\"id\":");
    push_text_of(&mut out, &cell_at(row, 0));
    push_str(&mut out, ",\"name\":");
    push_text_of(&mut out, &cell_at(row, 1));
    push_str(&mut out, ",\"public\":");
    let p = matches!(cell_at(row, 2), Value::Boolean(true));
    if p {
        push_str(&mut out, "true");
    } else {
        push_str(&mut out, "false");
    }
    push_str(&mut out, "}");
    out
}

fn s3_entry(row: &Vec<Value>) -> (r: Vec<char>)
    ensures
        r@ == s3_entry_json(row_view(row@)),
{
    let mut out: Vec<char> = Vec::new();
    push_str(&mut out, "{\"Key\":");
    push_text_of(&mut out, &cell_at(row, 0));
    push_str(&mut out, ",\"LastModified\":");
    push_int_of(&mut out, &cell_at(row, 2));
    push_str(&mut out, ",\"Size\":");
    push_int_of(&mut out, &cell_at(row, 1));
    push_str(&mut out, "}");
    out
}

fn object_entry(row: &Vec<Value>) -> (r: Vec<char>)
    ensures
        r@ == object_entry_json(row_view(row@)),
{
    let mut out: Vec<char> = Vec::new();
    push_str(&mut out, "{\"created_at\":");
    push_int_of(&mut out, &cell_at(row, 4));
    push_str(&mut out, ",\"id\":");
    push_text_of(&mut out, &cell_at(row, 0));
    push_str(&mut out, ",\"metadata\":{\"size\":");
    push_int_of(&mut out, &cell_at(row, 3));
    push_str(&mut out, "},\"name\":");
    push_text_of(&mut out, &cell_at(row, 1));
    push_str(&mut out, ",\"owner_id\":");
    match cell_at(row, 2) {
        Value::Integer(i) => push_json_int(&mut out, i),
        _ => push_str(&mut out, "null"),
    }
    push_str(&mut out, "}");
    out
}

fn rule_entry(row: &Vec<Value>) -> (r: Vec<char>)
    ensures
        r@ == rule_entry_json(row_view(row@)),
{
    let mut out: Vec<char> = Vec::new();
    push_str(&mut out, "{\"created_at\":");
    push_int_of(&mut out, &cell_at(row, 3));
    push_str(&mut out, ",\"expiry_days\":");
    push_int_of(&mut out, &cell_at(row, 2));
    push_str(&mut out, ",\"id\":");
    push_text_of(&mut out, &cell_at(row, 0));
    push_str(&mut out, ",\"prefix\":");
    push_text_of(&mut out, &cell_at(row, 1));
    push_str(&mut out, "}");
    out
}

/// The lifecycle rules answer.
pub fn rules_answer(rows: &Vec<Vec<Value>>) -> (r: String)
    ensures
        r@ == rules_json(rows_view(rows@)),
{
    let mut out: Vec<char> = Vec::new();
    push_array(&mut out, rows, Listing::Rules);
    assert(entry_of(Listing::Rules) == (|r: Seq<ValueView>| rule_entry_json(r)));
    string_of(out.as_slice())
}

/// The answer to a recorded lifecycle rule.
pub fn rule_answer(id: &str, bucket: &str, prefix: &str, days: i64) -> (r: String)
    ensures
        r@ == rule_json(id@, bucket@, prefix@, days),
{
    let mut out: Vec<char> = Vec::new();
    push_str(&mut out, "{\"bucket_id\":");
    push_json_str(&mut out, bucket);
    push_str(&mut out, ",\"expiry_days\":");
    push_json_int(&mut out, days);
    push_str(&mut out, ",\"id\":");
    push_json_str(&mut out, id);
    push_str(&mut out, ",\"prefix\":");
    push_json_str(&mut out, prefix);
    push_str(&mut out, "}");
    string_of(out.as_slice())
}

/// The name of a lifecycle rule.
pub fn rule_name(bucket: &str, prefix: &str, days: i64) -> (r: String)
    ensures
        r@ == rule_id(bucket@, prefix@, days),
{
    let mut out: Vec<char> = Vec::new();
    push_str(&mut out, bucket);
    push_str(&mut out, "_");
    push_str(&mut out, prefix);
    push_str(&mut out, "_");
    push_i64_decimal(&mut out, days);
    string_of(out.as_slice())
}

/// Records a lifecycle rule.
pub fn rule_insert(id: &str, bucket: &str, prefix: &str, days: i64, now: u64) -> (r: String)
    ensures
        r@ == rule_insert_sql(id@, bucket@, prefix@, days, now),
{
    let mut out: Vec<char> = Vec::new();
    push_str(&mut out, "INSERT INTO _storage_lifecycle_rules (id, bucket_id, prefix, expiry_days, created_at) VALUES (");
    push_quoted(&mut out, id);
    push_str(&mut out, ", ");
    push_quoted(&mut out, bucket);
    push_str(&mut out, ", ");
    push_quoted(&mut out, prefix);
    push_str(&mut out, ", ");
    push_i64_decimal(&mut out, days);
    push_str(&mut out, ", ");
    push_u64_decimal(&mut out, now);
    push_str(&mut out, ")");
    string_of(out.as_slice())
}

/// A bucket's lifecycle rules.
pub fn rules_list(bucket: &str) -> (r: String)
    ensures
        r@ == rules_list_sql(bucket@),
{
    let mut out: Vec<char> = Vec::new();
    push_str(&mut out, "SELECT id, prefix, expiry_days, created_at FROM _storage_lifecycle_rules WHERE bucket_id = ");
    push_quoted(&mut out, bucket);
    string_of(out.as_slice())
}

/// Forgets a bucket's lifecycle rules.
pub fn rules_delete(bucket: &str) -> (r: String)
    ensures
        r@ == rules_delete_sql(bucket@),
{
    let mut out: Vec<char> = Vec::new();
    push_str(&mut out, "DELETE FROM _storage_lifecycle_rules WHERE bucket_id = ");
    push_quoted(&mut out, bucket);
    string_of(out.as_slice())
}

/// The answer to a signed link, with the link's path.
pub fn signed_answer(bucket: &str, key: &str, token: &str, expires_at: u64) -> (r: String)
    ensures
        r@ == signed_json(signed_url(bucket@, key@, token@, expires_at as nat), token@, expires_at as nat),
{
    let mut url: Vec<char> = Vec::new();
    push_str(&mut url, "/v1/storage/v1/object/");
    push_str(&mut url, bucket);
    push_str(&mut url, "/");
    push_str(&mut url, key);
    push_str(&mut url, "?token=");
    push_str(&mut url, token);
    push_str(&mut url, "&expires=");
    push_u64_decimal(&mut url, expires_at);
    assert(url@ =~= signed_url(bucket@, key@, token@, expires_at as nat));
    let url_s = string_of(url.as_slice());
    let mut out: Vec<char> = Vec::new();
    push_str(&mut out, "{\"expiresAt\":");
    push_u64_decimal(&mut out, expires_at);
    push_str(&mut out, ",\"signedURL\":");
    push_json_str(&mut out, url_s.as_str());
    push_str(&mut out, ",\"token\":");
    push_json_str(&mut out, token);
    push_str(&mut out, "}");
    string_of(out.as_slice())
}

/// Which listing a JSON array renders.
pub enum Listing {
    Buckets,
    S3Entries,
    Objects,
    Rules,
}

/// The renderer of one listing entry.
pub open spec fn entry_of(kind: Listing) -> spec_fn(Seq<ValueView>) -> Seq<char> {
    match kind {
        Listing::Buckets => |r: Seq<ValueView>| bucket_json(r),
        Listing::S3Entries => |r: Seq<ValueView>| s3_entry_json(r),
        Listing::Objects => |r: Seq<ValueView>| object_entry_json(r),
        Listing::Rules => |r: Seq<ValueView>| rule_entry_json(r),
    }
}

fn push_array(out: &mut Vec<char>, rows: &Vec<Vec<Value>>, kind: Listing)
    ensures
        final(out)@ == old(out)@ + json_array(rows_view(rows@), entry_of(kind)),
{
    let ghost start = out@;
    let ghost rv = rows_view(rows@);
    let ghost f = entry_of(kind);
    let mut parts: Vec<Vec<char>> = Vec::new();
    let mut i: usize = 0;
    while i < rows.len()
        invariant
            i <= rows@.len(),
            rv == rows_view(rows@),
            f == entry_of(kind),
            parts@.len() == i,
            forall|j: int| 0 <= j < i ==> (#[trigger] parts@[j])@ == f(rv[j]),
        decreases rows@.len() - i,
    {
        let e = match kind {
            Listing::Buckets => bucket_entry(&rows[i]),
            Listing::S3Entries => s3_entry(&rows[i]),
            Listing::Objects => object_entry(&rows[i]),
            Listing::Rules => rule_entry(&rows[i]),
        };
        assert(rv[i as int] == row_view(rows@[i as int]@));
        parts.push(e);
        i = i + 1;
    }
    assert(char_vecs(parts@) =~= Seq::new(rv.len(), |j: int| f(rv[j])));
    push_str(out, "[");
    push_joined_sep(out, &parts, ",");
    push_str(out, "]");
    assert(out@ =~= start + json_array(rv, f));
}

/// The S3 listing answer of a bucket.
pub fn s3_listing_answer(bucket: &str, rows: &Vec<Vec<Value>>) -> (r: String)
    ensures
        r@ == s3_listing_json(bucket@, rows_view(rows@)),
{
    let mut out: Vec<char> = Vec::new();
    push_str(&mut out, "{\"Contents\":");
    push_array(&mut out, rows, Listing::S3Entries);
    push_str(&mut out, ",\"KeyCount\":");
    push_u64_decimal(&mut out, rows.len() as u64);
    push_str(&mut out, ",\"Name\":");
    push_json_str(&mut out, bucket);
    push_str(&mut out, "}");
    assert(entry_of(Listing::S3Entries) == (|r: Seq<ValueView>| s3_entry_json(r)));
    string_of(out.as_slice())
}

/// The bucket list answer.
pub fn buckets_answer(rows: &Vec<Vec<Value>>) -> (r: String)
    ensures
        r@ == buckets_json(rows_view(rows@)),
{
    let mut out: Vec<char> = Vec::new();
    push_array(&mut out, rows, Listing::Buckets);
    assert(entry_of(Listing::Buckets) == (|r: Seq<ValueView>| bucket_json(r)));
    string_of(out.as_slice())
}

/// The object list answer.
pub fn objects_answer(rows: &Vec<Vec<Value>>) -> (r: String)
    ensures
        r@ == objects_json(rows_view(rows@)),
{
    let mut out: Vec<char> = Vec::new();
    push_array(&mut out, rows, Listing::Objects);
    assert(entry_of(Listing::Objects) == (|r: Seq<ValueView>| object_entry_json(r)));
    string_of(out.as_slice())
}

/// One bucket's answer.
pub fn bucket_answer(row: &Vec<Value>) -> (r: String)
    ensures
        r@ == bucket_json(row_view(row@)),
{
    let e = bucket_entry(row);
    string_of(e.as_slice())
}

/// The answer to an S3 upload.
pub fn s3_put_answer(bucket: &str, key: &str, etag: &str) -> (r: String)
    ensures
        r@ == s3_put_json(bucket@, key@, etag@),
{
    let mut out: Vec<char> = Vec::new();
    push_str(&mut out, "{\"Bucket\":");
    push_json_str(&mut out, bucket);
    push_str(&mut out, ",\"ETag\":");
    push_json_str(&mut out, etag);
    push_str(&mut out, ",\"Key\":");
    push_json_str(&mut out, key);
    push_str(&mut out, "}");
    string_of(out.as_slice())
}

/// The answer to an upload through the object route.
pub fn upload_answer(obj: &str, size: usize, digest: &str) -> (r: String)
    ensures
        r@ == upload_json(obj@, size as nat, digest@),
{
    let mut out: Vec<char> = Vec::new();
    push_str(&mut out, "{\"Id\":");
    push_json_str(&mut out, obj);
    push_str(&mut out, ",\"Key\":");
    push_json_str(&mut out, obj);
    push_str(&mut out, ",\"checksum_sha256\":");
    push_json_str(&mut out, digest);
    push_str(&mut out, ",\"etag\":");
    push_json_str(&mut out, digest);
    push_str(&mut out, ",\"size\":");
    push_u64_decimal(&mut out, size as u64);
    push_str(&mut out, "}");
    string_of(out.as_slice())
}

/// The answer to a created bucket.
pub fn created_answer(id: &str) -> (r: String)
    ensures
        r@ == created_json(id@),
{
    let mut out: Vec<char> = Vec::new();
    push_str(&mut out, "{\"message\":\"bucket created successfully\",\"name\":");
    push_json_str(&mut out, id);
    push_str(&mut out, "}");
    string_of(out.as_slice())
}

/// The answer of the image transformation route.
pub fn render_answer(bucket: &str, path: &str) -> (r: String)
    ensures
        r@ == render_json(bucket@, path@),
{
    let mut out: Vec<char> = Vec::new();
    push_str(&mut out, "{\"bucket\":");
    push_json_str(&mut out, bucket);
    push_str(&mut out, ",\"object_path\":");
    push_json_str(&mut out, path);
    push_str(
        &mut out,
        ",\"status\":\"transformed\",\"transform\":{\"cache_status\":\"hit\",\"format\":\"webp\",\"quality\":80}}",
    );
    string_of(out.as_slice())
}


// ---------------------------------------------------------------------------------------
// Content type, served bytes and signed links
// ---------------------------------------------------------------------------------------

/// The content type an object is served with, by its name's extension.
pub open spec fn content_type_for(key: Seq<char>) -> Seq<char> {
    if ends_with(key, ".png"@) {
        "image/png"@
    } else if ends_with(key, ".jpg"@) || ends_with(key, ".jpeg"@) {
        "image/jpeg"@
    } else if ends_with(key, ".json"@) {
        "application/json"@
    } else if ends_with(key, ".txt"@) {
        "text/plain"@
    } else {
        "application/octet-stream"@
    }
}

fn ends(key: &str, suffix: &str) -> (r: bool)
    ensures
        r == ends_with(key@, suffix@),
{
    chars_ends_with(chars_of(key).as_slice(), chars_of(suffix).as_slice())
}

/// The content type an object is served with.
pub fn content_type(key: &str) -> (r: String)
    ensures
        r@ == content_type_for(key@),
{
    if ends(key, ".png") {
        String::from_str("image/png")
    } else if ends(key, ".jpg") || ends(key, ".jpeg") {
        String::from_str("image/jpeg")
    } else if ends(key, ".json") {
        String::from_str("application/json")
    } else if ends(key, ".txt") {
        String::from_str("text/plain")
    } else {
        String::from_str("application/octet-stream")
    }
}

/// The token and expiry a download link's query carries (`token=..&expires=..`; the last
/// of each wins, and an unreadable expiry counts as none).
pub open spec fn link_params(pairs: Seq<Seq<char>>) -> (Option<Seq<char>>, Option<u64>)
    decreases pairs.len(),
{
    if pairs.len() == 0 {
        (None, None)
    } else {
        let before = link_params(pairs.drop_last());
        match split_once(pairs.last(), '=') {
            Some((k, v)) => if k == "token"@ {
                (Some(v), before.1)
            } else if k == "expires"@ {
                (before.0, spec_parse_u64(v))
            } else {
                before
            },
            None => before,
        }
    }
}

/// Whether a request's query holds a valid download link for the object at `now`.
pub open spec fn signed_link_ok(query: Seq<char>, bucket: Seq<char>, key: Seq<char>, secret: Seq<u8>, now: u64) -> bool {
    match link_params(split_at_char(query, '&')) {
        (Some(t), Some(e)) => download_valid(bucket, key, e, t, secret, now),
        _ => false,
    }
}

fn signed_link(query: &str, bucket: &str, key: &str, secret: &[u8], now: u64) -> (r: bool)
    ensures
        r == signed_link_ok(query@, bucket@, key@, secret@, now),
{
    let pairs = split_char(chars_of(query).as_slice(), '&');
    let ghost ps = split_at_char(query@, '&');
    let mut token: Option<String> = None;
    let mut expires: Option<u64> = None;
    let mut i: usize = 0;
    assert(ps.take(0) =~= Seq::<Seq<char>>::empty());
    while i < pairs.len()
        invariant
            i <= pairs@.len(),
            pairs@.len() == ps.len(),
            ps == split_at_char(query@, '&'),
            forall|j: int| 0 <= j < pairs@.len() ==> #[trigger] pairs@[j]@ == ps[j],
            link_params(ps.take(i as int)).0 == match token {
                Some(t) => Some(t@),
                None => None::<Seq<char>>,
            },
            link_params(ps.take(i as int)).1 == expires,
        decreases pairs@.len() - i,
    {
        assert(ps.take(i + 1).drop_last() =~= ps.take(i as int));
        assert(ps.take(i + 1).last() == pairs@[i as int]@);
        match split_once_char(pairs[i].as_slice(), '=') {
            Some((k, v)) => {
                let ks = string_of(k.as_slice());
                let vs = string_of(v.as_slice());
                if str_equal(ks.as_str(), "token") {
                    token = Some(vs);
                } else if str_equal(ks.as_str(), "expires") {
                    expires = parse_u64(vs.as_str());
                }
            },
            None => {},
        }
        i = i + 1;
    }
    assert(ps.take(ps.len() as int) =~= ps);
    match (token, expires) {
        (Some(t), Some(e)) => verify_download_signature_at(bucket, key, e, t.as_str(), secret, now),
        _ => false,
    }
}

// ---------------------------------------------------------------------------------------
// The storage route as a state machine
// ---------------------------------------------------------------------------------------

/// A member of a JSON object body: its key; its text when it is a string; its value when
/// it is a boolean; its value when it is an integer that fits in `u64`, and in `i64`.
#[derive(Debug, Clone)]
pub struct BodyField {
    pub key: String,
    pub text: Option<String>,
    pub flag: Option<bool>,
    pub unsigned: Option<u64>,
    pub signed: Option<i64>,
}

/// The content of a body member.
pub struct FieldView {
    pub key: Seq<char>,
    pub text: Option<Seq<char>>,
    pub flag: Option<bool>,
    pub unsigned: Option<u64>,
    pub signed: Option<i64>,
}

/// Optional text as a sequence.
pub open spec fn opt_text(o: Option<String>) -> Option<Seq<char>> {
    match o {
        Some(s) => Some(s@),
        None => None,
    }
}

/// The members of a body.
pub open spec fn fields_of(fs: Seq<BodyField>) -> Seq<FieldView> {
    Seq::new(
        fs.len(),
        |i: int|
            FieldView {
                key: fs[i].key@,
                text: opt_text(fs[i].text),
                flag: fs[i].flag,
                unsigned: fs[i].unsigned,
                signed: fs[i].signed,
            },
    )
}

/// The first member under key `k`.
pub open spec fn lookup(fs: Seq<FieldView>, k: Seq<char>) -> Option<FieldView>
    decreases fs.len(),
{
    if fs.len() == 0 {
        None
    } else if fs[0].key == k {
        Some(fs[0])
    } else {
        lookup(fs.drop_first(), k)
    }
}

fn lookup_exec(fs: &Vec<BodyField>, k: &str) -> (r: Option<usize>)
    ensures
        match lookup(fields_of(fs@), k@) {
            Some(f) => r matches Some(i) && i < fs@.len() && fields_of(fs@)[i as int] == f,
            None => r is None,
        },
{
    let ghost v = fields_of(fs@);
    let mut i: usize = 0;
    assert(v.skip(0) =~= v);
    while i < fs.len()
        invariant
            i <= fs@.len(),
            v == fields_of(fs@),
            lookup(v, k@) == lookup(v.skip(i as int), k@),
        decreases fs@.len() - i,
    {
        assert(v.skip(i as int)[0] == v[i as int]);
        if str_equal(fs[i].key.as_str(), k) {
            return Some(i);
        }
        assert(v.skip(i as int).drop_first() =~= v.skip(i + 1));
        i = i + 1;
    }
    None
}

/// A request on the storage API, with the JSON members of its body (`None` when the body
/// is no JSON; empty when it is JSON but no object), the caller, the time in seconds and
/// the secret download links are signed with, and the server's process id (which names
/// upload sessions).
#[derive(Debug)]
pub struct StorageCall {
    pub method: String,
    pub path: String,
    pub query: String,
    pub body: Vec<u8>,
    pub payload: Option<Vec<BodyField>>,
    pub range: Option<String>,
    pub user_id: Option<i64>,
    pub is_admin: bool,
    pub now: u64,
    pub secret: Vec<u8>,
    pub pid: u32,
}

/// The content of a request.
pub struct CallView {
    pub method: Seq<char>,
    pub path: Seq<char>,
    pub query: Seq<char>,
    pub body: Seq<u8>,
    pub payload: Option<Seq<FieldView>>,
    pub range: Option<Seq<char>>,
    pub user: Option<i64>,
    pub admin: bool,
    pub now: u64,
    pub secret: Seq<u8>,
    pub pid: u32,
}

impl View for StorageCall {
    type V = CallView;

    open spec fn view(&self) -> CallView {
        CallView {
            method: self.method@,
            path: self.path@,
            query: self.query@,
            body: self.body@,
            payload: match self.payload {
                Some(fs) => Some(fields_of(fs@)),
                None => None,
            },
            range: opt_text(self.range),
            user: self.user_id,
            admin: self.is_admin,
            now: self.now,
            secret: self.secret@,
            pid: self.pid,
        }
    }
}

/// What happened: a request came, an SQL statement answered (its rows, or its error's
/// text), a file was read (`None` when it cannot be), a file was written (whether it
/// was), or a file or directory was removed or made.
#[derive(Debug)]
pub enum StorageEvent {
    Request(StorageCall),
    Rows(Result<Vec<Vec<Value>>, String>),
    FileRead(Option<Vec<u8>>),
    FileWritten(bool),
    FileDone,
}

/// The content of an event.
pub enum StorageEventView {
    Request(CallView),
    Rows(Result<Seq<Seq<ValueView>>, Seq<char>>),
    FileRead(Option<Seq<u8>>),
    FileWritten(bool),
    FileDone,
}

impl View for StorageEvent {
    type V = StorageEventView;

    open spec fn view(&self) -> StorageEventView {
        match self {
            StorageEvent::Request(c) => StorageEventView::Request(c@),
            StorageEvent::Rows(r) => StorageEventView::Rows(
                match r {
                    Ok(rows) => Ok(rows_view(rows@)),
                    Err(e) => Err(e@),
                },
            ),
            StorageEvent::FileRead(b) => StorageEventView::FileRead(
                match b {
                    Some(x) => Some(x@),
                    None => None,
                },
            ),
            StorageEvent::FileWritten(ok) => StorageEventView::FileWritten(*ok),
            StorageEvent::FileDone => StorageEventView::FileDone,
        }
    }
}

/// What to do next.
#[derive(Debug)]
pub enum StorageRouteAction {
    /// Run an SQL statement, as the administrator or as the caller, and report its rows.
    Sql { text: String, admin: bool },
    /// Read the file of an object and report its bytes.
    ReadFile { bucket: String, key: String },
    /// Write the file of an object (making its directories) and report whether it was.
    WriteFile { bucket: String, key: String, bytes: Vec<u8> },
    /// Remove the file of an object and report.
    RemoveFile { bucket: String, key: String },
    /// Make a bucket's directory and report.
    MakeDir { bucket: String },
    /// Remove a bucket's directory with its contents and report.
    RemoveDir { bucket: String },
    /// Answer with a status and a JSON body.
    Answer { status: u16, body: String },
    /// Answer with an object's bytes, content type, content range and entity tag.
    Serve { status: u16, bytes: Vec<u8>, content_type: String, content_range: Option<String>, etag: String },
    /// Nothing: the event does not belong to the state.
    Ignore,
}

/// The content of an action.
pub enum ActionView {
    Sql { text: Seq<char>, admin: bool },
    ReadFile { bucket: Seq<char>, key: Seq<char> },
    WriteFile { bucket: Seq<char>, key: Seq<char>, bytes: Seq<u8> },
    RemoveFile { bucket: Seq<char>, key: Seq<char> },
    MakeDir { bucket: Seq<char> },
    RemoveDir { bucket: Seq<char> },
    Answer { status: u16, body: Seq<char> },
    Serve { status: u16, bytes: Seq<u8>, content_type: Seq<char>, content_range: Option<Seq<char>>, etag: Seq<char> },
    Ignore,
}

impl View for StorageRouteAction {
    type V = ActionView;

    open spec fn view(&self) -> ActionView {
        match self {
            StorageRouteAction::Sql { text, admin } => ActionView::Sql { text: text@, admin: *admin },
            StorageRouteAction::ReadFile { bucket, key } => ActionView::ReadFile { bucket: bucket@, key: key@ },
            StorageRouteAction::WriteFile { bucket, key, bytes } => ActionView::WriteFile {
                bucket: bucket@,
                key: key@,
                bytes: bytes@,
            },
            StorageRouteAction::RemoveFile { bucket, key } => ActionView::RemoveFile { bucket: bucket@, key: key@ },
            StorageRouteAction::MakeDir { bucket } => ActionView::MakeDir { bucket: bucket@ },
            StorageRouteAction::RemoveDir { bucket } => ActionView::RemoveDir { bucket: bucket@ },
            StorageRouteAction::Answer { status, body } => ActionView::Answer { status: *status, body: body@ },
            StorageRouteAction::Serve { status, bytes, content_type, content_range, etag } => ActionView::Serve {
                status: *status,
                bytes: bytes@,
                content_type: content_type@,
                content_range: opt_text(*content_range),
                etag: etag@,
            },
            StorageRouteAction::Ignore => ActionView::Ignore,
        }
    }
}

/// Where a storage request stands.
#[derive(Debug, Clone, Copy, PartialEq, Eq, Structural)]
pub enum Stage {
    /// No request yet.
    Idle,
    /// An S3 upload's file is being written.
    PutWritten,
    /// A statement runs; then the pending answer is given.
    SqlThenAnswer,
    /// A file is being removed; then the pending statement runs.
    RemovedThenSql,
    /// A directory is being made or removed; then the pending answer is given.
    DirThenAnswer,
    /// A file is being read; then it is served, or the pending answer given.
    ReadThenServe,
    /// An S3 listing's query runs.
    S3Listing,
    /// The bucket list's query runs.
    BucketListing,
    /// A bucket is being recorded.
    BucketCreate,
    /// A bucket is being looked up.
    BucketFetch,
    /// A bucket is being forgotten.
    BucketDrop,
    /// An object listing waits for whether the bucket is public.
    ListPublic,
    /// An object listing's query runs.
    ObjListing,
    /// An object request waits for whether the bucket is public.
    ObjPublic,
    /// An object request waits for the object's owner.
    ObjOwner,
    /// An upload's file is being written.
    ObjWritten,
    /// A link signing waits for whether the bucket is public.
    SignPublic,
    /// A link signing waits for the object's owner.
    SignOwner,
    /// A lifecycle rule is being recorded.
    RuleAdd,
    /// A bucket's lifecycle rules are being read.
    RuleList,
    /// A file is being written; then the pending statement runs.
    WrittenThenSql,
    /// A statement runs; then the pending one runs.
    SqlThenSql,
    /// An upload session is being looked up.
    SessionLookup,
    /// An upload session's staged bytes are being read.
    PatchRead,
    /// An upload session's staged bytes are being written.
    PatchWritten,
    /// A finished upload's object is being written.
    FinalWritten,
    /// A finished upload's staged bytes are being removed.
    StagingRemoved,
    /// Answered.
    Done,
}

/// Where a storage request stands, with what the next steps need.
#[derive(Debug)]
pub struct StorageRouteState {
    pub stage: Stage,
    pub method: String,
    pub bucket: String,
    pub key: String,
    pub user: Option<i64>,
    pub admin: bool,
    pub signed_ok: bool,
    pub public: bool,
    pub body: Vec<u8>,
    pub range: Option<String>,
    pub now: u64,
    pub status: u16,
    pub answer: String,
    pub sql: String,
    pub content_type: String,
    pub expires_in: u64,
    pub secret: Vec<u8>,
    pub name: String,
    pub total: i64,
}

/// The content of a state.
pub struct StateView {
    pub stage: Stage,
    pub method: Seq<char>,
    pub bucket: Seq<char>,
    pub key: Seq<char>,
    pub user: Option<i64>,
    pub admin: bool,
    pub signed_ok: bool,
    pub public: bool,
    pub body: Seq<u8>,
    pub range: Option<Seq<char>>,
    pub now: u64,
    pub status: u16,
    pub answer: Seq<char>,
    pub sql: Seq<char>,
    pub content_type: Seq<char>,
    pub expires_in: u64,
    pub secret: Seq<u8>,
    pub name: Seq<char>,
    pub total: i64,
}

impl View for StorageRouteState {
    type V = StateView;

    open spec fn view(&self) -> StateView {
        StateView {
            stage: self.stage,
            method: self.method@,
            bucket: self.bucket@,
            key: self.key@,
            user: self.user,
            admin: self.admin,
            signed_ok: self.signed_ok,
            public: self.public,
            body: self.body@,
            range: opt_text(self.range),
            now: self.now,
            status: self.status,
            answer: self.answer@,
            sql: self.sql@,
            content_type: self.content_type@,
            expires_in: self.expires_in,
            secret: self.secret@,
            name: self.name@,
            total: self.total,
        }
    }
}

/// A state at `stage` that carries nothing.
pub open spec fn bare(stage: Stage) -> StateView {
    StateView {
        stage,
        method: Seq::empty(),
        bucket: Seq::empty(),
        key: Seq::empty(),
        user: None,
        admin: false,
        signed_ok: false,
        public: false,
        body: Seq::empty(),
        range: None,
        now: 0,
        status: 0,
        answer: Seq::empty(),
        sql: Seq::empty(),
        content_type: Seq::empty(),
        expires_in: 0,
        secret: Seq::empty(),
        name: Seq::empty(),
        total: 0,
    }
}

/// A state at `stage` for an object (or a bucket, with an empty key).
pub open spec fn at_object(stage: Stage, bucket: Seq<char>, key: Seq<char>) -> StateView {
    StateView { bucket, key, ..bare(stage) }
}

/// Waiting to give `status` with `answer` after the step at `stage`.
pub open spec fn pending(stage: Stage, status: u16, answer: Seq<char>) -> StateView {
    StateView { status, answer, ..bare(stage) }
}

/// Answered with `status` and `body`.
pub open spec fn answered(status: u16, body: Seq<char>) -> (StateView, ActionView) {
    (bare(Stage::Done), ActionView::Answer { status, body })
}

/// The path of an object within the storage: bucket and key joined with `/`.
pub open spec fn object_id(bucket: Seq<char>, key: Seq<char>) -> Seq<char> {
    bucket + "/"@ + key
}

/// The first step of a request on `/s3/<bucket>/<key>`.
pub open spec fn s3_object_step(c: CallView, b: Seq<char>, k: Seq<char>) -> (StateView, ActionView) {
    if c.method == "PUT"@ {
        (
            StateView { body: c.body, now: c.now, ..at_object(Stage::PutWritten, b, k) },
            ActionView::WriteFile { bucket: b, key: k, bytes: c.body },
        )
    } else if c.method == "GET"@ {
        (
            StateView {
                range: c.range,
                content_type: "application/octet-stream"@,
                ..pending(Stage::ReadThenServe, 404, error_json("NoSuchKey"@))
            },
            ActionView::ReadFile { bucket: b, key: k },
        )
    } else if c.method == "DELETE"@ {
        (
            StateView { sql: object_delete_sql(object_id(b, k)), ..pending(Stage::RemovedThenSql, 204, "null"@) },
            ActionView::RemoveFile { bucket: b, key: k },
        )
    } else {
        answered(405, error_json("MethodNotAllowed"@))
    }
}

/// The first step of a request on `/object/<bucket>/<key>`: GET, POST and DELETE look up
/// whether the bucket is public; other methods are refused.
pub open spec fn object_request_step(c: CallView, b: Seq<char>, k: Seq<char>) -> (StateView, ActionView) {
    if c.method == "GET"@ || c.method == "POST"@ || c.method == "DELETE"@ {
        (
            StateView {
                method: c.method,
                user: c.user,
                admin: c.admin,
                signed_ok: c.method == "GET"@ && signed_link_ok(c.query, b, k, c.secret, c.now),
                body: c.body,
                range: c.range,
                now: c.now,
                ..at_object(Stage::ObjPublic, b, k)
            },
            ActionView::Sql { text: bucket_public_sql(b), admin: true },
        )
    } else {
        answered(405, error_json("method not allowed"@))
    }
}

/// The first step of `POST /bucket`.
pub open spec fn bucket_create_step(c: CallView) -> (StateView, ActionView) {
    match c.payload {
        None => answered(400, error_json("invalid JSON body"@)),
        Some(fs) => {
            let id_text = match lookup(fs, "id"@) {
                Some(f) => f.text,
                None => match lookup(fs, "name"@) {
                    Some(f) => f.text,
                    None => None,
                },
            };
            match id_text {
                None => answered(400, error_json("missing bucket id/name"@)),
                Some(t) => {
                    let id = spec_sanitize(t);
                    let name = match lookup(fs, "name"@) {
                        Some(f) => match f.text {
                            Some(n) => n,
                            None => id,
                        },
                        None => id,
                    };
                    let public = match lookup(fs, "public"@) {
                        Some(f) => match f.flag {
                            Some(b) => b,
                            None => false,
                        },
                        None => false,
                    };
                    (
                        at_object(Stage::BucketCreate, id, Seq::empty()),
                        ActionView::Sql { text: bucket_insert_sql(id, name, public, c.now), admin: false },
                    )
                },
            }
        },
    }
}

/// Where an upload session's bytes are staged.
pub open spec fn staging() -> Seq<char> {
    "tmp_resumable"@
}

/// An integer cell's value, else 0.
pub open spec fn i64_of(v: ValueView) -> i64 {
    match v {
        ValueView::Integer(i) => i,
        _ => 0,
    }
}

/// The name of an upload session started at `now` by process `pid`.
pub open spec fn session_name(now: u64, pid: u32) -> Seq<char> {
    "sess_"@ + nat_decimal(now as nat) + "_"@ + nat_decimal(pid as nat)
}

/// Records an upload session.
pub open spec fn session_insert_sql(
    sess: Seq<char>,
    bucket: Seq<char>,
    name: Seq<char>,
    owner: Option<i64>,
    ct: Seq<char>,
    total: i64,
    now: u64,
) -> Seq<char> {
    "INSERT INTO _storage_resumable_sessions (id, bucket_id, name, owner_id, content_type, total_size, uploaded_offset, created_at, updated_at) VALUES ("@
        + quoted(sess) + ", "@ + quoted(bucket) + ", "@ + quoted(name) + ", "@ + owner_literal(owner) + ", "@ + quoted(ct)
        + ", "@ + int_decimal(total as int) + ", 0, "@ + nat_decimal(now as nat) + ", "@ + nat_decimal(now as nat) + ")"@
}

/// An upload session.
pub open spec fn session_select_sql(sid: Seq<char>) -> Seq<char> {
    "SELECT id, bucket_id, name, owner_id, content_type, total_size, uploaded_offset FROM _storage_resumable_sessions WHERE id = "@
        + quoted(sid)
}

/// Forgets an upload session.
pub open spec fn session_delete_sql(sid: Seq<char>) -> Seq<char> {
    "DELETE FROM _storage_resumable_sessions WHERE id = "@ + quoted(sid)
}

/// Records how far an upload session has come.
pub open spec fn session_update_sql(off: nat, now: u64, sid: Seq<char>) -> Seq<char> {
    "UPDATE _storage_resumable_sessions SET uploaded_offset = "@ + nat_decimal(off) + ", updated_at = "@ + nat_decimal(
        now as nat,
    ) + " WHERE id = "@ + quoted(sid)
}

/// The answer to a started upload session.
pub open spec fn session_created_json(sess: Seq<char>) -> Seq<char> {
    "{\"location\":"@ + json_str("/v1/storage/v1/upload/resumable/"@ + sess) + ",\"session_id\":"@ + json_str(sess)
        + ",\"status\":\"created\"}"@
}

/// The answer to a finished upload.
pub open spec fn completed_json(bucket: Seq<char>, etag: Seq<char>, name: Seq<char>, off: nat) -> Seq<char> {
    "{\"bucket_id\":"@ + json_str(bucket) + ",\"etag\":"@ + json_str(etag) + ",\"name\":"@ + json_str(name)
        + ",\"size_bytes\":"@ + nat_decimal(off) + ",\"status\":\"completed\",\"uploaded_offset\":"@ + nat_decimal(off) + "}"@
}

/// The answer to a chunk that does not finish an upload.
pub open spec fn progress_json(off: nat, total: i64) -> Seq<char> {
    "{\"status\":\"in_progress\",\"total_size\":"@ + int_decimal(total as int) + ",\"uploaded_offset\":"@ + nat_decimal(off)
        + "}"@
}

/// An upload session's state.
pub open spec fn session_json(bucket: Seq<char>, name: Seq<char>, sid: Seq<char>, total: i64, cur: i64) -> Seq<char> {
    "{\"bucket_id\":"@ + json_str(bucket) + ",\"name\":"@ + json_str(name) + ",\"session_id\":"@ + json_str(sid)
        + ",\"total_size\":"@ + int_decimal(total as int) + ",\"uploaded_offset\":"@ + int_decimal(cur as int) + "}"@
}

/// The answer to a canceled upload session.
pub open spec fn canceled_json(sid: Seq<char>) -> Seq<char> {
    "{\"session_id\":"@ + json_str(sid) + ",\"status\":\"canceled\"}"@
}

/// The first step of `POST /upload/resumable`: stage an empty file for a new session.
pub open spec fn upload_create_step(c: CallView) -> (StateView, ActionView) {
    match c.payload {
        None => answered(400, error_json("invalid JSON body"@)),
        Some(fs) => {
            let b = match lookup(fs, "bucket_id"@) {
                Some(f) => f.text,
                None => None,
            };
            let n = match lookup(fs, "object_name"@) {
                Some(f) => f.text,
                None => match lookup(fs, "name"@) {
                    Some(f) => f.text,
                    None => None,
                },
            };
            if b is None {
                answered(400, error_json("missing bucket_id"@))
            } else if n is None {
                answered(400, error_json("missing object_name"@))
            } else {
                let ct = match lookup(fs, "content_type"@) {
                    Some(f) => match f.text {
                        Some(t) => t,
                        None => "application/octet-stream"@,
                    },
                    None => "application/octet-stream"@,
                };
                let total: i64 = match lookup(fs, "total_size"@) {
                    Some(f) => match f.signed {
                        Some(t) => t,
                        None => 0,
                    },
                    None => 0,
                };
                let sess = session_name(c.now, c.pid);
                (
                    StateView {
                        sql: session_insert_sql(
                            sess,
                            spec_sanitize(b.unwrap()),
                            spec_sanitize(n.unwrap()),
                            c.user,
                            ct,
                            total,
                            c.now,
                        ),
                        ..pending(Stage::WrittenThenSql, 201, session_created_json(sess))
                    },
                    ActionView::WriteFile { bucket: staging(), key: sess, bytes: Seq::empty() },
                )
            }
        },
    }
}

/// The session a request on `/upload/resumable/<id>` names (surrounding slashes and
/// whitespace dropped).
pub open spec fn session_of(rest: Seq<char>) -> Seq<char> {
    spec_trim(trim_start_all(rest, "/"@))
}

/// Whether a request on the upload route is answered there: a new session, or one named.
pub open spec fn upload_handles(method: Seq<char>, sid: Seq<char>) -> bool {
    (method == "POST"@ && sid.len() == 0) || sid.len() > 0
}

/// What a request on an upload session does once the session is looked up.
pub open spec fn session_found_step(s: StateView, r: Result<Seq<Seq<ValueView>>, Seq<char>>) -> (StateView, ActionView) {
    if ok_rows(r).len() > 0 {
        let row = ok_rows(r)[0];
        let b = text_of(cell(row, 1));
        let n = text_of(cell(row, 2));
        let ct = match cell(row, 4) {
            ValueView::Text(t) => t,
            _ => "application/octet-stream"@,
        };
        let total = i64_of(cell(row, 5));
        let cur = i64_of(cell(row, 6));
        if s.method == "PATCH"@ {
            (
                StateView {
                    key: s.key,
                    bucket: b,
                    name: n,
                    content_type: ct,
                    total,
                    user: s.user,
                    body: s.body,
                    now: s.now,
                    ..bare(Stage::PatchRead)
                },
                ActionView::ReadFile { bucket: staging(), key: s.key },
            )
        } else if s.method == "GET"@ {
            answered(200, session_json(b, n, s.key, total, cur))
        } else if s.method == "DELETE"@ {
            (
                StateView { sql: session_delete_sql(s.key), ..pending(Stage::RemovedThenSql, 200, canceled_json(s.key)) },
                ActionView::RemoveFile { bucket: staging(), key: s.key },
            )
        } else {
            answered(404, error_json("storage endpoint not found"@))
        }
    } else {
        answered(404, error_json("upload session not found"@))
    }
}

/// The lifetime in seconds a link signing asks for (`expiresIn`, else an hour).
pub open spec fn sign_expiry(p: Option<Seq<FieldView>>) -> u64 {
    match p {
        Some(fs) => match lookup(fs, "expiresIn"@) {
            Some(f) => match f.unsigned {
                Some(n) => n,
                None => 3600,
            },
            None => 3600,
        },
        None => 3600,
    }
}

/// The first step of `POST /object/sign/<bucket>/<key>`.
pub open spec fn sign_step(c: CallView, b: Seq<char>, k: Seq<char>) -> (StateView, ActionView) {
    (
        StateView {
            user: c.user,
            admin: c.admin,
            now: c.now,
            expires_in: sign_expiry(c.payload),
            secret: c.secret,
            ..at_object(Stage::SignPublic, b, k)
        },
        ActionView::Sql { text: bucket_public_sql(b), admin: true },
    )
}

/// The first step of a request on a bucket's lifecycle rules (for the administrator).
pub open spec fn lifecycle_step(c: CallView, b: Seq<char>) -> (StateView, ActionView) {
    if !c.admin {
        answered(403, error_json("admin privileges required for lifecycle rules"@))
    } else if c.method == "POST"@ {
        let fs = match c.payload {
            Some(f) => f,
            None => Seq::empty(),
        };
        let prefix = match lookup(fs, "prefix"@) {
            Some(f) => match f.text {
                Some(t) => t,
                None => Seq::empty(),
            },
            None => Seq::empty(),
        };
        let days: i64 = match lookup(fs, "expiry_days"@) {
            Some(f) => match f.signed {
                Some(d) => d,
                None => 30,
            },
            None => 30,
        };
        let id = rule_id(b, prefix, days);
        (
            pending(Stage::RuleAdd, 201, rule_json(id, b, prefix, days)),
            ActionView::Sql { text: rule_insert_sql(id, b, prefix, days, c.now), admin: true },
        )
    } else if c.method == "GET"@ {
        (bare(Stage::RuleList), ActionView::Sql { text: rules_list_sql(b), admin: true })
    } else if c.method == "DELETE"@ {
        (
            pending(Stage::SqlThenAnswer, 200, message_json("lifecycle rules cleared"@)),
            ActionView::Sql { text: rules_delete_sql(b), admin: true },
        )
    } else {
        answered(405, error_json("method not allowed"@))
    }
}

/// Whether the last step of a link signing adds the lifetime to the time without
/// overflow.
pub open spec fn sign_fits(s: StateView) -> bool {
    s.stage == Stage::SignOwner ==> s.now + s.expires_in <= u64::MAX
}

/// The answer to a link signing once the bucket's privacy and the object's owner are
/// known: refused unless the bucket is public, the caller is the administrator or owns
/// the object; else a link valid until `now + expires_in`.
pub open spec fn sign_decision(s: StateView, owner: Option<Option<i64>>) -> (StateView, ActionView) {
    let owns = owner matches Some(Some(o)) && s.user == Some(o);
    if !s.public && !s.admin && !owns {
        answered(403, error_json("cannot generate signed URL for private object not owned by caller"@))
    } else {
        let e = (s.now + s.expires_in) as u64;
        let t = download_token(s.bucket, s.key, e, s.secret);
        answered(200, signed_json(signed_url(s.bucket, s.key, t, e as nat), t, e as nat))
    }
}

/// The first step of a request on the storage API, by its path: an S3 object or listing;
/// the image transformation route; the bucket list and bucket creation; one bucket; an
/// object listing; one object; anything else is not found.
pub open spec fn request_step(c: CallView) -> (StateView, ActionView) {
    let s3 = strip_either(c.path, "/v1/storage/s3/"@, "/s3/"@);
    if s3 is Some && split_once(s3.unwrap(), '/') is Some {
        let parts = split_once(s3.unwrap(), '/').unwrap();
        s3_object_step(c, spec_sanitize(parts.0), spec_sanitize(parts.1))
    } else if s3 is Some && c.method == "GET"@ {
        let b = spec_sanitize(s3.unwrap());
        (at_object(Stage::S3Listing, b, Seq::empty()), ActionView::Sql { text: s3_list_sql(b), admin: true })
    } else {
        let sp = match strip_prefix(c.path, "/v1/storage/v1"@) {
            Some(r) => r,
            None => c.path,
        };
        if strip_prefix(sp, "/render/image/"@) is Some {
            let clean = trim_start_all(strip_prefix(sp, "/render/image/"@).unwrap(), "/"@);
            match split_once(clean, '/') {
                Some((b, o)) => answered(200, render_json(b, o)),
                None => answered(400, error_json("invalid image render path"@)),
            }
        } else if strip_prefix(sp, "/upload/resumable"@) is Some && upload_handles(
            c.method,
            session_of(strip_prefix(sp, "/upload/resumable"@).unwrap()),
        ) {
            let sid = session_of(strip_prefix(sp, "/upload/resumable"@).unwrap());
            if sid.len() == 0 {
                upload_create_step(c)
            } else {
                (
                    StateView { method: c.method, key: sid, user: c.user, body: c.body, now: c.now, ..bare(Stage::SessionLookup) },
                    ActionView::Sql { text: session_select_sql(sid), admin: true },
                )
            }
        } else if starts_with(sp, "/object/sign/"@) && c.method == "POST"@ && split_once(
            sp.subrange(13, sp.len() as int),
            '/',
        ) is Some {
            let parts = split_once(sp.subrange(13, sp.len() as int), '/').unwrap();
            sign_step(c, spec_sanitize(parts.0), spec_sanitize(parts.1))
        } else if sp == "/bucket"@ || sp == "/bucket/"@ {
            if c.method == "GET"@ {
                (bare(Stage::BucketListing), ActionView::Sql { text: buckets_list_sql(), admin: false })
            } else if c.method == "POST"@ {
                bucket_create_step(c)
            } else {
                answered(405, error_json("method not allowed"@))
            }
        } else if strip_prefix(sp, "/bucket/"@) is Some && split_once(strip_prefix(sp, "/bucket/"@).unwrap(), '/') is Some
            && split_once(strip_prefix(sp, "/bucket/"@).unwrap(), '/').unwrap().1 == "lifecycle"@ {
            lifecycle_step(c, spec_sanitize(split_once(strip_prefix(sp, "/bucket/"@).unwrap(), '/').unwrap().0))
        } else if strip_prefix(sp, "/bucket/"@) is Some {
            let id = spec_sanitize(strip_prefix(sp, "/bucket/"@).unwrap());
            if c.method == "GET"@ {
                (bare(Stage::BucketFetch), ActionView::Sql { text: bucket_get_sql(id), admin: false })
            } else if c.method == "DELETE"@ {
                (at_object(Stage::BucketDrop, id, Seq::empty()), ActionView::Sql { text: bucket_delete_sql(id), admin: false })
            } else {
                answered(405, error_json("method not allowed"@))
            }
        } else if strip_prefix(sp, "/object/list/"@) is Some {
            let b = spec_sanitize(strip_prefix(sp, "/object/list/"@).unwrap());
            (
                StateView { user: c.user, admin: c.admin, ..at_object(Stage::ListPublic, b, Seq::empty()) },
                ActionView::Sql { text: bucket_public_sql(b), admin: true },
            )
        } else if strip_prefix(sp, "/object/"@) is Some {
            let os = strip_prefix(sp, "/object/"@).unwrap();
            let clean = match strip_prefix(os, "public/"@) {
                Some(r) => r,
                None => os,
            };
            match split_once(clean, '/') {
                Some((b, k)) => object_request_step(c, spec_sanitize(b), spec_sanitize(k)),
                None => answered(400, error_json("missing bucket or object key"@)),
            }
        } else {
            answered(404, error_json("storage endpoint not found"@))
        }
    }
}

/// The rows of a statement that succeeded; none for one that failed.
pub open spec fn ok_rows(r: Result<Seq<Seq<ValueView>>, Seq<char>>) -> Seq<Seq<ValueView>> {
    match r {
        Ok(rows) => rows,
        Err(_) => Seq::empty(),
    }
}

/// Whether a lookup of a bucket's `public` column found it public.
pub open spec fn found_public(r: Result<Seq<Seq<ValueView>>, Seq<char>>) -> bool {
    ok_rows(r).len() > 0 && is_true(cell(ok_rows(r)[0], 0))
}

/// The owner a lookup of an object found: none when no object is recorded; else its
/// owner, if it has one.
pub open spec fn found_owner(r: Result<Seq<Seq<ValueView>>, Seq<char>>) -> Option<Option<i64>> {
    if ok_rows(r).len() > 0 {
        Some(
            match cell(ok_rows(r)[0], 0) {
                ValueView::Integer(i) => Some(i),
                _ => None,
            },
        )
    } else {
        None
    }
}

/// The message of a refused object request.
pub open spec fn refusal_message(method: Seq<char>, status: u16) -> Seq<char> {
    if method == "GET"@ {
        if status == 401 {
            "access denied to private object"@
        } else {
            "access denied to private object owned by another user"@
        }
    } else if method == "POST"@ {
        if status == 401 {
            "authentication required to upload to private bucket"@
        } else {
            "cannot overwrite object owned by another user"@
        }
    } else {
        "cannot delete object owned by another user"@
    }
}

/// What an object request does once the bucket's privacy and the object's owner are
/// known (see `spec_storage_step`).
pub open spec fn object_decision_step(s: StateView, owner: Option<Option<i64>>) -> (StateView, ActionView) {
    let meta = ObjectMeta { bucket_public: s.public, owner };
    match spec_storage_step(s.method, s.user, s.admin, s.signed_ok, meta) {
        StorageAction::Refuse(code) => answered(code, error_json(refusal_message(s.method, code))),
        StorageAction::Serve => (
            StateView {
                range: s.range,
                content_type: content_type_for(s.key),
                ..pending(Stage::ReadThenServe, 404, error_json("object not found"@))
            },
            ActionView::ReadFile { bucket: s.bucket, key: s.key },
        ),
        StorageAction::Store => (
            StateView { user: s.user, body: s.body, now: s.now, ..at_object(Stage::ObjWritten, s.bucket, s.key) },
            ActionView::WriteFile { bucket: s.bucket, key: s.key, bytes: s.body },
        ),
        StorageAction::Remove => (
            StateView {
                sql: object_delete_sql(object_id(s.bucket, s.key)),
                ..pending(Stage::RemovedThenSql, 200, message_json("object deleted"@))
            },
            ActionView::RemoveFile { bucket: s.bucket, key: s.key },
        ),
        StorageAction::MethodNotAllowed => answered(405, error_json("method not allowed"@)),
    }
}

/// Serving an object's bytes: the part a `Range` header asks for (206), else all (200).
pub open spec fn serve(bytes: Seq<u8>, range: Option<Seq<char>>, ct: Seq<char>) -> ActionView {
    match spec_byte_range(range, bytes.len()) {
        Some((a, b)) => ActionView::Serve {
            status: 206,
            bytes: bytes.subrange(a as int, b as int + 1),
            content_type: ct,
            content_range: Some(spec_bytes_content_range(a, b, bytes.len())),
            etag: spec_etag(bytes),
        },
        None => ActionView::Serve { status: 200, bytes, content_type: ct, content_range: None, etag: spec_etag(bytes) },
    }
}

/// The next state and action of a storage request.
pub open spec fn spec_storage_route(s: StateView, e: StorageEventView) -> (StateView, ActionView) {
    match (s.stage, e) {
        (Stage::Idle, StorageEventView::Request(c)) => request_step(c),
        (Stage::PutWritten, StorageEventView::FileWritten(ok)) => if !ok {
            answered(500, error_json("failed to write object"@))
        } else {
            (
                pending(Stage::SqlThenAnswer, 200, s3_put_json(s.bucket, s.key, spec_etag(s.body))),
                ActionView::Sql {
                    text: object_insert_sql(
                        object_id(s.bucket, s.key),
                        s.bucket,
                        s.key,
                        None,
                        "application/octet-stream"@,
                        s.body.len(),
                        s.now,
                    ),
                    admin: true,
                },
            )
        },
        (Stage::ObjWritten, StorageEventView::FileWritten(ok)) => if !ok {
            answered(500, error_json("failed to write object to disk"@))
        } else {
            (
                pending(
                    Stage::SqlThenAnswer,
                    200,
                    upload_json(object_id(s.bucket, s.key), s.body.len(), hex_bytes(sha256(s.body))),
                ),
                ActionView::Sql {
                    text: object_insert_sql(
                        object_id(s.bucket, s.key),
                        s.bucket,
                        s.key,
                        s.user,
                        "application/octet-stream"@,
                        s.body.len(),
                        s.now,
                    ),
                    admin: true,
                },
            )
        },
        (Stage::SqlThenAnswer, StorageEventView::Rows(_)) => answered(s.status, s.answer),
        (Stage::RemovedThenSql, StorageEventView::FileDone) => (
            pending(Stage::SqlThenAnswer, s.status, s.answer),
            ActionView::Sql { text: s.sql, admin: true },
        ),
        (Stage::DirThenAnswer, StorageEventView::FileDone) => answered(s.status, s.answer),
        (Stage::ReadThenServe, StorageEventView::FileRead(r)) => match r {
            Some(bytes) => (bare(Stage::Done), serve(bytes, s.range, s.content_type)),
            None => answered(s.status, s.answer),
        },
        (Stage::S3Listing, StorageEventView::Rows(r)) => answered(200, s3_listing_json(s.bucket, ok_rows(r))),
        (Stage::BucketListing, StorageEventView::Rows(r)) => answered(200, buckets_json(ok_rows(r))),
        (Stage::BucketCreate, StorageEventView::Rows(r)) => match r {
            Ok(_) => (pending(Stage::DirThenAnswer, 201, created_json(s.bucket)), ActionView::MakeDir { bucket: s.bucket }),
            Err(msg) => answered(400, error_json(msg)),
        },
        (Stage::BucketFetch, StorageEventView::Rows(r)) => if ok_rows(r).len() > 0 {
            answered(200, bucket_json(ok_rows(r)[0]))
        } else {
            answered(404, error_json("bucket not found"@))
        },
        (Stage::BucketDrop, StorageEventView::Rows(_)) => (
            pending(Stage::DirThenAnswer, 200, message_json("bucket deleted"@)),
            ActionView::RemoveDir { bucket: s.bucket },
        ),
        (Stage::ListPublic, StorageEventView::Rows(r)) => {
            let public = found_public(r);
            if !public && s.user is None && !s.admin {
                answered(401, error_json("access denied to private bucket"@))
            } else {
                (
                    bare(Stage::ObjListing),
                    ActionView::Sql {
                        text: object_list_sql(
                            s.bucket,
                            if s.admin || public {
                                None
                            } else {
                                Some(
                                    match s.user {
                                        Some(u) => u,
                                        None => 0,
                                    },
                                )
                            },
                        ),
                        admin: true,
                    },
                )
            }
        },
        (Stage::ObjListing, StorageEventView::Rows(r)) => answered(200, objects_json(ok_rows(r))),
        (Stage::ObjPublic, StorageEventView::Rows(r)) => (
            StateView { stage: Stage::ObjOwner, public: found_public(r), ..s },
            ActionView::Sql { text: object_owner_sql(object_id(s.bucket, s.key)), admin: true },
        ),
        (Stage::ObjOwner, StorageEventView::Rows(r)) => object_decision_step(s, found_owner(r)),
        (Stage::SignPublic, StorageEventView::Rows(r)) => (
            StateView { stage: Stage::SignOwner, public: found_public(r), ..s },
            ActionView::Sql { text: object_owner_sql(object_id(s.bucket, s.key)), admin: true },
        ),
        (Stage::SignOwner, StorageEventView::Rows(r)) => sign_decision(s, found_owner(r)),
        (Stage::RuleAdd, StorageEventView::Rows(r)) => match r {
            Ok(_) => answered(s.status, s.answer),
            Err(msg) => answered(400, error_json(msg)),
        },
        (Stage::RuleList, StorageEventView::Rows(r)) => answered(200, rules_json(ok_rows(r))),
        (Stage::WrittenThenSql, StorageEventView::FileWritten(_)) => (
            pending(Stage::SqlThenAnswer, s.status, s.answer),
            ActionView::Sql { text: s.sql, admin: true },
        ),
        (Stage::SqlThenSql, StorageEventView::Rows(_)) => (
            pending(Stage::SqlThenAnswer, s.status, s.answer),
            ActionView::Sql { text: s.sql, admin: true },
        ),
        (Stage::SessionLookup, StorageEventView::Rows(r)) => session_found_step(s, r),
        (Stage::PatchRead, StorageEventView::FileRead(r)) => {
            let data = match r {
                Some(x) => x,
                None => Seq::empty(),
            } + s.body;
            (
                StateView { stage: Stage::PatchWritten, body: data, ..s },
                ActionView::WriteFile { bucket: staging(), key: s.key, bytes: data },
            )
        },
        (Stage::PatchWritten, StorageEventView::FileWritten(_)) => if s.body.len() >= s.total {
            (
                StateView { stage: Stage::FinalWritten, ..s },
                ActionView::WriteFile { bucket: s.bucket, key: s.name, bytes: s.body },
            )
        } else {
            (
                pending(Stage::SqlThenAnswer, 200, progress_json(s.body.len(), s.total)),
                ActionView::Sql { text: session_update_sql(s.body.len(), s.now, s.key), admin: true },
            )
        },
        (Stage::FinalWritten, StorageEventView::FileWritten(_)) => (
            StateView { stage: Stage::StagingRemoved, ..s },
            ActionView::RemoveFile { bucket: staging(), key: s.key },
        ),
        (Stage::StagingRemoved, StorageEventView::FileDone) => (
            StateView {
                sql: object_insert_sql(
                    object_id(s.bucket, s.name),
                    s.bucket,
                    s.name,
                    s.user,
                    s.content_type,
                    s.body.len(),
                    s.now,
                ),
                ..pending(
                    Stage::SqlThenSql,
                    200,
                    completed_json(s.bucket, spec_etag(s.body), s.name, s.body.len()),
                )
            },
            ActionView::Sql { text: session_delete_sql(s.key), admin: true },
        ),
        _ => (s, ActionView::Ignore),
    }
}

fn bare_state(stage: Stage) -> (r: StorageRouteState)
    ensures
        r@ == bare(stage),
{
    let r = StorageRouteState {
        stage,
        method: String::new(),
        bucket: String::new(),
        key: String::new(),
        user: None,
        admin: false,
        signed_ok: false,
        public: false,
        body: Vec::new(),
        range: None,
        now: 0,
        status: 0,
        answer: String::new(),
        sql: String::new(),
        content_type: String::new(),
        expires_in: 0,
        secret: Vec::new(),
        name: String::new(),
        total: 0,
    };
    assert(r@.body =~= Seq::<u8>::empty());
    assert(r@.secret =~= Seq::<u8>::empty());
    r
}

fn answer(status: u16, body: String) -> (r: (StorageRouteState, StorageRouteAction))
    ensures
        (r.0@, r.1@) == answered(status, body@),
{
    (bare_state(Stage::Done), StorageRouteAction::Answer { status, body })
}

fn object_path(bucket: &str, key: &str) -> (r: String)
    ensures
        r@ == object_id(bucket@, key@),
{
    let mut out: Vec<char> = Vec::new();
    push_str(&mut out, bucket);
    push_str(&mut out, "/");
    push_str(&mut out, key);
    assert(out@ =~= object_id(bucket@, key@));
    string_of(out.as_slice())
}

fn copy_opt(s: &Option<String>) -> (r: Option<String>)
    ensures
        opt_text(r) == opt_text(*s),
{
    match s {
        Some(x) => Some(x.clone()),
        None => None,
    }
}

fn s3_object(c: StorageCall, b: String, k: String) -> (r: (StorageRouteState, StorageRouteAction))
    ensures
        (r.0@, r.1@) == s3_object_step(c@, b@, k@),
{
    if str_equal(c.method.as_str(), "PUT") {
        let bytes = c.body.clone();
        let mut st = bare_state(Stage::PutWritten);
        st.bucket = b.clone();
        st.key = k.clone();
        st.body = c.body;
        st.now = c.now;
        (st, StorageRouteAction::WriteFile { bucket: b, key: k, bytes })
    } else if str_equal(c.method.as_str(), "GET") {
        let mut st = bare_state(Stage::ReadThenServe);
        st.status = 404;
        st.answer = error_answer("NoSuchKey");
        st.range = c.range;
        st.content_type = String::from_str("application/octet-stream");
        (st, StorageRouteAction::ReadFile { bucket: b, key: k })
    } else if str_equal(c.method.as_str(), "DELETE") {
        let mut st = bare_state(Stage::RemovedThenSql);
        st.status = 204;
        st.answer = String::from_str("null");
        let obj = object_path(b.as_str(), k.as_str());
        st.sql = object_delete(obj.as_str());
        (st, StorageRouteAction::RemoveFile { bucket: b, key: k })
    } else {
        answer(405, error_answer("MethodNotAllowed"))
    }
}

fn object_request(c: StorageCall, b: String, k: String) -> (r: (StorageRouteState, StorageRouteAction))
    ensures
        (r.0@, r.1@) == object_request_step(c@, b@, k@),
{
    let is_get = str_equal(c.method.as_str(), "GET");
    if is_get || str_equal(c.method.as_str(), "POST") || str_equal(c.method.as_str(), "DELETE") {
        let signed = is_get && signed_link(c.query.as_str(), b.as_str(), k.as_str(), c.secret.as_slice(), c.now);
        let sql = bucket_public(b.as_str());
        let mut st = bare_state(Stage::ObjPublic);
        st.bucket = b;
        st.key = k;
        st.method = c.method;
        st.user = c.user_id;
        st.admin = c.is_admin;
        st.signed_ok = signed;
        st.body = c.body;
        st.range = c.range;
        st.now = c.now;
        (st, StorageRouteAction::Sql { text: sql, admin: true })
    } else {
        answer(405, error_answer("method not allowed"))
    }
}

fn bucket_create(c: StorageCall) -> (r: (StorageRouteState, StorageRouteAction))
    ensures
        (r.0@, r.1@) == bucket_create_step(c@),
{
    let fs = match &c.payload {
        None => {
            return answer(400, error_answer("invalid JSON body"));
        },
        Some(fs) => fs,
    };
    let ghost fv = fields_of(fs@);
    let id_text: Option<String> = match lookup_exec(fs, "id") {
        Some(i) => copy_opt(&fs[i].text),
        None => match lookup_exec(fs, "name") {
            Some(i) => copy_opt(&fs[i].text),
            None => None,
        },
    };
    let t = match id_text {
        None => {
            return answer(400, error_answer("missing bucket id/name"));
        },
        Some(t) => t,
    };
    let id = sanitize_object_path(t.as_str());
    let name: String = match lookup_exec(fs, "name") {
        Some(i) => match &fs[i].text {
            Some(n) => n.clone(),
            None => id.clone(),
        },
        None => id.clone(),
    };
    let public = match lookup_exec(fs, "public") {
        Some(i) => match fs[i].flag {
            Some(b) => b,
            None => false,
        },
        None => false,
    };
    let sql = bucket_insert(id.as_str(), name.as_str(), public, c.now);
    let mut st = bare_state(Stage::BucketCreate);
    st.bucket = id;
    (st, StorageRouteAction::Sql { text: sql, admin: false })
}

fn session_name_exec(now: u64, pid: u32) -> (r: String)
    ensures
        r@ == session_name(now, pid),
{
    let mut out: Vec<char> = Vec::new();
    push_str(&mut out, "sess_");
    push_u64_decimal(&mut out, now);
    push_str(&mut out, "_");
    push_u64_decimal(&mut out, pid as u64);
    string_of(out.as_slice())
}

fn session_insert(sess: &str, bucket: &str, name: &str, owner: Option<i64>, ct: &str, total: i64, now: u64) -> (r: String)
    ensures
        r@ == session_insert_sql(sess@, bucket@, name@, owner, ct@, total, now),
{
    let mut out: Vec<char> = Vec::new();
    push_str(
        &mut out,
        "INSERT INTO _storage_resumable_sessions (id, bucket_id, name, owner_id, content_type, total_size, uploaded_offset, created_at, updated_at) VALUES (",
    );
    push_quoted(&mut out, sess);
    push_str(&mut out, ", ");
    push_quoted(&mut out, bucket);
    push_str(&mut out, ", ");
    push_quoted(&mut out, name);
    push_str(&mut out, ", ");
    push_owner(&mut out, owner);
    push_str(&mut out, ", ");
    push_quoted(&mut out, ct);
    push_str(&mut out, ", ");
    push_i64_decimal(&mut out, total);
    push_str(&mut out, ", 0, ");
    push_u64_decimal(&mut out, now);
    push_str(&mut out, ", ");
    push_u64_decimal(&mut out, now);
    push_str(&mut out, ")");
    string_of(out.as_slice())
}

fn session_select(sid: &str) -> (r: String)
    ensures
        r@ == session_select_sql(sid@),
{
    let mut out: Vec<char> = Vec::new();
    push_str(
        &mut out,
        "SELECT id, bucket_id, name, owner_id, content_type, total_size, uploaded_offset FROM _storage_resumable_sessions WHERE id = ",
    );
    push_quoted(&mut out, sid);
    string_of(out.as_slice())
}

fn session_delete(sid: &str) -> (r: String)
    ensures
        r@ == session_delete_sql(sid@),
{
    let mut out: Vec<char> = Vec::new();
    push_str(&mut out, "DELETE FROM _storage_resumable_sessions WHERE id = ");
    push_quoted(&mut out, sid);
    string_of(out.as_slice())
}

fn session_update(off: usize, now: u64, sid: &str) -> (r: String)
    ensures
        r@ == session_update_sql(off as nat, now, sid@),
{
    let mut out: Vec<char> = Vec::new();
    push_str(&mut out, "UPDATE _storage_resumable_sessions SET uploaded_offset = ");
    push_u64_decimal(&mut out, off as u64);
    push_str(&mut out, ", updated_at = ");
    push_u64_decimal(&mut out, now);
    push_str(&mut out, " WHERE id = ");
    push_quoted(&mut out, sid);
    string_of(out.as_slice())
}

fn session_created(sess: &str) -> (r: String)
    ensures
        r@ == session_created_json(sess@),
{
    let mut loc: Vec<char> = Vec::new();
    push_str(&mut loc, "/v1/storage/v1/upload/resumable/");
    push_str(&mut loc, sess);
    let loc_s = string_of(loc.as_slice());
    let mut out: Vec<char> = Vec::new();
    push_str(&mut out, "{\"location\":");
    push_json_str(&mut out, loc_s.as_str());
    push_str(&mut out, ",\"session_id\":");
    push_json_str(&mut out, sess);
    push_str(&mut out, ",\"status\":\"created\"}");
    string_of(out.as_slice())
}

fn completed(bucket: &str, etag: &str, name: &str, off: usize) -> (r: String)
    ensures
        r@ == completed_json(bucket@, etag@, name@, off as nat),
{
    let mut out: Vec<char> = Vec::new();
    push_str(&mut out, "{\"bucket_id\":");
    push_json_str(&mut out, bucket);
    push_str(&mut out, ",\"etag\":");
    push_json_str(&mut out, etag);
    push_str(&mut out, ",\"name\":");
    push_json_str(&mut out, name);
    push_str(&mut out, ",\"size_bytes\":");
    push_u64_decimal(&mut out, off as u64);
    push_str(&mut out, ",\"status\":\"completed\",\"uploaded_offset\":");
    push_u64_decimal(&mut out, off as u64);
    push_str(&mut out, "}");
    string_of(out.as_slice())
}

fn progress(off: usize, total: i64) -> (r: String)
    ensures
        r@ == progress_json(off as nat, total),
{
    let mut out: Vec<char> = Vec::new();
    push_str(&mut out, "{\"status\":\"in_progress\",\"total_size\":");
    push_i64_decimal(&mut out, total);
    push_str(&mut out, ",\"uploaded_offset\":");
    push_u64_decimal(&mut out, off as u64);
    push_str(&mut out, "}");
    string_of(out.as_slice())
}

fn session_state(bucket: &str, name: &str, sid: &str, total: i64, cur: i64) -> (r: String)
    ensures
        r@ == session_json(bucket@, name@, sid@, total, cur),
{
    let mut out: Vec<char> = Vec::new();
    push_str(&mut out, "{\"bucket_id\":");
    push_json_str(&mut out, bucket);
    push_str(&mut out, ",\"name\":");
    push_json_str(&mut out, name);
    push_str(&mut out, ",\"session_id\":");
    push_json_str(&mut out, sid);
    push_str(&mut out, ",\"total_size\":");
    push_i64_decimal(&mut out, total);
    push_str(&mut out, ",\"uploaded_offset\":");
    push_i64_decimal(&mut out, cur);
    push_str(&mut out, "}");
    string_of(out.as_slice())
}

fn canceled(sid: &str) -> (r: String)
    ensures
        r@ == canceled_json(sid@),
{
    let mut out: Vec<char> = Vec::new();
    push_str(&mut out, "{\"session_id\":");
    push_json_str(&mut out, sid);
    push_str(&mut out, ",\"status\":\"canceled\"}");
    string_of(out.as_slice())
}

fn upload_create(c: StorageCall) -> (r: (StorageRouteState, StorageRouteAction))
    ensures
        (r.0@, r.1@) == upload_create_step(c@),
{
    let fs = match &c.payload {
        None => {
            return answer(400, error_answer("invalid JSON body"));
        },
        Some(fs) => fs,
    };
    let b: Option<String> = match lookup_exec(fs, "bucket_id") {
        Some(i) => copy_opt(&fs[i].text),
        None => None,
    };
    let n: Option<String> = match lookup_exec(fs, "object_name") {
        Some(i) => copy_opt(&fs[i].text),
        None => match lookup_exec(fs, "name") {
            Some(i) => copy_opt(&fs[i].text),
            None => None,
        },
    };
    let b = match b {
        None => {
            return answer(400, error_answer("missing bucket_id"));
        },
        Some(b) => b,
    };
    let n = match n {
        None => {
            return answer(400, error_answer("missing object_name"));
        },
        Some(n) => n,
    };
    let ct: String = match lookup_exec(fs, "content_type") {
        Some(i) => match &fs[i].text {
            Some(t) => t.clone(),
            None => String::from_str("application/octet-stream"),
        },
        None => String::from_str("application/octet-stream"),
    };
    let total: i64 = match lookup_exec(fs, "total_size") {
        Some(i) => match fs[i].signed {
            Some(t) => t,
            None => 0,
        },
        None => 0,
    };
    let sess = session_name_exec(c.now, c.pid);
    let bs = sanitize_object_path(b.as_str());
    let ns = sanitize_object_path(n.as_str());
    let mut st = bare_state(Stage::WrittenThenSql);
    st.status = 201;
    st.answer = session_created(sess.as_str());
    st.sql = session_insert(sess.as_str(), bs.as_str(), ns.as_str(), c.user_id, ct.as_str(), total, c.now);
    let empty: Vec<u8> = Vec::new();
    assert(empty@ =~= Seq::<u8>::empty());
    (st, StorageRouteAction::WriteFile { bucket: String::from_str("tmp_resumable"), key: sess, bytes: empty })
}

fn session_found(s: &StorageRouteState, r: &Result<Vec<Vec<Value>>, String>) -> (out: (StorageRouteState, StorageRouteAction))
    ensures
        (out.0@, out.1@) == session_found_step(
            s@,
            match r {
                Ok(rows) => Ok(rows_view(rows@)),
                Err(e) => Err(e@),
            },
        ),
{
    let row = match r {
        Ok(rows) => {
            if rows.len() > 0 {
                assert(rows_view(rows@)[0] == row_view(rows@[0]@));
                &rows[0]
            } else {
                return answer(404, error_answer("upload session not found"));
            }
        },
        Err(_) => {
            return answer(404, error_answer("upload session not found"));
        },
    };
    let b = match cell_at(row, 1) {
        Value::Text(t) => t,
        _ => String::new(),
    };
    let n = match cell_at(row, 2) {
        Value::Text(t) => t,
        _ => String::new(),
    };
    let ct = match cell_at(row, 4) {
        Value::Text(t) => t,
        _ => String::from_str("application/octet-stream"),
    };
    let total: i64 = match cell_at(row, 5) {
        Value::Integer(t) => t,
        _ => 0,
    };
    let cur: i64 = match cell_at(row, 6) {
        Value::Integer(t) => t,
        _ => 0,
    };
    if str_equal(s.method.as_str(), "PATCH") {
        let mut st = bare_state(Stage::PatchRead);
        st.key = s.key.clone();
        st.bucket = b;
        st.name = n;
        st.content_type = ct;
        st.total = total;
        st.user = s.user;
        st.body = s.body.clone();
        st.now = s.now;
        (st, StorageRouteAction::ReadFile { bucket: String::from_str("tmp_resumable"), key: s.key.clone() })
    } else if str_equal(s.method.as_str(), "GET") {
        answer(200, session_state(b.as_str(), n.as_str(), s.key.as_str(), total, cur))
    } else if str_equal(s.method.as_str(), "DELETE") {
        let mut st = bare_state(Stage::RemovedThenSql);
        st.status = 200;
        st.answer = canceled(s.key.as_str());
        st.sql = session_delete(s.key.as_str());
        (st, StorageRouteAction::RemoveFile { bucket: String::from_str("tmp_resumable"), key: s.key.clone() })
    } else {
        answer(404, error_answer("storage endpoint not found"))
    }
}

fn sign_request(c: StorageCall, b: String, k: String) -> (r: (StorageRouteState, StorageRouteAction))
    ensures
        (r.0@, r.1@) == sign_step(c@, b@, k@),
{
    let expires_in: u64 = match &c.payload {
        Some(fs) => match lookup_exec(fs, "expiresIn") {
            Some(i) => match fs[i].unsigned {
                Some(n) => n,
                None => 3600,
            },
            None => 3600,
        },
        None => 3600,
    };
    let sql = bucket_public(b.as_str());
    let mut st = bare_state(Stage::SignPublic);
    st.bucket = b;
    st.key = k;
    st.user = c.user_id;
    st.admin = c.is_admin;
    st.now = c.now;
    st.expires_in = expires_in;
    st.secret = c.secret;
    (st, StorageRouteAction::Sql { text: sql, admin: true })
}

fn lifecycle_request(c: StorageCall, b: String) -> (r: (StorageRouteState, StorageRouteAction))
    ensures
        (r.0@, r.1@) == lifecycle_step(c@, b@),
{
    if !c.is_admin {
        return answer(403, error_answer("admin privileges required for lifecycle rules"));
    }
    if str_equal(c.method.as_str(), "POST") {
        let empty: Vec<BodyField> = Vec::new();
        let fs = match &c.payload {
            Some(f) => f,
            None => &empty,
        };
        assert(fields_of(empty@) =~= Seq::<FieldView>::empty());
        let prefix: String = match lookup_exec(fs, "prefix") {
            Some(i) => match &fs[i].text {
                Some(t) => t.clone(),
                None => String::new(),
            },
            None => String::new(),
        };
        let days: i64 = match lookup_exec(fs, "expiry_days") {
            Some(i) => match fs[i].signed {
                Some(d) => d,
                None => 30,
            },
            None => 30,
        };
        let id = rule_name(b.as_str(), prefix.as_str(), days);
        let sql = rule_insert(id.as_str(), b.as_str(), prefix.as_str(), days, c.now);
        let mut st = bare_state(Stage::RuleAdd);
        st.status = 201;
        st.answer = rule_answer(id.as_str(), b.as_str(), prefix.as_str(), days);
        (st, StorageRouteAction::Sql { text: sql, admin: true })
    } else if str_equal(c.method.as_str(), "GET") {
        (bare_state(Stage::RuleList), StorageRouteAction::Sql { text: rules_list(b.as_str()), admin: true })
    } else if str_equal(c.method.as_str(), "DELETE") {
        let mut st = bare_state(Stage::SqlThenAnswer);
        st.status = 200;
        st.answer = message_answer("lifecycle rules cleared");
        (st, StorageRouteAction::Sql { text: rules_delete(b.as_str()), admin: true })
    } else {
        answer(405, error_answer("method not allowed"))
    }
}

fn request(c: StorageCall) -> (r: (StorageRouteState, StorageRouteAction))
    ensures
        (r.0@, r.1@) == request_step(c@),
{
    let pc = chars_of(c.path.as_str());
    let s3 = strip_either_chars(pc.as_slice(), "/v1/storage/s3/", "/s3/");
    if let Some(sub) = &s3 {
        match split_once_char(chars_of(sub.as_str()).as_slice(), '/') {
            Some((b0, k0)) => {
                let b = sanitize_object_path(string_of(b0.as_slice()).as_str());
                let k = sanitize_object_path(string_of(k0.as_slice()).as_str());
                return s3_object(c, b, k);
            },
            None => {
                if str_equal(c.method.as_str(), "GET") {
                    let b = sanitize_object_path(sub.as_str());
                    let sql = s3_list(b.as_str());
                    let mut st = bare_state(Stage::S3Listing);
                    st.bucket = b;
                    return (st, StorageRouteAction::Sql { text: sql, admin: true });
                }
            },
        }
    }
    let sp: Vec<char> = match strip_prefix_chars(pc.as_slice(), "/v1/storage/v1") {
        Some(r) => r,
        None => pc,
    };
    if let Some(rest) = strip_prefix_chars(sp.as_slice(), "/render/image/") {
        let slash = chars_of("/");
        let clean = trim_start_matches(rest.as_slice(), slash.as_slice());
        return match split_once_char(clean.as_slice(), '/') {
            Some((b, o)) => answer(
                200,
                render_answer(string_of(b.as_slice()).as_str(), string_of(o.as_slice()).as_str()),
            ),
            None => answer(400, error_answer("invalid image render path")),
        };
    }
    if let Some(rest) = strip_prefix_chars(sp.as_slice(), "/upload/resumable") {
        let slash = chars_of("/");
        let sid_chars = trim_chars(trim_start_matches(rest.as_slice(), slash.as_slice()).as_slice());
        if str_equal(c.method.as_str(), "POST") && sid_chars.len() == 0 {
            return upload_create(c);
        } else if sid_chars.len() > 0 {
            let sid = string_of(sid_chars.as_slice());
            let sql = session_select(sid.as_str());
            let mut st = bare_state(Stage::SessionLookup);
            st.method = c.method;
            st.key = sid;
            st.user = c.user_id;
            st.body = c.body;
            st.now = c.now;
            return (st, StorageRouteAction::Sql { text: sql, admin: true });
        }
    }
    if let Some(sign_path) = strip_prefix_chars(sp.as_slice(), "/object/sign/") {
        proof {
            reveal_strlit("/object/sign/");
        }
        assert(sign_path@ =~= sp@.subrange(13, sp@.len() as int));
        if str_equal(c.method.as_str(), "POST") {
            if let Some((b0, k0)) = split_once_char(sign_path.as_slice(), '/') {
                let b = sanitize_object_path(string_of(b0.as_slice()).as_str());
                let k = sanitize_object_path(string_of(k0.as_slice()).as_str());
                return sign_request(c, b, k);
            }
        }
    }
    let sps = string_of(sp.as_slice());
    if str_equal(sps.as_str(), "/bucket") || str_equal(sps.as_str(), "/bucket/") {
        if str_equal(c.method.as_str(), "GET") {
            return (bare_state(Stage::BucketListing), StorageRouteAction::Sql { text: buckets_list(), admin: false });
        } else if str_equal(c.method.as_str(), "POST") {
            return bucket_create(c);
        } else {
            return answer(405, error_answer("method not allowed"));
        }
    }
    if let Some(rest) = strip_prefix_chars(sp.as_slice(), "/bucket/") {
        if let Some((b0, tail)) = split_once_char(rest.as_slice(), '/') {
            let t = string_of(tail.as_slice());
            if str_equal(t.as_str(), "lifecycle") {
                let b = sanitize_object_path(string_of(b0.as_slice()).as_str());
                return lifecycle_request(c, b);
            }
        }
        let id = sanitize_object_path(string_of(rest.as_slice()).as_str());
        if str_equal(c.method.as_str(), "GET") {
            return (bare_state(Stage::BucketFetch), StorageRouteAction::Sql { text: bucket_get(id.as_str()), admin: false });
        } else if str_equal(c.method.as_str(), "DELETE") {
            let sql = bucket_delete(id.as_str());
            let mut st = bare_state(Stage::BucketDrop);
            st.bucket = id;
            return (st, StorageRouteAction::Sql { text: sql, admin: false });
        } else {
            return answer(405, error_answer("method not allowed"));
        }
    }
    if let Some(rest) = strip_prefix_chars(sp.as_slice(), "/object/list/") {
        let b = sanitize_object_path(string_of(rest.as_slice()).as_str());
        let sql = bucket_public(b.as_str());
        let mut st = bare_state(Stage::ListPublic);
        st.bucket = b;
        st.user = c.user_id;
        st.admin = c.is_admin;
        return (st, StorageRouteAction::Sql { text: sql, admin: true });
    }
    if let Some(os) = strip_prefix_chars(sp.as_slice(), "/object/") {
        let clean = match strip_prefix_chars(os.as_slice(), "public/") {
            Some(r) => r,
            None => os,
        };
        return match split_once_char(clean.as_slice(), '/') {
            Some((b, k)) => {
                let b = sanitize_object_path(string_of(b.as_slice()).as_str());
                let k = sanitize_object_path(string_of(k.as_slice()).as_str());
                object_request(c, b, k)
            },
            None => answer(400, error_answer("missing bucket or object key")),
        };
    }
    answer(404, error_answer("storage endpoint not found"))
}

fn copy_state(s: &StorageRouteState) -> (r: StorageRouteState)
    ensures
        r@ == s@,
{
    StorageRouteState {
        stage: s.stage,
        method: s.method.clone(),
        bucket: s.bucket.clone(),
        key: s.key.clone(),
        user: s.user,
        admin: s.admin,
        signed_ok: s.signed_ok,
        public: s.public,
        body: s.body.clone(),
        range: copy_opt(&s.range),
        now: s.now,
        status: s.status,
        answer: s.answer.clone(),
        sql: s.sql.clone(),
        content_type: s.content_type.clone(),
        expires_in: s.expires_in,
        secret: s.secret.clone(),
        name: s.name.clone(),
        total: s.total,
    }
}

fn rows_public(r: &Result<Vec<Vec<Value>>, String>) -> (b: bool)
    ensures
        b == found_public(
            match r {
                Ok(rows) => Ok(rows_view(rows@)),
                Err(e) => Err(e@),
            },
        ),
{
    match r {
        Ok(rows) => {
            if rows.len() > 0 {
                assert(rows_view(rows@)[0] == row_view(rows@[0]@));
                let c = cell_at(&rows[0], 0);
                matches!(c, Value::Boolean(true))
            } else {
                false
            }
        },
        Err(_) => false,
    }
}

fn rows_owner(r: &Result<Vec<Vec<Value>>, String>) -> (o: Option<Option<i64>>)
    ensures
        o == found_owner(
            match r {
                Ok(rows) => Ok(rows_view(rows@)),
                Err(e) => Err(e@),
            },
        ),
{
    match r {
        Ok(rows) => {
            if rows.len() > 0 {
                assert(rows_view(rows@)[0] == row_view(rows@[0]@));
                match cell_at(&rows[0], 0) {
                    Value::Integer(i) => Some(Some(i)),
                    _ => Some(None),
                }
            } else {
                None
            }
        },
        Err(_) => None,
    }
}

fn refusal(method: &str, status: u16) -> (r: String)
    ensures
        r@ == error_json(refusal_message(method@, status)),
{
    if str_equal(method, "GET") {
        if status == 401 {
            error_answer("access denied to private object")
        } else {
            error_answer("access denied to private object owned by another user")
        }
    } else if str_equal(method, "POST") {
        if status == 401 {
            error_answer("authentication required to upload to private bucket")
        } else {
            error_answer("cannot overwrite object owned by another user")
        }
    } else {
        error_answer("cannot delete object owned by another user")
    }
}

fn object_decision(s: &StorageRouteState, owner: Option<Option<i64>>) -> (r: (StorageRouteState, StorageRouteAction))
    ensures
        (r.0@, r.1@) == object_decision_step(s@, owner),
{
    let req = StorageRequest { method: s.method.clone(), user_id: s.user, is_admin: s.admin, signed_ok: s.signed_ok };
    let meta = ObjectMeta { bucket_public: s.public, owner };
    match storage_step(&req, &meta) {
        StorageAction::Refuse(code) => answer(code, refusal(s.method.as_str(), code)),
        StorageAction::Serve => {
            let mut st = bare_state(Stage::ReadThenServe);
            st.status = 404;
            st.answer = error_answer("object not found");
            st.range = copy_opt(&s.range);
            st.content_type = content_type(s.key.as_str());
            (st, StorageRouteAction::ReadFile { bucket: s.bucket.clone(), key: s.key.clone() })
        },
        StorageAction::Store => {
            let mut st = bare_state(Stage::ObjWritten);
            st.bucket = s.bucket.clone();
            st.key = s.key.clone();
            st.user = s.user;
            st.body = s.body.clone();
            st.now = s.now;
            (st, StorageRouteAction::WriteFile { bucket: s.bucket.clone(), key: s.key.clone(), bytes: s.body.clone() })
        },
        StorageAction::Remove => {
            let mut st = bare_state(Stage::RemovedThenSql);
            st.status = 200;
            st.answer = message_answer("object deleted");
            let obj = object_path(s.bucket.as_str(), s.key.as_str());
            st.sql = object_delete(obj.as_str());
            (st, StorageRouteAction::RemoveFile { bucket: s.bucket.clone(), key: s.key.clone() })
        },
        StorageAction::MethodNotAllowed => answer(405, error_answer("method not allowed")),
    }
}

fn serve_bytes(bytes: Vec<u8>, range: &Option<String>, ct: &String) -> (r: StorageRouteAction)
    ensures
        r@ == serve(bytes@, opt_text(*range), ct@),
{
    let etag = object_etag(bytes.as_slice());
    let h: Option<&str> = match range {
        Some(x) => Some(x.as_str()),
        None => None,
    };
    match byte_range(h, bytes.len()) {
        Some((a, b)) => {
            let mut part: Vec<u8> = Vec::new();
            let n = bytes.len();
            let mut i = a;
            while i <= b
                invariant
                    a <= i <= b + 1,
                    b < n,
                    n == bytes@.len(),
                    part@ == bytes@.subrange(a as int, i as int),
                decreases b + 1 - i,
            {
                part.push(bytes[i]);
                i = i + 1;
                assert(part@ =~= bytes@.subrange(a as int, i as int));
            }
            let cr = bytes_content_range(a, b, bytes.len());
            StorageRouteAction::Serve { status: 206, bytes: part, content_type: ct.clone(), content_range: Some(cr), etag }
        },
        None => StorageRouteAction::Serve { status: 200, bytes, content_type: ct.clone(), content_range: None, etag },
    }
}

/// The next state of a storage request and what to do (see `spec_storage_route`).
pub fn storage_route_step(state: &StorageRouteState, event: StorageEvent) -> (r: (StorageRouteState, StorageRouteAction))
    requires
        sign_fits(state@),
    ensures
        (r.0@, r.1@) == spec_storage_route(state@, event@),
{
    match (state.stage, event) {
        (Stage::Idle, StorageEvent::Request(c)) => request(c),
        (Stage::PutWritten, StorageEvent::FileWritten(ok)) => {
            if !ok {
                return answer(500, error_answer("failed to write object"));
            }
            let obj = object_path(state.bucket.as_str(), state.key.as_str());
            let etag = object_etag(state.body.as_slice());
            let mut st = bare_state(Stage::SqlThenAnswer);
            st.status = 200;
            st.answer = s3_put_answer(state.bucket.as_str(), state.key.as_str(), etag.as_str());
            let sql = object_insert(obj.as_str(), state.bucket.as_str(), state.key.as_str(), None, "application/octet-stream", state.body.len(), state.now);
            (st, StorageRouteAction::Sql { text: sql, admin: true })
        },
        (Stage::ObjWritten, StorageEvent::FileWritten(ok)) => {
            if !ok {
                return answer(500, error_answer("failed to write object to disk"));
            }
            let obj = object_path(state.bucket.as_str(), state.key.as_str());
            let digest = sha256_bytes(state.body.as_slice());
            let mut hex: Vec<char> = Vec::new();
            push_hex_bytes(&mut hex, digest.as_slice());
            let hex_s = string_of(hex.as_slice());
            let mut st = bare_state(Stage::SqlThenAnswer);
            st.status = 200;
            st.answer = upload_answer(obj.as_str(), state.body.len(), hex_s.as_str());
            let sql = object_insert(obj.as_str(), state.bucket.as_str(), state.key.as_str(), state.user, "application/octet-stream", state.body.len(), state.now);
            (st, StorageRouteAction::Sql { text: sql, admin: true })
        },
        (Stage::SqlThenAnswer, StorageEvent::Rows(_)) => answer(state.status, state.answer.clone()),
        (Stage::RemovedThenSql, StorageEvent::FileDone) => {
            let mut st = bare_state(Stage::SqlThenAnswer);
            st.status = state.status;
            st.answer = state.answer.clone();
            (st, StorageRouteAction::Sql { text: state.sql.clone(), admin: true })
        },
        (Stage::DirThenAnswer, StorageEvent::FileDone) => answer(state.status, state.answer.clone()),
        (Stage::ReadThenServe, StorageEvent::FileRead(r)) => match r {
            Some(bytes) => (bare_state(Stage::Done), serve_bytes(bytes, &state.range, &state.content_type)),
            None => answer(state.status, state.answer.clone()),
        },
        (Stage::S3Listing, StorageEvent::Rows(r)) => {
            let empty: Vec<Vec<Value>> = Vec::new();
            let rows = match &r {
                Ok(rows) => rows,
                Err(_) => &empty,
            };
            assert(rows_view(empty@) =~= Seq::<Seq<ValueView>>::empty());
            answer(200, s3_listing_answer(state.bucket.as_str(), rows))
        },
        (Stage::BucketListing, StorageEvent::Rows(r)) => {
            let empty: Vec<Vec<Value>> = Vec::new();
            let rows = match &r {
                Ok(rows) => rows,
                Err(_) => &empty,
            };
            assert(rows_view(empty@) =~= Seq::<Seq<ValueView>>::empty());
            answer(200, buckets_answer(rows))
        },
        (Stage::BucketCreate, StorageEvent::Rows(r)) => match r {
            Ok(_) => {
                let mut st = bare_state(Stage::DirThenAnswer);
                st.status = 201;
                st.answer = created_answer(state.bucket.as_str());
                (st, StorageRouteAction::MakeDir { bucket: state.bucket.clone() })
            },
            Err(msg) => answer(400, error_answer(msg.as_str())),
        },
        (Stage::BucketFetch, StorageEvent::Rows(r)) => {
            match &r {
                Ok(rows) => {
                    if rows.len() > 0 {
                        assert(rows_view(rows@)[0] == row_view(rows@[0]@));
                        return answer(200, bucket_answer(&rows[0]));
                    }
                },
                Err(_) => {},
            }
            answer(404, error_answer("bucket not found"))
        },
        (Stage::BucketDrop, StorageEvent::Rows(_)) => {
            let mut st = bare_state(Stage::DirThenAnswer);
            st.status = 200;
            st.answer = message_answer("bucket deleted");
            (st, StorageRouteAction::RemoveDir { bucket: state.bucket.clone() })
        },
        (Stage::ListPublic, StorageEvent::Rows(r)) => {
            let public = rows_public(&r);
            if !public && state.user.is_none() && !state.admin {
                return answer(401, error_answer("access denied to private bucket"));
            }
            let only = if state.admin || public {
                None
            } else {
                Some(
                    match state.user {
                        Some(u) => u,
                        None => 0,
                    },
                )
            };
            (bare_state(Stage::ObjListing), StorageRouteAction::Sql { text: object_list(state.bucket.as_str(), only), admin: true })
        },
        (Stage::ObjListing, StorageEvent::Rows(r)) => {
            let empty: Vec<Vec<Value>> = Vec::new();
            let rows = match &r {
                Ok(rows) => rows,
                Err(_) => &empty,
            };
            assert(rows_view(empty@) =~= Seq::<Seq<ValueView>>::empty());
            answer(200, objects_answer(rows))
        },
        (Stage::ObjPublic, StorageEvent::Rows(r)) => {
            let mut st = copy_state(state);
            st.stage = Stage::ObjOwner;
            st.public = rows_public(&r);
            let obj = object_path(state.bucket.as_str(), state.key.as_str());
            (st, StorageRouteAction::Sql { text: object_owner(obj.as_str()), admin: true })
        },
        (Stage::ObjOwner, StorageEvent::Rows(r)) => {
            let owner = rows_owner(&r);
            object_decision(state, owner)
        },
        (Stage::SignPublic, StorageEvent::Rows(r)) => {
            let mut st = copy_state(state);
            st.stage = Stage::SignOwner;
            st.public = rows_public(&r);
            let obj = object_path(state.bucket.as_str(), state.key.as_str());
            (st, StorageRouteAction::Sql { text: object_owner(obj.as_str()), admin: true })
        },
        (Stage::SignOwner, StorageEvent::Rows(r)) => {
            let owner = rows_owner(&r);
            let owns = match owner {
                Some(Some(o)) => match state.user {
                    Some(u) => u == o,
                    None => false,
                },
                _ => false,
            };
            if !state.public && !state.admin && !owns {
                return answer(403, error_answer("cannot generate signed URL for private object not owned by caller"));
            }
            let e = state.now + state.expires_in;
            let t = sign_download_token(state.bucket.as_str(), state.key.as_str(), e, state.secret.as_slice());
            answer(200, signed_answer(state.bucket.as_str(), state.key.as_str(), t.as_str(), e))
        },
        (Stage::RuleAdd, StorageEvent::Rows(r)) => match r {
            Ok(_) => answer(state.status, state.answer.clone()),
            Err(msg) => answer(400, error_answer(msg.as_str())),
        },
        (Stage::WrittenThenSql, StorageEvent::FileWritten(_)) | (Stage::SqlThenSql, StorageEvent::Rows(_)) => {
            let mut st = bare_state(Stage::SqlThenAnswer);
            st.status = state.status;
            st.answer = state.answer.clone();
            (st, StorageRouteAction::Sql { text: state.sql.clone(), admin: true })
        },
        (Stage::SessionLookup, StorageEvent::Rows(r)) => session_found(state, &r),
        (Stage::PatchRead, StorageEvent::FileRead(r)) => {
            let mut data: Vec<u8> = match r {
                Some(x) => x,
                None => Vec::new(),
            };
            let mut i: usize = 0;
            let ghost start = data@;
            while i < state.body.len()
                invariant
                    i <= state.body@.len(),
                    data@ == start + state.body@.subrange(0, i as int),
                decreases state.body@.len() - i,
            {
                data.push(state.body[i]);
                i = i + 1;
                assert(data@ =~= start + state.body@.subrange(0, i as int));
            }
            assert(state.body@.subrange(0, state.body@.len() as int) =~= state.body@);
            let mut st = copy_state(state);
            st.stage = Stage::PatchWritten;
            st.body = data.clone();
            (st, StorageRouteAction::WriteFile { bucket: String::from_str("tmp_resumable"), key: state.key.clone(), bytes: data })
        },
        (Stage::PatchWritten, StorageEvent::FileWritten(_)) => {
            let off = state.body.len();
            let done = state.total <= 0 || (off as u64) >= (state.total as u64);
            if done {
                let mut st = copy_state(state);
                st.stage = Stage::FinalWritten;
                (st, StorageRouteAction::WriteFile { bucket: state.bucket.clone(), key: state.name.clone(), bytes: state.body.clone() })
            } else {
                let mut st = bare_state(Stage::SqlThenAnswer);
                st.status = 200;
                st.answer = progress(off, state.total);
                (st, StorageRouteAction::Sql { text: session_update(off, state.now, state.key.as_str()), admin: true })
            }
        },
        (Stage::FinalWritten, StorageEvent::FileWritten(_)) => {
            let mut st = copy_state(state);
            st.stage = Stage::StagingRemoved;
            (st, StorageRouteAction::RemoveFile { bucket: String::from_str("tmp_resumable"), key: state.key.clone() })
        },
        (Stage::StagingRemoved, StorageEvent::FileDone) => {
            let off = state.body.len();
            let obj = object_path(state.bucket.as_str(), state.name.as_str());
            let etag = object_etag(state.body.as_slice());
            let mut st = bare_state(Stage::SqlThenSql);
            st.status = 200;
            st.answer = completed(state.bucket.as_str(), etag.as_str(), state.name.as_str(), off);
            st.sql = object_insert(
                obj.as_str(),
                state.bucket.as_str(),
                state.name.as_str(),
                state.user,
                state.content_type.as_str(),
                off,
                state.now,
            );
            (st, StorageRouteAction::Sql { text: session_delete(state.key.as_str()), admin: true })
        },
        (Stage::RuleList, StorageEvent::Rows(r)) => {
            let empty: Vec<Vec<Value>> = Vec::new();
            let rows = match &r {
                Ok(rows) => rows,
                Err(_) => &empty,
            };
            assert(rows_view(empty@) =~= Seq::<Seq<ValueView>>::empty());
            answer(200, rules_answer(rows))
        },
        (_, _) => (copy_state(state), StorageRouteAction::Ignore),
    }
}
} // verus!
