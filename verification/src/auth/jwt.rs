use vstd::prelude::*;
use vstd::utf8::encode_utf8;

use crate::crypto::{hmac_sha256, hmac_sha256_bytes};
use crate::encoding::{b64url_decode, b64url_encode, base64_url_decode, base64_url_encode};
use crate::error::{DbError, ExecError};
use crate::text::{chars_equal, chars_of, push_chars, push_str, split_at_char, split_char, string_of};
use crate::time::now_secs;

verus! {

/// The signature of `data` under `secret`: its HMAC-SHA-256 tag in URL-safe base64.
pub open spec fn spec_signature(data: Seq<u8>, secret: Seq<u8>) -> Seq<char> {
    b64url_encode(hmac_sha256(secret, data))
}

/// The signature of `data` under `secret`.
fn compute_hmac_signature(data: &[u8], secret: &[u8]) -> (r: String)
    ensures
        r@ == spec_signature(data@, secret@),
{
    let tag = hmac_sha256_bytes(secret, data);
    base64_url_encode(tag.as_slice())
}

/// The header of every token: `{"alg":"HS256","typ":"JWT"}` in URL-safe base64.
pub open spec fn jwt_header() -> Seq<char> {
    b64url_encode(encode_utf8("{\"alg\":\"HS256\",\"typ\":\"JWT\"}"@))
}

/// A token carrying the claims `payload` (their JSON bytes), signed under `secret`: header,
/// payload and signature, joined with dots.
pub open spec fn spec_sign_jwt(payload: Seq<u8>, secret: Seq<u8>) -> Seq<char> {
    let to_sign = jwt_header() + "."@ + b64url_encode(payload);
    to_sign + "."@ + spec_signature(encode_utf8(to_sign), secret)
}

/// Signs a token carrying the claims whose JSON bytes are `payload`.
pub fn sign_jwt(payload: &[u8], secret: &[u8]) -> (r: String)
    ensures
        r@ == spec_sign_jwt(payload@, secret@),
{
    let header = base64_url_encode("{\"alg\":\"HS256\",\"typ\":\"JWT\"}".as_bytes());
    let body = base64_url_encode(payload);
    let mut v: Vec<char> = Vec::new();
    push_str(&mut v, header.as_str());
    push_str(&mut v, ".");
    push_str(&mut v, body.as_str());
    let to_sign = string_of(v.as_slice());
    let sig = compute_hmac_signature(to_sign.as_str().as_bytes(), secret);
    let mut out: Vec<char> = Vec::new();
    push_str(&mut out, to_sign.as_str());
    push_str(&mut out, ".");
    push_str(&mut out, sig.as_str());
    string_of(out.as_slice())
}

/// What checking a token's form and signature gives: its payload bytes, or the message of
/// the first thing wrong with it.
pub open spec fn spec_jwt_payload(token: Seq<char>, secret: Seq<u8>) -> Result<Seq<u8>, Seq<char>> {
    let parts = split_at_char(token, '.');
    if parts.len() != 3 {
        Err("invalid JWT structure"@)
    } else if parts[2] != spec_signature(encode_utf8(parts[0] + "."@ + parts[1]), secret) {
        Err("invalid JWT signature"@)
    } else {
        match b64url_decode(parts[1]) {
            Some(b) => Ok(b),
            None => Err("invalid JWT base64 payload"@),
        }
    }
}

/// Whether `e` is the invalid-value error with message `m`.
pub open spec fn invalid_value(e: DbError, m: Seq<char>) -> bool {
    e matches DbError::Exec(ExecError::InvalidValue(x)) && x@ == m
}

fn invalid(m: &str) -> (e: DbError)
    ensures
        invalid_value(e, m@),
{
    DbError::Exec(ExecError::InvalidValue(string_of(chars_of(m).as_slice())))
}

/// Checks a token's form and signature and returns the JSON bytes of its claims.
pub fn verify_jwt_payload(token: &str, secret: &[u8]) -> (r: Result<Vec<u8>, DbError>)
    ensures
        match spec_jwt_payload(token@, secret@) {
            Ok(b) => r matches Ok(v) && v@ == b,
            Err(m) => r matches Err(e) && invalid_value(e, m),
        },
{
    let parts = split_char(chars_of(token).as_slice(), '.');
    if parts.len() != 3 {
        return Err(invalid("invalid JWT structure"));
    }
    let mut v: Vec<char> = Vec::new();
    push_chars(&mut v, parts[0].as_slice());
    push_str(&mut v, ".");
    push_chars(&mut v, parts[1].as_slice());
    let to_sign = string_of(v.as_slice());
    let expected = compute_hmac_signature(to_sign.as_str().as_bytes(), secret);
    let e = chars_of(expected.as_str());
    if !chars_equal(parts[2].as_slice(), e.as_slice()) {
        return Err(invalid("invalid JWT signature"));
    }
    match base64_url_decode(string_of(parts[1].as_slice()).as_str()) {
        Ok(b) => Ok(b),
        Err(_) => Err(invalid("invalid JWT base64 payload")),
    }
}

/// The error for claims that expired at `exp` (seconds since the epoch), read at `now`.
pub open spec fn expired(exp: u64, now: u64) -> bool {
    exp < now
}

/// Refuses claims that expired at `exp` when the time is `now`.
pub fn check_expiry_at(exp: u64, now: u64) -> (r: Result<(), DbError>)
    ensures
        expired(exp, now) ==> (r matches Err(e) && invalid_value(e, "JWT token has expired"@)),
        !expired(exp, now) ==> r is Ok,
{
    if exp < now {
        return Err(invalid("JWT token has expired"));
    }
    Ok(())
}

/// Refuses claims that expired at `exp` by the clock.
pub fn check_expiry(exp: u64) -> (r: Result<(), DbError>)
    ensures
        r is Err ==> (r matches Err(e) && invalid_value(e, "JWT token has expired"@)),
        exp == u64::MAX ==> r is Ok,
        exists|now: u64| #[trigger] expired(exp, now) == r is Err,
{
    let now = now_secs();
    let r = check_expiry_at(exp, now);
    assert(expired(exp, now) == r is Err);
    r
}

/// A token signed under a secret passes the form and signature check under that secret and
/// gives back the signed claims.
pub proof fn lemma_signed_token_verifies(payload: Seq<u8>, secret: Seq<u8>)
    ensures
        spec_jwt_payload(spec_sign_jwt(payload, secret), secret) == Ok::<Seq<u8>, Seq<char>>(payload),
{
    let h = jwt_header();
    let b = b64url_encode(payload);
    let to_sign = h + "."@ + b;
    let sig = spec_signature(encode_utf8(to_sign), secret);
    let t = to_sign + "."@ + sig;
    reveal_strlit(".");
    assert(!h.contains('.')) by {
        lemma_b64_no_dot(encode_utf8("{\"alg\":\"HS256\",\"typ\":\"JWT\"}"@));
    }
    assert(!b.contains('.')) by {
        lemma_b64_no_dot(payload);
    }
    assert(!sig.contains('.')) by {
        lemma_b64_no_dot(hmac_sha256(secret, encode_utf8(to_sign)));
    }
    assert(t =~= h + seq!['.'] + b + seq!['.'] + sig);
    crate::text::lemma_split_at_char_concat(h + seq!['.'] + b, sig, '.');
    crate::text::lemma_split_at_char_concat(h, b, '.');
    crate::text::lemma_split_at_char_absent(h, '.');
    crate::text::lemma_split_at_char_absent(b, '.');
    crate::text::lemma_split_at_char_absent(sig, '.');
    let parts = split_at_char(t, '.');
    assert(parts =~= seq![h, b, sig]);
    assert(h + "."@ + b =~= to_sign);
    crate::encoding::lemma_b64url_roundtrip(payload);
}

/// URL-safe base64 never holds a dot.
proof fn lemma_b64_no_dot(s: Seq<u8>)
    ensures
        !b64url_encode(s).contains('.'),
{
    crate::encoding::lemma_b64url_no_dot(s);
}

} // verus!
