use chocobase::auth::jwt::{check_expiry_at, sign_jwt, verify_jwt_payload};
use chocobase::error::{DbError, ExecError};
use chocobase::extensions::PgJwt;

fn message(e: DbError) -> String {
    match e {
        DbError::Exec(ExecError::InvalidValue(m)) => m,
        other => panic!("unexpected {other:?}"),
    }
}

#[test]
fn signed_tokens_verify_and_give_back_their_claims() {
    let claims = br#"{"sub":1,"role":"member","exp":99}"#;
    let token = sign_jwt(claims, b"secret");
    assert!(token.starts_with("eyJhbGciOiJIUzI1NiIsInR5cCI6IkpXVCJ9."));
    assert_eq!(token.split('.').count(), 3);
    // The signature is an unpadded URL-safe base64 HMAC-SHA-256 tag (32 bytes, 43 characters).
    assert_eq!(token.split('.').nth(2).unwrap().len(), 43);
    assert_eq!(verify_jwt_payload(&token, b"secret").unwrap(), claims.to_vec());
}

#[test]
fn bad_tokens_are_refused() {
    let token = sign_jwt(b"{}", b"secret");
    assert_eq!(message(verify_jwt_payload(&token, b"other").unwrap_err()), "invalid JWT signature");
    assert_eq!(message(verify_jwt_payload("a.b", b"secret").unwrap_err()), "invalid JWT structure");
    let mut parts: Vec<&str> = token.split('.').collect();
    parts[2] = "AAAA";
    assert_eq!(message(verify_jwt_payload(&parts.join("."), b"secret").unwrap_err()), "invalid JWT signature");
    assert!(check_expiry_at(10, 5).is_ok());
    assert!(check_expiry_at(10, 10).is_ok());
    assert_eq!(message(check_expiry_at(10, 11).unwrap_err()), "JWT token has expired");
}

#[test]
fn pgjwt_tokens_roundtrip() {
    let t = PgJwt::sign("{\"a\":1}", "k", "hs256").unwrap();
    assert_eq!(PgJwt::verify_payload(&t, "k", "HS256").unwrap(), b"{\"a\":1}".to_vec());
    assert_eq!(PgJwt::verify_payload(&t, "other", "HS256").unwrap_err(), "JWT signature verification failed");
    assert_eq!(PgJwt::sign("{}", "k", "rs256").unwrap_err(), "unsupported JWT alg: RS256");
    assert_eq!(PgJwt::verify_payload("x.y", "k", "HS256").unwrap_err(), "invalid JWT format: token must have 3 segments");
    assert_eq!(PgJwt::verify_payload(&t, "k", "none").unwrap_err(), "unsupported JWT alg: NONE");
}
