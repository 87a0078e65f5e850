use chocobase::auth::oauth::{
    exchange_code_for_token, generate_authorize_url, generate_authorize_url_at,
    resolve_user_profile, OAuthProvider,
};
use chocobase::auth::password::{hash_password_with_salt, pbkdf2_hmac_sha256_bytes};
use chocobase::auth::{hash_password, verify_password};

#[test]
fn hashed_password_verifies() {
    let h = hash_password("s3cret");
    assert!(verify_password("s3cret", &h));
    assert!(!verify_password("wrong", &h));
    let parts: Vec<&str> = h.split('$').collect();
    assert_eq!(parts.len(), 2);
    assert_eq!(parts[0].len(), 32);
    assert_eq!(parts[1].len(), 64);
    assert_ne!(hash_password("s3cret"), h);
}

#[test]
fn salted_hash_has_hex_salt() {
    let h = hash_password_with_salt("pw", &[0x01, 0x23, 0x45, 0x67, 0x89, 0xab, 0xcd, 0xef]);
    assert!(h.starts_with("0123456789abcdef$"));
    assert!(verify_password("pw", &h));
    assert!(!verify_password("pw2", &h));
}

fn hex(b: &[u8]) -> String {
    b.iter().map(|x| format!("{x:02x}")).collect()
}

#[test]
fn pbkdf2_matches_published_vectors() {
    assert_eq!(hex(&pbkdf2_hmac_sha256_bytes(b"password", b"salt", 1)), "120fb6cffcf8b32c43e7225256c4f837a86548c92ccc35480805987cb70be17b");
    assert_eq!(hex(&pbkdf2_hmac_sha256_bytes(b"password", b"salt", 2)), "ae4d0c95af6b46d32d0adff928f06dd02a303f8ef3c251dfd6e2d85a95474c43");
    assert_eq!(hex(&pbkdf2_hmac_sha256_bytes(b"password", b"salt", 4096)), "c5e478d59288c841aa530db6845c4c8d962893a001ce4e11a4963873aa98134a");
}

#[test]
fn malformed_stored_hash_is_rejected() {
    assert!(!verify_password("pw", "no-dollar"));
    assert!(!verify_password("pw", "a$b$c"));
}

#[test]
fn provider_names_parse_ignoring_case() {
    assert_eq!("GitHub".parse::<OAuthProvider>(), Ok(OAuthProvider::GitHub));
    assert_eq!("GOOGLE".parse::<OAuthProvider>(), Ok(OAuthProvider::Google));
    assert!("myspace".parse::<OAuthProvider>().is_err());
    assert_eq!(OAuthProvider::Discord.name(), "discord");
}

#[test]
fn authorize_url_is_built_from_endpoint_and_state() {
    let r = generate_authorize_url_at("github", "http://cb/cb", 42).unwrap();
    assert_eq!(r.provider, "github");
    assert_eq!(r.state, "st_42");
    assert_eq!(
        r.url,
        "https://github.com/login/oauth/authorize?client_id=chocobase_client&redirect_uri=http://cb/cb&response_type=code&state=st_42&scope=email+profile"
    );
    assert_eq!(
        generate_authorize_url("nope", "x").unwrap_err(),
        "unsupported oauth provider"
    );
    let live = generate_authorize_url("apple", "r").unwrap();
    assert!(live.state.starts_with("st_"));
    assert!(live.url.starts_with("https://appleid.apple.com/auth/authorize?"));
}

#[test]
fn code_exchange_checks_provider_and_code() {
    let t = exchange_code_for_token("google", "abc", "r", None).unwrap();
    assert_eq!(t.access_token, "cb_oauth_tok_google_abc");
    assert_eq!(t.token_type, "bearer");
    assert_eq!(t.expires_in, Some(3600));
    assert_eq!(t.refresh_token.as_deref(), Some("cb_oauth_refr_abc"));
    assert_eq!(
        exchange_code_for_token("google", "", "r", None).unwrap_err(),
        "authorization code cannot be empty"
    );
    assert_eq!(
        exchange_code_for_token("x", "abc", "r", None).unwrap_err(),
        "unsupported oauth provider"
    );
}

#[test]
fn profile_falls_back_on_email_then_provider() {
    let p = resolve_user_profile("github", "tok", Some("ann@example.org"), None).unwrap();
    assert_eq!(p.username, "ann");
    assert_eq!(p.email, "ann@example.org");
    assert_eq!(p.provider_user_id, "github_ann");
    assert_eq!(
        p.avatar_url.as_deref(),
        Some("https://avatars.example.com/ann.png")
    );
    let q = resolve_user_profile("discord", "tok", None, None).unwrap();
    assert_eq!(q.username, "discord_user");
    assert_eq!(q.email, "discord_user@discord.example.com");
    let u = resolve_user_profile("apple", "tok", None, Some("zed")).unwrap();
    assert_eq!(u.username, "zed");
    assert_eq!(u.email, "zed@apple.example.com");
    assert_eq!(
        resolve_user_profile("apple", "", None, None).unwrap_err(),
        "access token cannot be empty"
    );
}
