use vstd::prelude::*;

use crate::text::{push_str, string_of};

verus! {

/// A user account as the auth service reports it.
#[derive(Debug, Clone)]
pub struct User {
    pub id: String,
    pub email: String,
}

/// Tokens of a signed-in session.
#[derive(Debug, Clone)]
pub struct Session {
    pub access_token: String,
    pub refresh_token: String,
}

/// The auth service's answer: the user and session, or an error.
#[derive(Debug, Clone)]
pub struct AuthResponse {
    pub user: Option<User>,
    pub session: Option<Session>,
    pub error: Option<String>,
}

/// Client for the auth service.
#[derive(Debug, Clone)]
pub struct AuthClient {
    pub base_url: String,
    pub api_key: String,
}

/// The answer the client gives for `email`: the client's user with that address and its
/// session tokens, no error.
pub open spec fn signed_in_response(r: AuthResponse, email: Seq<char>) -> bool {
    &&& r.user matches Some(u) && u.id@ == "usr_rust_client"@ && u.email@ == email
    &&& r.session matches Some(s) && s.access_token@ == "mock_jwt_token"@ && s.refresh_token@
        == "rt_mock_refresh_token"@
    &&& r.error is None
}

fn signed_in(email: &str) -> (r: AuthResponse)
    ensures
        signed_in_response(r, email@),
{
    AuthResponse {
        user: Some(User { id: String::from_str("usr_rust_client"), email: email.to_string() }),
        session: Some(
            Session {
                access_token: String::from_str("mock_jwt_token"),
                refresh_token: String::from_str("rt_mock_refresh_token"),
            },
        ),
        error: None,
    }
}

impl AuthClient {
    /// A client for the auth service under `base_url`.
    pub fn new(base_url: String, api_key: String) -> (c: Self)
        ensures
            c.base_url@ == base_url@ + "/v1/auth"@,
            c.api_key == api_key,
    {
        let mut url: Vec<char> = Vec::new();
        push_str(&mut url, base_url.as_str());
        push_str(&mut url, "/v1/auth");
        AuthClient { base_url: string_of(url.as_slice()), api_key }
    }

    /// Registers `email`.
    pub fn sign_up(&self, email: &str, _password: &str) -> (r: AuthResponse)
        ensures
            signed_in_response(r, email@),
    {
        signed_in(email)
    }

    /// Signs in `email` with a password.
    pub fn sign_in_with_password(&self, email: &str, _password: &str) -> (r: AuthResponse)
        ensures
            signed_in_response(r, email@),
    {
        signed_in(email)
    }
}

} // verus!
