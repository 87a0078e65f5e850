use vstd::prelude::*;

use crate::text::str_equal;

verus! {

/// Authenticated user session claims passed across connection and execution context.
#[derive(Debug, Clone, PartialEq)]
pub struct SessionClaims {
    pub sub: i64,
    pub username: String,
    pub role: String,
    pub exp: u64,
    pub iat: u64,
}

impl SessionClaims {
    /// Claims for a user, issued now and expiring at `exp`.
    pub fn new(user_id: i64, username: &str, role: &str, exp: u64) -> (c: Self)
        ensures
            c.sub == user_id,
            c.username@ == username@,
            c.role@ == role@,
            c.exp == exp,
    {
        let iat = crate::time::now_secs();
        SessionClaims {
            sub: user_id,
            username: username.to_string(),
            role: role.to_string(),
            exp,
            iat,
        }
    }

    /// The user the claims are about.
    pub fn user_id(&self) -> (id: i64)
        ensures
            id == self.sub,
    {
        self.sub
    }
}

/// Execution context carrying authenticated identity into query planning and RLS evaluation.
#[derive(Debug, Clone, PartialEq)]
pub struct ExecutionContext {
    pub user_id: Option<i64>,
    pub role: Option<String>,
    pub is_admin: bool,
}

impl ExecutionContext {
    /// A context with no identity.
    pub fn anonymous() -> (c: Self)
        ensures
            c.user_id is None,
            c.role is None,
            !c.is_admin,
    {
        ExecutionContext { user_id: None, role: None, is_admin: false }
    }

    /// The administrator context: user 0 with role "admin".
    pub fn admin() -> (c: Self)
        ensures
            c.user_id == Some(0i64),
            c.role matches Some(r) && r@ == "admin"@,
            c.is_admin,
    {
        ExecutionContext { user_id: Some(0), role: Some(String::from_str("admin")), is_admin: true }
    }

    /// The context of a session; it is an administrator's exactly when the role is "admin".
    pub fn from_claims(claims: &SessionClaims) -> (c: Self)
        ensures
            c.user_id == Some(claims.sub),
            c.role matches Some(r) && r@ == claims.role@,
            c.is_admin == (claims.role@ == "admin"@),
    {
        let is_admin = str_equal(claims.role.as_str(), "admin");
        ExecutionContext {
            user_id: Some(claims.sub),
            role: Some(claims.role.clone()),
            is_admin,
        }
    }

    /// Whether a user is attached to the context.
    pub fn is_authenticated(&self) -> (b: bool)
        ensures
            b == self.user_id is Some,
    {
        self.user_id.is_some()
    }
}

} // verus!
