pub mod oauth;
pub mod password;
pub mod session;

pub use password::{hash_password, verify_password};
pub use session::{ExecutionContext, SessionClaims};
pub mod jwt;
