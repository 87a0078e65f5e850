pub mod filter;
pub mod presence;
pub mod rate_limit;
pub mod sha1;
pub mod storage;
pub mod websocket;
pub mod rest;
pub mod csv;
pub mod crud;
pub mod dispatch;
pub mod gateway;
pub mod object_access;
pub mod branches;
pub mod request;
pub mod json_text;
pub mod storage_routes;
