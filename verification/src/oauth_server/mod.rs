//! The OAuth 2.1 authorization server of the console.

pub mod authorize;
pub mod metadata;
pub mod pkce;
pub mod register;
pub mod return_url;
pub mod storage;
pub mod token;
