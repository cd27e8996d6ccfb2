//! A stateless session-authentication library: issuing, encoding and
//! validating a pair of tamper-evident credentials (an access credential and a
//! refresh credential) without any server-side session store.

pub mod encrypt;
pub mod response;
pub mod route;
pub mod tokens;
pub mod error;
pub mod wire;
