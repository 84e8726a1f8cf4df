//! Passwords and session claims.

pub mod jwt;
pub mod password;
