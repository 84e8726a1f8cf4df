//! Values exchanged with callers.

pub mod request;
pub mod user;
