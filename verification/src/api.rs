//! Decisions of the request handlers.

pub mod auth;
pub mod match_routes;
