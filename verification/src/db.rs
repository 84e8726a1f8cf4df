//! Rows of the store as plain values.

pub mod models;
