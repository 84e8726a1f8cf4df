//! Helpers around the matching core.

pub mod decimal;
pub mod elevation;
pub mod gpx_minifier;
pub mod gpx_parser;
