//! Spatial retrieval and similarity scoring of recorded routes.

pub mod elevation;
pub mod engine;
pub mod geometry;
pub mod numeric;
pub mod samples;
pub mod shape;
pub mod spatial_index;
