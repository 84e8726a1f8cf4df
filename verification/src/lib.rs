//! Route matching for recorded GPS tracks, in whole numbers.
//!
//! Given a new track, the library finds the stored routes most similar to
//! it inside a search rectangle. Similarity combines the shape of the path,
//! its number of turns and its elevation profile, each scored between zero
//! and one and weighted by a configurable importance.
//!
//! Every quantity is an integer of a fixed unit, so every result is exact
//! and stated by a contract:
//!
//! - coordinates: 1e-7 degrees (`i32`);
//! - lengths and elevations: centimetres;
//! - turn angles: thousandths of a degree;
//! - grades: hundredths of a percent;
//! - scores: millionths; percentages: millionths of a percent.
//!
//! Great-circle lengths and turn angles need trigonometry and are measured
//! by the caller: a [`matching::geometry::RouteLine`] carries its points
//! together with the length of each leg and the turn at each inner point.
//!
//! Around the matching core stand the decisions of the service that uses
//! it: reading a route out of a decoded GPX document, passwords, session
//! claims, settings and errors.

pub mod api;
pub mod auth;
pub mod config;
pub mod db;
pub mod error;
pub mod matching;
pub mod models;
pub mod utils;
