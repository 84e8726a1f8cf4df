//! Elevation-profile similarity.
//!
//! The main metric compares the rolling grades of two profiles; a second,
//! older one aligns the profiles themselves by dynamic time warping.

use vstd::prelude::*;
use crate::matching::elevation::correlation::{gradient_profile_similarity, gradient_similarity};
use crate::matching::elevation::dtw::{dtw_similarity, elevation_profile_dtw};
use crate::matching::elevation::gradients::{calculate_rolling_gradients, rolling_gradients};
use crate::matching::geometry::MAX_POINTS;
use crate::matching::numeric::SCORE_ONE;

pub mod correlation;
pub mod dtw;
pub mod gradients;

verus! {

/// Similarity of two elevation profiles by their rolling grades.
pub open spec fn rolling_similarity(
    profile1: Seq<i32>,
    profile2: Seq<i32>,
    distances1: Seq<u32>,
    distances2: Seq<u32>,
    granularity: u64,
) -> int {
    gradient_similarity(
        rolling_gradients(profile1, distances1, granularity),
        rolling_gradients(profile2, distances2, granularity),
    )
}

/// Rolling-grade elevation similarity, the main elevation metric.
///
/// Computes the rolling grades of both profiles over windows of
/// `granularity` centimetres and compares them.
pub fn rolling_gradient_elevation_similarity(
    profile1: &[i32],
    profile2: &[i32],
    distances1: &[u32],
    distances2: &[u32],
    granularity: u64,
) -> (score: u32)
    requires
        profile1@.len() <= MAX_POINTS,
        profile2@.len() <= MAX_POINTS,
    ensures
        score == rolling_similarity(profile1@, profile2@, distances1@, distances2@, granularity),
        score <= SCORE_ONE,
{
    let gradients1 = calculate_rolling_gradients(profile1, distances1, granularity);
    let gradients2 = calculate_rolling_gradients(profile2, distances2, granularity);
    gradient_profile_similarity(gradients1.as_slice(), gradients2.as_slice())
}

/// Centimetres in a kilometre.
pub const CM_PER_KM: u64 = 100_000;

/// Rolling-grade similarity with the window given in kilometres.
pub fn segmented_elevation_similarity(
    profile1: &[i32],
    profile2: &[i32],
    distances1: &[u32],
    distances2: &[u32],
    segment_length_km: u32,
) -> (score: u32)
    requires
        profile1@.len() <= MAX_POINTS,
        profile2@.len() <= MAX_POINTS,
    ensures
        score == rolling_similarity(
            profile1@,
            profile2@,
            distances1@,
            distances2@,
            (segment_length_km * CM_PER_KM) as u64,
        ),
        score <= SCORE_ONE,
{
    rolling_gradient_elevation_similarity(
        profile1,
        profile2,
        distances1,
        distances2,
        segment_length_km as u64 * CM_PER_KM,
    )
}

/// Elevation similarity by dynamic time warping over a band of fifty samples;
/// `flexibility` is accepted and not used.
pub fn elevation_similarity(profile1: &[i32], profile2: &[i32], flexibility: u32) -> (score: u32)
    requires
        profile1@.len() <= MAX_POINTS,
        profile2@.len() <= MAX_POINTS,
    ensures
        score == dtw_similarity(profile1@, profile2@, 50),
        score <= SCORE_ONE,
{
    elevation_profile_dtw(profile1, profile2, 50)
}

} // verus!
