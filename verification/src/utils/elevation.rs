//! Statistics of an elevation profile.

use vstd::prelude::*;
use crate::matching::geometry::{climb, elevation_gain};

verus! {

/// Ascent, descent and extremes of an elevation profile, in centimetres.
#[derive(Clone, Copy, Debug, PartialEq, Eq, Structural)]
pub struct ElevationStats {
    pub total_gain: u64,
    pub total_loss: u64,
    pub max_elevation: i32,
    pub min_elevation: i32,
}

impl Default for ElevationStats {
    fn default() -> (stats: ElevationStats)
        ensures
            stats == (ElevationStats {
                total_gain: 0,
                total_loss: 0,
                max_elevation: 0,
                min_elevation: 0,
            }),
    {
        ElevationStats { total_gain: 0, total_loss: 0, max_elevation: 0, min_elevation: 0 }
    }
}

/// Sum of the descents between consecutive samples.
pub open spec fn elevation_loss(elevations: Seq<i32>) -> int
    decreases elevations.len(),
{
    if elevations.len() < 2 {
        0
    } else {
        elevation_loss(elevations.drop_last()) + climb(
            elevations.last(),
            elevations[elevations.len() - 2],
        )
    }
}

/// `top` is the largest sample of `elevations`.
pub open spec fn is_highest(elevations: Seq<i32>, top: i32) -> bool {
    &&& forall|i: int| 0 <= i < elevations.len() ==> elevations[i] <= top
    &&& exists|i: int| 0 <= i < elevations.len() && elevations[i] == top
}

/// `bottom` is the smallest sample of `elevations`.
pub open spec fn is_lowest(elevations: Seq<i32>, bottom: i32) -> bool {
    &&& forall|i: int| 0 <= i < elevations.len() ==> elevations[i] >= bottom
    &&& exists|i: int| 0 <= i < elevations.len() && elevations[i] == bottom
}

/// Total ascent, total descent, highest and lowest sample of a profile; all
/// zero for the empty profile.
pub fn calculate_elevation_stats(profile: &[i32]) -> (stats: ElevationStats)
    requires
        profile@.len() <= 0x1_0000_0000,
    ensures
        profile@.len() == 0 ==> stats == (ElevationStats {
            total_gain: 0,
            total_loss: 0,
            max_elevation: 0,
            min_elevation: 0,
        }),
        stats.total_gain == elevation_gain(profile@),
        stats.total_loss == elevation_loss(profile@),
        profile@.len() > 0 ==> is_highest(profile@, stats.max_elevation) && is_lowest(
            profile@,
            stats.min_elevation,
        ),
{
    let n = profile.len();
    if n == 0 {
        return ElevationStats::default();
    }
    let mut gain: u64 = 0;
    let mut loss: u64 = 0;
    let mut highest = profile[0];
    let mut lowest = profile[0];
    let mut i: usize = 1;
    proof {
        assert(profile@.take(1)[0] == profile@[0]);
    }
    while i < n
        invariant
            1 <= i <= n,
            n == profile@.len(),
            n <= 0x1_0000_0000,
            gain == elevation_gain(profile@.take(i as int)),
            loss == elevation_loss(profile@.take(i as int)),
            gain <= (i - 1) * 0xffff_ffff,
            loss <= (i - 1) * 0xffff_ffff,
            is_highest(profile@.take(i as int), highest),
            is_lowest(profile@.take(i as int), lowest),
        decreases n - i,
    {
        let ghost shorter = profile@.take(i as int);
        let ghost longer = profile@.take(i + 1);
        let ghost old_high = highest;
        let ghost old_low = lowest;
        proof {
            assert(longer.drop_last() =~= shorter);
            assert(longer[longer.len() - 2] == profile@[i - 1]);
        }
        let now = profile[i];
        let before = profile[i - 1];
        if now > before {
            gain = gain + (now as i64 - before as i64) as u64;
        } else {
            loss = loss + (before as i64 - now as i64) as u64;
        }
        if now > highest {
            highest = now;
        }
        if now < lowest {
            lowest = now;
        }
        proof {
            let hi = choose|k: int| 0 <= k < shorter.len() && shorter[k] == old_high;
            let lo = choose|k: int| 0 <= k < shorter.len() && shorter[k] == old_low;
            assert(longer[hi] == shorter[hi] && longer[lo] == shorter[lo]);
            assert(longer[i as int] == now);
            assert forall|k: int| 0 <= k < longer.len() implies longer[k] <= highest && longer[k]
                >= lowest by {
                if k < i {
                    assert(longer[k] == shorter[k]);
                }
            }
            let wh = if now > old_high { i as int } else { hi };
            let wl = if now < old_low { i as int } else { lo };
            assert(longer[wh] == highest);
            assert(longer[wl] == lowest);
        }
        i = i + 1;
    }
    proof {
        assert(profile@.take(i as int) =~= profile@);
    }
    ElevationStats { total_gain: gain, total_loss: loss, max_elevation: highest, min_elevation: lowest }
}

} // verus!
