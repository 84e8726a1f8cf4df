//! Shape similarity of route lines: Hausdorff distance and turn counts.

use vstd::prelude::*;
use crate::matching::geometry::{GeoPoint, RouteLine};
use crate::matching::numeric::{
    abs_int, cheaper, dearer, integer_sqrt, isqrt, lemma_isqrt_square, SCORE_ONE,
};

verus! {

/// Turn angle above which a vertex counts as a turn when routes are
/// compared: thirty degrees, in thousandths of a degree.
pub const TURN_THRESHOLD: u32 = 30_000;

/// Hausdorff distance at which the shape similarity drops to one half:
/// 0.01 degrees, about one kilometre, in coordinate units of 1e-7 degrees.
pub const SHAPE_SCALE: u64 = 100_000;

/// Number of turn angles above `threshold`.
pub open spec fn turns_above(turns: Seq<u32>, threshold: u32) -> int
    decreases turns.len(),
{
    if turns.len() == 0 {
        0
    } else {
        turns_above(turns.drop_last(), threshold) + if turns.last() > threshold {
            1int
        } else {
            0int
        }
    }
}

/// Sum of a sequence of turn angles.
pub open spec fn total_turning(turns: Seq<u32>) -> int
    decreases turns.len(),
{
    if turns.len() == 0 {
        0
    } else {
        total_turning(turns.drop_last()) + turns.last()
    }
}

/// A count of turns is at most the number of angles.
pub proof fn lemma_turns_above_range(turns: Seq<u32>, threshold: u32)
    ensures
        0 <= turns_above(turns, threshold) <= turns.len(),
    decreases turns.len(),
{
    if turns.len() > 0 {
        lemma_turns_above_range(turns.drop_last(), threshold);
    }
}

/// Counts the interior vertices of `line` whose turn angle exceeds
/// `threshold`, given in thousandths of a degree. A line of fewer than three
/// points has no turns.
pub fn count_turns(line: &RouteLine, threshold: u32) -> (count: usize)
    requires
        line.wf(),
    ensures
        count == turns_above(line.turns@, threshold),
        line.points@.len() < 3 ==> count == 0,
{
    let n = line.turns.len();
    let mut count: usize = 0;
    let mut i: usize = 0;
    while i < n
        invariant
            i <= n,
            n == line.turns@.len(),
            count == turns_above(line.turns@.take(i as int), threshold),
            count <= i,
        decreases n - i,
    {
        proof {
            assert(line.turns@.take(i + 1).drop_last() =~= line.turns@.take(i as int));
        }
        if line.turns[i] > threshold {
            count = count + 1;
        }
        i = i + 1;
    }
    proof {
        assert(line.turns@.take(i as int) =~= line.turns@);
    }
    count
}

/// Total curvature of `line`: the sum of its turn angles, in thousandths of
/// a degree. A line of fewer than three points has none.
pub fn calculate_curvature(line: &RouteLine) -> (total: u64)
    requires
        line.wf(),
    ensures
        total == total_turning(line.turns@),
        line.points@.len() < 3 ==> total == 0,
{
    let n = line.turns.len();
    let mut total: u64 = 0;
    let mut i: usize = 0;
    while i < n
        invariant
            i <= n,
            n == line.turns@.len(),
            line.wf(),
            total == total_turning(line.turns@.take(i as int)),
            total <= i * 180_000,
        decreases n - i,
    {
        proof {
            assert(line.turns@.take(i + 1).drop_last() =~= line.turns@.take(i as int));
        }
        total = total + line.turns[i] as u64;
        i = i + 1;
    }
    proof {
        assert(line.turns@.take(i as int) =~= line.turns@);
    }
    total
}

/// Similarity of two turn counts in millionths: one when both are zero,
/// otherwise one minus their difference relative to the larger.
pub open spec fn turn_count_similarity(turns1: int, turns2: int) -> int {
    if turns1 == 0 && turns2 == 0 {
        SCORE_ONE as int
    } else {
        let larger = if turns1 >= turns2 {
            turns1
        } else {
            turns2
        };
        let ratio = (SCORE_ONE * abs_int(turns1 - turns2)) / larger;
        SCORE_ONE - if ratio > SCORE_ONE {
            SCORE_ONE as int
        } else {
            ratio
        }
    }
}

/// Compares two lines by their numbers of turns sharper than thirty degrees.
pub fn turn_sequence_similarity(line1: &RouteLine, line2: &RouteLine) -> (score: u32)
    requires
        line1.wf(),
        line2.wf(),
    ensures
        score == turn_count_similarity(
            turns_above(line1.turns@, TURN_THRESHOLD),
            turns_above(line2.turns@, TURN_THRESHOLD),
        ),
        score <= SCORE_ONE,
        line1.turns@ == line2.turns@ ==> score == SCORE_ONE,
{
    proof {
        lemma_turn_sequence_reflexive(*line1);
    }
    let turns1 = count_turns(line1, TURN_THRESHOLD);
    let turns2 = count_turns(line2, TURN_THRESHOLD);
    proof {
        lemma_turns_above_range(line1.turns@, TURN_THRESHOLD);
        lemma_turns_above_range(line2.turns@, TURN_THRESHOLD);
    }
    if turns1 == 0 && turns2 == 0 {
        return SCORE_ONE;
    }
    let larger: u64 = if turns1 >= turns2 { turns1 as u64 } else { turns2 as u64 };
    let diff: u64 = if turns1 >= turns2 { (turns1 - turns2) as u64 } else { (turns2 - turns1) as u64 };
    assert(SCORE_ONE * diff <= 1_000_000 * 65_535) by (nonlinear_arith)
        requires
            diff <= 65_535,
            SCORE_ONE == 1_000_000,
    ;
    let ratio: u64 = ((SCORE_ONE as u64) * diff) / larger;
    let capped: u64 = if ratio > SCORE_ONE as u64 { SCORE_ONE as u64 } else { ratio };
    (SCORE_ONE as u64 - capped) as u32
}

/// Square of the planar distance between two points, in squared coordinate
/// units.
pub open spec fn squared_distance(p: GeoPoint, q: GeoPoint) -> int {
    (p.lon - q.lon) * (p.lon - q.lon) + (p.lat - q.lat) * (p.lat - q.lat)
}

/// Squared distance from `p` to the nearest point of `line`; `None`
/// (infinitely far) when the line is empty.
pub open spec fn nearest_squared(p: GeoPoint, line: Seq<GeoPoint>) -> Option<int>
    decreases line.len(),
{
    if line.len() == 0 {
        None
    } else {
        cheaper(nearest_squared(p, line.drop_last()), Some(squared_distance(p, line.last())))
    }
}

/// Squared directed Hausdorff distance: the largest, over the points of
/// `from`, of the squared distance to the nearest point of `to`. Zero when
/// `from` is empty.
pub open spec fn directed_hausdorff_squared(from: Seq<GeoPoint>, to: Seq<GeoPoint>) -> Option<int>
    decreases from.len(),
{
    if from.len() == 0 {
        Some(0)
    } else {
        dearer(directed_hausdorff_squared(from.drop_last(), to), nearest_squared(from.last(), to))
    }
}

/// Squared symmetric Hausdorff distance: the larger of the two directed ones.
pub open spec fn hausdorff_squared(a: Seq<GeoPoint>, b: Seq<GeoPoint>) -> Option<int> {
    dearer(directed_hausdorff_squared(a, b), directed_hausdorff_squared(b, a))
}

/// Shape similarity in millionths: `1 / (1 + h / SHAPE_SCALE)` for the
/// Hausdorff distance `h`, rounded down; zero when `h` is infinite, which is
/// when exactly one line is empty.
pub open spec fn shape_similarity(a: Seq<GeoPoint>, b: Seq<GeoPoint>) -> int {
    match hausdorff_squared(a, b) {
        Some(d2) => (SCORE_ONE * SHAPE_SCALE) / (SHAPE_SCALE + isqrt(d2)),
        None => 0,
    }
}

/// The mathematical value of an optional squared distance.
pub open spec fn cost_view(c: Option<u128>) -> Option<int> {
    match c {
        Some(v) => Some(v as int),
        None => None,
    }
}

/// Square of the planar distance between two points.
pub fn euclidean_distance_squared(first: &GeoPoint, second: &GeoPoint) -> (d2: u128)
    ensures
        d2 == squared_distance(*first, *second),
        d2 <= 0x2_0000_0000_0000_0000,
{
    let dx: i128 = first.lon as i128 - second.lon as i128;
    let dy: i128 = first.lat as i128 - second.lat as i128;
    proof {
        assert(0 <= dx * dx <= 0x1_0000_0000_0000_0000) by (nonlinear_arith)
            requires
                -0x1_0000_0000 <= dx <= 0x1_0000_0000,
        ;
        assert(0 <= dy * dy <= 0x1_0000_0000_0000_0000) by (nonlinear_arith)
            requires
                -0x1_0000_0000 <= dy <= 0x1_0000_0000,
        ;
    }
    (dx * dx + dy * dy) as u128
}

/// Squared distance from `p` to the nearest point of `line`.
fn nearest_point_squared(p: &GeoPoint, line: &Vec<GeoPoint>) -> (best: Option<u128>)
    ensures
        cost_view(best) == nearest_squared(*p, line@),
        best matches Some(v) ==> v <= 0x2_0000_0000_0000_0000,
{
    let mut best: Option<u128> = None;
    let mut j: usize = 0;
    while j < line.len()
        invariant
            j <= line@.len(),
            cost_view(best) == nearest_squared(*p, line@.take(j as int)),
            best matches Some(v) ==> v <= 0x2_0000_0000_0000_0000,
        decreases line@.len() - j,
    {
        proof {
            assert(line@.take(j + 1).drop_last() =~= line@.take(j as int));
        }
        let d2 = euclidean_distance_squared(p, &line[j]);
        best = match best {
            Some(v) => Some(if v <= d2 { v } else { d2 }),
            None => Some(d2),
        };
        j = j + 1;
    }
    proof {
        assert(line@.take(j as int) =~= line@);
    }
    best
}

/// Squared directed Hausdorff distance from `from` to `to`.
fn directed_distance_squared(from: &Vec<GeoPoint>, to: &Vec<GeoPoint>) -> (worst: Option<u128>)
    ensures
        cost_view(worst) == directed_hausdorff_squared(from@, to@),
        worst matches Some(v) ==> v <= 0x2_0000_0000_0000_0000,
{
    let mut worst: Option<u128> = Some(0);
    let mut i: usize = 0;
    while i < from.len()
        invariant
            i <= from@.len(),
            cost_view(worst) == directed_hausdorff_squared(from@.take(i as int), to@),
            worst matches Some(v) ==> v <= 0x2_0000_0000_0000_0000,
        decreases from@.len() - i,
    {
        proof {
            assert(from@.take(i + 1).drop_last() =~= from@.take(i as int));
        }
        let near = nearest_point_squared(&from[i], to);
        worst = match (worst, near) {
            (Some(a), Some(b)) => Some(if a >= b { a } else { b }),
            _ => None,
        };
        i = i + 1;
    }
    proof {
        assert(from@.take(i as int) =~= from@);
    }
    worst
}

/// Shape similarity of two lines by their Hausdorff distance.
///
/// The distance is planar, in coordinate units, and is mapped to a score
/// through `1 / (1 + distance / SHAPE_SCALE)`.
pub fn hausdorff_distance(line1: &RouteLine, line2: &RouteLine) -> (score: u32)
    ensures
        score == shape_similarity(line1.points@, line2.points@),
        score <= SCORE_ONE,
        line1.points@ == line2.points@ ==> score == SCORE_ONE,
{
    proof {
        lemma_shape_similarity_reflexive(line1.points@);
    }
    let forward = directed_distance_squared(&line1.points, &line2.points);
    let backward = directed_distance_squared(&line2.points, &line1.points);
    match (forward, backward) {
        (Some(a), Some(b)) => {
            let d2 = if a >= b { a } else { b };
            let h = integer_sqrt(d2);
            proof {
                assert(h <= 0x2_0000_0000) by (nonlinear_arith)
                    requires
                        h * h <= d2,
                        d2 <= 0x2_0000_0000_0000_0000,
                        h >= 0,
                ;
            }
            assert(SCORE_ONE * SHAPE_SCALE == 100_000_000_000) by (nonlinear_arith)
                requires
                    SCORE_ONE == 1_000_000,
                    SHAPE_SCALE == 100_000,
            ;
            let scaled: u64 = (SCORE_ONE as u64) * SHAPE_SCALE;
            let score = scaled / (SHAPE_SCALE + h);
            proof {
                assert(score <= SCORE_ONE) by (nonlinear_arith)
                    requires
                        score == (SCORE_ONE * SHAPE_SCALE) / ((SHAPE_SCALE + h) as int),
                        h >= 0,
                        SHAPE_SCALE == 100_000,
                ;
            }
            score as u32
        },
        _ => 0,
    }
}

/// Shape similarity under the name of the Frechet distance; it is the
/// Hausdorff similarity.
pub fn frechet_distance(line1: &RouteLine, line2: &RouteLine) -> (score: u32)
    ensures
        score == shape_similarity(line1.points@, line2.points@),
        score <= SCORE_ONE,
        line1.points@ == line2.points@ ==> score == SCORE_ONE,
{
    hausdorff_distance(line1, line2)
}

/// Equal turn counts are fully similar.
pub proof fn lemma_turn_similarity_reflexive(turns: int)
    requires
        0 <= turns,
    ensures
        turn_count_similarity(turns, turns) == SCORE_ONE,
{
    if turns > 0 {
        assert((SCORE_ONE * 0) / turns == 0) by (nonlinear_arith)
            requires
                turns > 0,
        ;
    }
}

/// A line has full turn similarity with itself.
pub proof fn lemma_turn_sequence_reflexive(line: RouteLine)
    ensures
        turn_count_similarity(
            turns_above(line.turns@, TURN_THRESHOLD),
            turns_above(line.turns@, TURN_THRESHOLD),
        ) == SCORE_ONE,
{
    lemma_turns_above_range(line.turns@, TURN_THRESHOLD);
    lemma_turn_similarity_reflexive(turns_above(line.turns@, TURN_THRESHOLD));
}

/// The nearest point of a line is at least as near as any of its points.
pub proof fn lemma_nearest_bound(p: GeoPoint, line: Seq<GeoPoint>, k: int)
    requires
        0 <= k < line.len(),
    ensures
        nearest_squared(p, line) matches Some(d) && 0 <= d <= squared_distance(p, line[k]),
    decreases line.len(),
{
    let last = squared_distance(p, line.last());
    assert(last >= 0) by (nonlinear_arith)
        requires
            last == (p.lon - line.last().lon) * (p.lon - line.last().lon) + (p.lat
                - line.last().lat) * (p.lat - line.last().lat),
    ;
    if line.len() > 1 {
        if k < line.len() - 1 {
            lemma_nearest_bound(p, line.drop_last(), k);
        } else {
            lemma_nearest_bound(p, line.drop_last(), 0);
        }
    }
}

/// Every point of a line is at distance zero from the line.
pub proof fn lemma_directed_self(from: Seq<GeoPoint>, to: Seq<GeoPoint>)
    requires
        forall|i: int| 0 <= i < from.len() ==> to.contains(#[trigger] from[i]),
    ensures
        directed_hausdorff_squared(from, to) == Some(0int),
    decreases from.len(),
{
    if from.len() > 0 {
        assert forall|i: int| 0 <= i < from.drop_last().len() implies to.contains(
            #[trigger] from.drop_last()[i],
        ) by {
            assert(from.drop_last()[i] == from[i]);
        }
        lemma_directed_self(from.drop_last(), to);
        let p = from.last();
        assert(to.contains(from[from.len() - 1]));
        let k = choose|k: int| 0 <= k < to.len() && to[k] == p;
        lemma_nearest_bound(p, to, k);
        assert(squared_distance(p, to[k]) == 0) by (nonlinear_arith)
            requires
                to[k] == p,
                squared_distance(p, to[k]) == (p.lon - to[k].lon) * (p.lon - to[k].lon) + (p.lat
                    - to[k].lat) * (p.lat - to[k].lat),
        ;
    }
}

/// A line has full shape similarity with itself.
pub proof fn lemma_shape_similarity_reflexive(line: Seq<GeoPoint>)
    ensures
        shape_similarity(line, line) == SCORE_ONE,
{
    assert forall|i: int| 0 <= i < line.len() implies line.contains(#[trigger] line[i]) by {}
    lemma_directed_self(line, line);
    assert(hausdorff_squared(line, line) == Some(0int));
    lemma_isqrt_square(0);
    assert(isqrt(0) == 0);
    assert((SCORE_ONE * SHAPE_SCALE) / (SHAPE_SCALE + 0) == SCORE_ONE) by (nonlinear_arith)
        requires
            SCORE_ONE == 1_000_000,
            SHAPE_SCALE == 100_000,
    ;
}

} // verus!
