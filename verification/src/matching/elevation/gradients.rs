//! Rolling grades: the local slope of an elevation profile, from a
//! least-squares line through the samples of a sliding window.
//!
//! Elevations and cumulative distances are whole centimetres; grades are
//! hundredths of a percent held in 16 bits, so a grade saturates at
//! +/-327.67 %.

use vstd::prelude::*;
use crate::matching::geometry::MAX_POINTS;
use crate::matching::numeric::{abs_int, clamp_int, trunc_div, truncated_quotient};

verus! {

/// Hundredths of a percent in a slope of one.
pub const GRADE_SCALE: i128 = 10_000;

/// Largest magnitude of a grade.
pub const GRADE_LIMIT: i16 = 32_767;

/// Largest magnitude of a rise handed to `grade_from_slope`.
pub const RISE_LIMIT: i128 = 0x4_0000_0000_0000_0000_0000_0000;

/// Sum of the distances of a list of (distance, elevation) samples.
pub open spec fn sum_x(p: Seq<(u32, i32)>) -> int
    decreases p.len(),
{
    if p.len() == 0 {
        0
    } else {
        sum_x(p.drop_last()) + p.last().0
    }
}

/// Sum of the elevations of a list of samples.
pub open spec fn sum_y(p: Seq<(u32, i32)>) -> int
    decreases p.len(),
{
    if p.len() == 0 {
        0
    } else {
        sum_y(p.drop_last()) + p.last().1
    }
}

/// Sum of distance times elevation over a list of samples.
pub open spec fn sum_xy(p: Seq<(u32, i32)>) -> int
    decreases p.len(),
{
    if p.len() == 0 {
        0
    } else {
        sum_xy(p.drop_last()) + p.last().0 * p.last().1
    }
}

/// Sum of squared distances over a list of samples.
pub open spec fn sum_xx(p: Seq<(u32, i32)>) -> int
    decreases p.len(),
{
    if p.len() == 0 {
        0
    } else {
        sum_xx(p.drop_last()) + p.last().0 * p.last().0
    }
}

/// Numerator of the least-squares slope of elevation against distance.
pub open spec fn regression_numerator(p: Seq<(u32, i32)>) -> int {
    p.len() * sum_xy(p) - sum_x(p) * sum_y(p)
}

/// Denominator of the least-squares slope; zero when all distances agree.
pub open spec fn regression_denominator(p: Seq<(u32, i32)>) -> int {
    p.len() * sum_xx(p) - sum_x(p) * sum_x(p)
}

/// The grade of a slope `rise / run`: the slope times one hundred percent, in
/// hundredths of a percent, rounded toward zero and saturated; zero when
/// `run` is zero.
pub open spec fn grade_of_slope(rise: int, run: int) -> int {
    clamp_int(trunc_div(GRADE_SCALE * rise, run), -GRADE_LIMIT, GRADE_LIMIT as int)
}

/// The grade of the least-squares line through `p`; zero for fewer than two
/// samples or when all distances agree.
pub open spec fn regression_gradient(p: Seq<(u32, i32)>) -> int {
    if p.len() < 2 {
        0
    } else {
        grade_of_slope(regression_numerator(p), regression_denominator(p))
    }
}

/// Sample `j` lies within half a window of sample `i`.
pub open spec fn in_window(distances: Seq<u32>, i: int, j: int, window: u64) -> bool {
    2 * abs_int(distances[j] - distances[i]) <= window
}

/// The samples among the first `upto` that lie in the window around sample `i`,
/// in their order.
pub open spec fn window_samples(
    elevations: Seq<i32>,
    distances: Seq<u32>,
    i: int,
    window: u64,
    upto: int,
) -> Seq<(u32, i32)>
    decreases upto,
{
    if upto <= 0 {
        Seq::empty()
    } else {
        let rest = window_samples(elevations, distances, i, window, upto - 1);
        if in_window(distances, i, upto - 1, window) {
            rest.push((distances[upto - 1], elevations[upto - 1]))
        } else {
            rest
        }
    }
}

/// The grade between sample `i` and the one before it; zero unless the
/// distance grows.
pub open spec fn two_point_gradient(elevations: Seq<i32>, distances: Seq<u32>, i: int) -> int {
    if distances[i] > distances[i - 1] {
        grade_of_slope(elevations[i] - elevations[i - 1], distances[i] - distances[i - 1])
    } else {
        0
    }
}

/// The rolling grade at sample `i`: the regression over its window when the
/// window holds two samples or more, else the two-point grade to the previous
/// sample, else zero.
pub open spec fn rolling_gradient_at(
    elevations: Seq<i32>,
    distances: Seq<u32>,
    window: u64,
    i: int,
) -> int {
    let samples = window_samples(elevations, distances, i, window, distances.len() as int);
    if samples.len() >= 2 {
        regression_gradient(samples)
    } else if i > 0 {
        two_point_gradient(elevations, distances, i)
    } else {
        0
    }
}

/// A window never holds more samples than were looked at.
pub proof fn lemma_window_samples_len(
    elevations: Seq<i32>,
    distances: Seq<u32>,
    i: int,
    window: u64,
    upto: int,
)
    requires
        0 <= upto,
    ensures
        window_samples(elevations, distances, i, window, upto).len() <= upto,
    decreases upto,
{
    if upto > 0 {
        lemma_window_samples_len(elevations, distances, i, window, upto - 1);
    }
}

/// Grade of the slope `rise / run`.
pub fn grade_from_slope(rise: i128, run: i128) -> (grade: i16)
    requires
        -RISE_LIMIT <= rise <= RISE_LIMIT,
        -RISE_LIMIT <= run <= RISE_LIMIT,
    ensures
        grade == grade_of_slope(rise as int, run as int),
{
    let scaled: i128 = GRADE_SCALE * rise;
    let q = truncated_quotient(scaled, run);
    if q < -(GRADE_LIMIT as i128) {
        -GRADE_LIMIT
    } else if q > GRADE_LIMIT as i128 {
        GRADE_LIMIT
    } else {
        q as i16
    }
}

/// Bounds on the four sums of at most `MAX_POINTS` samples.
proof fn lemma_sum_bounds(p: Seq<(u32, i32)>)
    ensures
        0 <= sum_x(p) <= p.len() * 0xffff_ffff,
        -(p.len() * 0x8000_0000) <= sum_y(p) <= p.len() * 0x8000_0000,
        -(p.len() * 0x8000_0000_0000_0000) <= sum_xy(p) <= p.len() * 0x8000_0000_0000_0000,
        0 <= sum_xx(p) <= p.len() * 0x1_0000_0000_0000_0000,
    decreases p.len(),
{
    if p.len() > 0 {
        lemma_sum_bounds(p.drop_last());
        let x = p.last().0 as int;
        let y = p.last().1 as int;
        assert(-0x8000_0000_0000_0000 <= x * y <= 0x8000_0000_0000_0000) by (nonlinear_arith)
            requires
                0 <= x <= 0xffff_ffff,
                -0x8000_0000 <= y <= 0x8000_0000,
        ;
        assert(0 <= x * x <= 0x1_0000_0000_0000_0000) by (nonlinear_arith)
            requires
                0 <= x <= 0xffff_ffff,
        ;
    }
}

/// Least-squares grade of elevation against distance over `points`.
pub fn calculate_gradient_linear_regression(points: &[(u32, i32)]) -> (gradient: i16)
    requires
        points@.len() <= MAX_POINTS,
    ensures
        gradient == regression_gradient(points@),
{
    let n = points.len();
    if n < 2 {
        return 0;
    }
    let mut sx: i128 = 0;
    let mut sy: i128 = 0;
    let mut sxy: i128 = 0;
    let mut sxx: i128 = 0;
    let mut k: usize = 0;
    while k < n
        invariant
            k <= n,
            n == points@.len(),
            n <= MAX_POINTS,
            sx == sum_x(points@.take(k as int)),
            sy == sum_y(points@.take(k as int)),
            sxy == sum_xy(points@.take(k as int)),
            sxx == sum_xx(points@.take(k as int)),
        decreases n - k,
    {
        let (x, y) = points[k];
        proof {
            let next = points@.take(k + 1);
            assert(next.drop_last() =~= points@.take(k as int));
            assert(next.last() == (x, y));
            lemma_sum_bounds(points@.take(k as int));
            lemma_sum_bounds(next);
            assert(-0x8000_0000_0000_0000 <= x * y <= 0x8000_0000_0000_0000) by (nonlinear_arith)
                requires
                    0 <= x <= 0xffff_ffff,
                    -0x8000_0000 <= y <= 0x8000_0000,
            ;
            assert(0 <= x * x <= 0x1_0000_0000_0000_0000) by (nonlinear_arith)
                requires
                    0 <= x <= 0xffff_ffff,
            ;
        }
        sx = sx + x as i128;
        sy = sy + y as i128;
        sxy = sxy + (x as i128) * (y as i128);
        sxx = sxx + (x as i128) * (x as i128);
        k = k + 1;
    }
    proof {
        assert(points@.take(k as int) =~= points@);
        lemma_sum_bounds(points@);
        let m = n as int;
        assert(-0x1_0000_0000_0000_0000_0000_0000 <= m * sxy <= 0x1_0000_0000_0000_0000_0000_0000)
            by (nonlinear_arith)
            requires
                0 <= m <= 0xffff,
                -(m * 0x8000_0000_0000_0000) <= sxy <= m * 0x8000_0000_0000_0000,
        ;
        assert(-0x8000_0000_0000_0000_0000_0000 <= sx * sy <= 0x8000_0000_0000_0000_0000_0000)
            by (nonlinear_arith)
            requires
                0 <= m <= 0xffff,
                0 <= sx <= m * 0xffff_ffff,
                -(m * 0x8000_0000) <= sy <= m * 0x8000_0000,
        ;
        assert(0 <= m * sxx <= 0x1_0000_0000_0000_0000_0000_0000) by (nonlinear_arith)
            requires
                0 <= m <= 0xffff,
                0 <= sxx <= m * 0x1_0000_0000_0000_0000,
        ;
        assert(0 <= sx * sx <= 0x1_0000_0000_0000_0000_0000_0000) by (nonlinear_arith)
            requires
                0 <= m <= 0xffff,
                0 <= sx <= m * 0xffff_ffff,
        ;
    }
    let count: i128 = n as i128;
    let numerator: i128 = count * sxy - sx * sy;
    let denominator: i128 = count * sxx - sx * sx;
    grade_from_slope(numerator, denominator)
}

/// The rolling grades of a profile: one per sample, or none when the profile
/// is empty or its distances differ from it in number.
pub open spec fn rolling_gradients(elevations: Seq<i32>, distances: Seq<u32>, window: u64) -> Seq<
    i16,
> {
    if elevations.len() == 0 || elevations.len() != distances.len() {
        Seq::empty()
    } else {
        Seq::new(
            elevations.len(),
            |i: int| rolling_gradient_at(elevations, distances, window, i) as i16,
        )
    }
}

/// Rolling grades of an elevation profile.
///
/// For each sample, fits a least-squares line through all samples whose
/// distance lies within half of `window_size` of its own and reports the
/// grade of that line. A sample alone in its window takes the grade to the
/// previous sample, and the first sample takes zero. Profiles that are empty
/// or do not match their distances in length give no grades.
pub fn calculate_rolling_gradients(elevations: &[i32], distances: &[u32], window_size: u64) -> (gradients:
    Vec<i16>)
    requires
        elevations@.len() <= MAX_POINTS,
    ensures
        gradients@ == rolling_gradients(elevations@, distances@, window_size),
{
    let n = elevations.len();
    if n == 0 || distances.len() == 0 || n != distances.len() {
        return Vec::new();
    }
    let mut gradients: Vec<i16> = Vec::with_capacity(n);
    let mut i: usize = 0;
    while i < n
        invariant
            i <= n,
            n == elevations@.len(),
            n == distances@.len(),
            n <= MAX_POINTS,
            gradients@.len() == i,
            forall|k: int|
                0 <= k < i ==> #[trigger] gradients@[k] == rolling_gradient_at(
                    elevations@,
                    distances@,
                    window_size,
                    k,
                ),
        decreases n - i,
    {
        let current = distances[i];
        let mut window_points: Vec<(u32, i32)> = Vec::new();
        let mut j: usize = 0;
        while j < n
            invariant
                j <= n,
                i < n,
                n == elevations@.len(),
                n == distances@.len(),
                current == distances@[i as int],
                window_points@ == window_samples(
                    elevations@,
                    distances@,
                    i as int,
                    window_size,
                    j as int,
                ),
            decreases n - j,
        {
            let d = distances[j];
            let gap: u64 = if d >= current { (d - current) as u64 } else { (current - d) as u64 };
            if 2 * gap <= window_size {
                window_points.push((d, elevations[j]));
            }
            j = j + 1;
        }
        proof {
            lemma_window_samples_len(elevations@, distances@, i as int, window_size, n as int);
        }
        let gradient: i16 = if window_points.len() >= 2 {
            calculate_gradient_linear_regression(window_points.as_slice())
        } else if i > 0 {
            if distances[i] > distances[i - 1] {
                let run: i128 = (distances[i] - distances[i - 1]) as i128;
                let rise: i128 = elevations[i] as i128 - elevations[i - 1] as i128;
                grade_from_slope(rise, run)
            } else {
                0
            }
        } else {
            0
        };
        gradients.push(gradient);
        i = i + 1;
    }
    proof {
        assert(gradients@ =~= rolling_gradients(elevations@, distances@, window_size));
    }
    gradients
}

/// All samples of a profile with their distances.
pub open spec fn all_samples(elevations: Seq<i32>, distances: Seq<u32>) -> Seq<(u32, i32)> {
    Seq::new(distances.len(), |j: int| (distances[j], elevations[j]))
}

/// A window at least twice as wide as the longest distance holds every
/// sample.
pub proof fn lemma_wide_window_samples(
    elevations: Seq<i32>,
    distances: Seq<u32>,
    i: int,
    window: u64,
    upto: int,
)
    requires
        0 <= i < distances.len(),
        0 <= upto <= distances.len(),
        window >= 2 * 0xffff_ffff,
    ensures
        window_samples(elevations, distances, i, window, upto) == all_samples(
            elevations,
            distances,
        ).take(upto),
    decreases upto,
{
    let all = all_samples(elevations, distances);
    if upto == 0 {
        assert(all.take(0) =~= Seq::<(u32, i32)>::empty());
    } else {
        lemma_wide_window_samples(elevations, distances, i, window, upto - 1);
        assert(in_window(distances, i, upto - 1, window));
        assert(all.take(upto) =~= all.take(upto - 1).push((distances[upto - 1], elevations[upto - 1])));
    }
}

/// With a window that spans the whole route, the rolling grade of every
/// sample is the grade of the one best-fit line through all samples.
pub proof fn lemma_wide_window_gradients(elevations: Seq<i32>, distances: Seq<u32>, window: u64)
    requires
        elevations.len() == distances.len(),
        window >= 2 * 0xffff_ffff,
    ensures
        forall|i: int|
            0 <= i < elevations.len() ==> #[trigger] rolling_gradient_at(
                elevations,
                distances,
                window,
                i,
            ) == regression_gradient(all_samples(elevations, distances)),
{
    let all = all_samples(elevations, distances);
    assert forall|i: int| 0 <= i < elevations.len() implies #[trigger] rolling_gradient_at(
        elevations,
        distances,
        window,
        i,
    ) == regression_gradient(all) by {
        lemma_wide_window_samples(elevations, distances, i, window, distances.len() as int);
        assert(all.take(distances.len() as int) =~= all);
        if all.len() < 2 {
            assert(i == 0);
        }
    }
}

} // verus!
