//! Comparing grade profiles: resampling to a common length and Pearson
//! correlation, in millionths.

use vstd::prelude::*;
use crate::matching::geometry::MAX_POINTS;
use crate::matching::numeric::{
    clamp_int, integer_sqrt, isqrt, lemma_isqrt_square, trunc_div, truncated_quotient, SCORE_ONE,
};

verus! {

/// Value at index `i` of `series` stretched to `target_len` entries.
///
/// Index `i` falls at position `i * (len - 1) / (target_len - 1)` of the
/// series; the value is interpolated linearly between the two neighbours of
/// that position and rounded toward zero. A single-entry stretch takes the
/// first value.
pub open spec fn resample_at(series: Seq<i16>, target_len: int, i: int) -> int {
    let span = target_len - 1;
    if span <= 0 {
        series[0] as int
    } else {
        let scaled = i * (series.len() - 1);
        let index = scaled / span;
        let part = scaled % span;
        if index + 1 < series.len() {
            trunc_div(series[index] * (span - part) + series[index + 1] * part, span)
        } else {
            series[index] as int
        }
    }
}

/// `series` stretched or shrunk to `target_len` entries; the series itself
/// when the lengths agree, and nothing when the series is empty.
pub open spec fn resample(series: Seq<i16>, target_len: nat) -> Seq<i16> {
    if series.len() == target_len {
        series
    } else if series.len() == 0 {
        Seq::empty()
    } else {
        Seq::new(target_len, |i: int| resample_at(series, target_len as int, i) as i16)
    }
}

/// A weighted mean of two 16-bit values is a 16-bit value.
proof fn lemma_blend_range(a: int, b: int, span: int, part: int)
    requires
        -32768 <= a <= 32767,
        -32768 <= b <= 32767,
        0 <= part < span,
    ensures
        -32768 * span <= a * (span - part) + b * part <= 32767 * span,
        -32768 <= trunc_div(a * (span - part) + b * part, span) <= 32767,
{
    let v = a * (span - part) + b * part;
    assert(-32768 * span <= v <= 32767 * span) by (nonlinear_arith)
        requires
            v == a * (span - part) + b * part,
            -32768 <= a <= 32767,
            -32768 <= b <= 32767,
            0 <= part < span,
    ;
    if v >= 0 {
        assert(v / span <= 32767) by (nonlinear_arith)
            requires
                0 <= v <= 32767 * span,
                span > 0,
        ;
        assert(v / span >= 0) by (nonlinear_arith)
            requires
                0 <= v,
                span > 0,
        ;
    } else {
        assert(0 <= (-v) / span <= 32768) by (nonlinear_arith)
            requires
                0 <= -v <= 32768 * span,
                span > 0,
        ;
    }
}

/// The position of an index of the stretched series lies inside the series.
proof fn lemma_position_range(i: int, last: int, span: int)
    requires
        0 <= i <= span,
        0 <= last,
        0 < span,
    ensures
        0 <= (i * last) / span <= last,
        0 <= (i * last) % span < span,
        0 <= i * last,
{
    assert(0 <= i * last <= span * last) by (nonlinear_arith)
        requires
            0 <= i <= span,
            0 <= last,
    ;
    assert(0 <= (i * last) / span <= last) by (nonlinear_arith)
        requires
            0 <= i * last <= span * last,
            0 < span,
    ;
}

/// Resamples `gradients` to `target_len` entries by linear interpolation.
///
/// A series that already has `target_len` entries is returned unchanged, and
/// an empty series gives an empty result.
pub fn resample_gradients(gradients: &[i16], target_len: usize) -> (resampled: Vec<i16>)
    ensures
        resampled@ == resample(gradients@, target_len as nat),
        gradients@.len() == target_len ==> resampled@ == gradients@,
{
    let n = gradients.len();
    let mut resampled: Vec<i16> = Vec::new();
    if n == target_len {
        let mut k: usize = 0;
        while k < n
            invariant
                k <= n,
                n == gradients@.len(),
                resampled@ == gradients@.take(k as int),
            decreases n - k,
        {
            resampled.push(gradients[k]);
            proof {
                assert(gradients@.take(k + 1) =~= gradients@.take(k as int).push(
                    gradients@[k as int],
                ));
            }
            k = k + 1;
        }
        proof {
            assert(gradients@.take(k as int) =~= gradients@);
        }
        return resampled;
    }
    if n == 0 {
        return resampled;
    }
    let span: u128 = (target_len as u128) - (if target_len > 0 { 1u128 } else { 0u128 });
    let last: u128 = (n - 1) as u128;
    let mut i: usize = 0;
    while i < target_len
        invariant
            i <= target_len,
            n == gradients@.len(),
            n > 0,
            n != target_len,
            last == n - 1,
            target_len > 0 ==> span == target_len - 1,
            resampled@.len() == i,
            forall|k: int|
                0 <= k < i ==> #[trigger] resampled@[k] == resample_at(
                    gradients@,
                    target_len as int,
                    k,
                ),
        decreases target_len - i,
    {
        let value: i16 = if span == 0 {
            gradients[0]
        } else {
            proof {
                lemma_position_range(i as int, last as int, span as int);
                assert(i * last <= 0xffff_ffff_ffff_ffff * 0xffff_ffff_ffff_ffff) by (nonlinear_arith)
                    requires
                        0 <= i <= 0xffff_ffff_ffff_ffff,
                        0 <= last <= 0xffff_ffff_ffff_ffff,
                ;
            }
            let scaled: u128 = (i as u128) * last;
            let index: usize = (scaled / span) as usize;
            let part: u128 = scaled % span;
            if index + 1 < n {
                let a: i128 = gradients[index] as i128;
                let b: i128 = gradients[index + 1] as i128;
                proof {
                    lemma_blend_range(a as int, b as int, span as int, part as int);
                    assert(a * (span - part) + b * part == gradients@[index as int] * (span - part)
                        + gradients@[index + 1] * part);
                    assert(-0x8000_0000_0000_0000_0000 <= a * (span - part)
                        <= 0x8000_0000_0000_0000_0000) by (nonlinear_arith)
                        requires
                            -32768 <= a <= 32767,
                            0 <= span - part <= 0xffff_ffff_ffff_ffff,
                    ;
                    assert(-0x8000_0000_0000_0000_0000 <= b * part <= 0x8000_0000_0000_0000_0000)
                        by (nonlinear_arith)
                        requires
                            -32768 <= b <= 32767,
                            0 <= part <= 0xffff_ffff_ffff_ffff,
                    ;
                }
                let blend: i128 = a * ((span - part) as i128) + b * (part as i128);
                let q = truncated_quotient(blend, span as i128);
                q as i16
            } else {
                gradients[index]
            }
        };
        resampled.push(value);
        i = i + 1;
    }
    proof {
        assert(resampled@ =~= resample(gradients@, target_len as nat));
    }
    resampled
}

/// Sum of a series of grades.
pub open spec fn series_sum(x: Seq<i16>) -> int
    decreases x.len(),
{
    if x.len() == 0 {
        0
    } else {
        series_sum(x.drop_last()) + x.last()
    }
}

/// Sum of the products of the entries of two series of one length.
pub open spec fn series_dot(x: Seq<i16>, y: Seq<i16>) -> int
    decreases x.len(),
{
    if x.len() == 0 || y.len() == 0 {
        0
    } else {
        series_dot(x.drop_last(), y.drop_last()) + x.last() * y.last()
    }
}

/// The variance of `x` times the square of its length.
pub open spec fn spread(x: Seq<i16>) -> int {
    x.len() * series_dot(x, x) - series_sum(x) * series_sum(x)
}

/// The covariance of `x` and `y` times the square of their length.
pub open spec fn co_spread(x: Seq<i16>, y: Seq<i16>) -> int {
    x.len() * series_dot(x, y) - series_sum(x) * series_sum(y)
}

/// Pearson correlation of `x` and `y` in millionths, between minus one
/// million and one million.
///
/// Zero when the series differ in length, are empty, or either has no
/// variance. The square root in the denominator is taken to the integer
/// below and the quotient is rounded toward zero.
pub open spec fn pearson(x: Seq<i16>, y: Seq<i16>) -> int {
    if x.len() != y.len() || x.len() == 0 {
        0
    } else if spread(x) <= 0 || spread(y) <= 0 {
        0
    } else {
        clamp_int(
            trunc_div(SCORE_ONE * co_spread(x, y), isqrt(spread(x) * spread(y))),
            -(SCORE_ONE as int),
            SCORE_ONE as int,
        )
    }
}

/// Bounds on the sum and the products of series of grades.
proof fn lemma_series_bounds(x: Seq<i16>, y: Seq<i16>)
    requires
        x.len() == y.len(),
    ensures
        -(x.len() * 0x8000) <= series_sum(x) <= x.len() * 0x8000,
        -(x.len() * 0x4000_0000) <= series_dot(x, y) <= x.len() * 0x4000_0000,
    decreases x.len(),
{
    if x.len() > 0 {
        lemma_series_bounds(x.drop_last(), y.drop_last());
        let a = x.last() as int;
        let b = y.last() as int;
        assert(-0x4000_0000 <= a * b <= 0x4000_0000) by (nonlinear_arith)
            requires
                -0x8000 <= a <= 0x8000,
                -0x8000 <= b <= 0x8000,
        ;
    }
}

/// Sum of `x` and its products with `y`, for series of one length.
fn series_sums(x: &[i16], y: &[i16]) -> (sums: (i64, i64))
    requires
        x@.len() == y@.len(),
        x@.len() <= MAX_POINTS,
    ensures
        sums.0 == series_sum(x@),
        sums.1 == series_dot(x@, y@),
        -(x@.len() * 0x8000) <= sums.0 <= x@.len() * 0x8000,
        -(x@.len() * 0x4000_0000) <= sums.1 <= x@.len() * 0x4000_0000,
{
    let n = x.len();
    let mut sum: i64 = 0;
    let mut dot: i64 = 0;
    let mut k: usize = 0;
    while k < n
        invariant
            k <= n,
            n == x@.len(),
            n == y@.len(),
            n <= MAX_POINTS,
            sum == series_sum(x@.take(k as int)),
            dot == series_dot(x@.take(k as int), y@.take(k as int)),
        decreases n - k,
    {
        proof {
            assert(x@.take(k + 1).drop_last() =~= x@.take(k as int));
            assert(y@.take(k + 1).drop_last() =~= y@.take(k as int));
            lemma_series_bounds(x@.take(k as int), y@.take(k as int));
            lemma_series_bounds(x@.take(k + 1), y@.take(k + 1));
            let a = x@[k as int] as int;
            let b = y@[k as int] as int;
            assert(-0x4000_0000 <= a * b <= 0x4000_0000) by (nonlinear_arith)
                requires
                    -0x8000 <= a <= 0x8000,
                    -0x8000 <= b <= 0x8000,
            ;
        }
        sum = sum + x[k] as i64;
        dot = dot + (x[k] as i64) * (y[k] as i64);
        k = k + 1;
    }
    proof {
        assert(x@.take(k as int) =~= x@);
        assert(y@.take(k as int) =~= y@);
        lemma_series_bounds(x@, y@);
    }
    (sum, dot)
}

/// Pearson correlation coefficient of two series, in millionths.
///
/// Returns zero when the series differ in length, are empty, or either has
/// no variance.
pub fn calculate_correlation(x: &[i16], y: &[i16]) -> (r: i32)
    requires
        x@.len() <= MAX_POINTS,
    ensures
        r == pearson(x@, y@),
        -(SCORE_ONE as int) <= r <= SCORE_ONE,
        x@ == y@ && varies(x@) ==> r == SCORE_ONE,
{
    proof {
        if x@ == y@ && varies(x@) {
            lemma_pearson_reflexive(x@);
        }
    }
    let n = x.len();
    if n != y.len() || n == 0 {
        return 0;
    }
    let (sum_x, dot_xy) = series_sums(x, y);
    let (_, dot_xx) = series_sums(x, x);
    let (sum_y, dot_yy) = series_sums(y, y);
    let count: i128 = n as i128;
    proof {
        let m = n as int;
        let limit = 0x4000_0000_0000_0000int;
        assert(-limit <= m * dot_xy <= limit && -limit <= m * dot_xx <= limit && -limit <= m
            * dot_yy <= limit) by (nonlinear_arith)
            requires
                0 <= m <= 0xffff,
                -(m * 0x4000_0000) <= dot_xy <= m * 0x4000_0000,
                -(m * 0x4000_0000) <= dot_xx <= m * 0x4000_0000,
                -(m * 0x4000_0000) <= dot_yy <= m * 0x4000_0000,
                limit == 0x4000_0000_0000_0000,
        ;
        assert(-limit <= sum_x * sum_y <= limit && 0 <= sum_x * sum_x <= limit && 0 <= sum_y
            * sum_y <= limit) by (nonlinear_arith)
            requires
                0 <= m <= 0xffff,
                -(m * 0x8000) <= sum_x <= m * 0x8000,
                -(m * 0x8000) <= sum_y <= m * 0x8000,
                limit == 0x4000_0000_0000_0000,
        ;
    }
    let numerator: i128 = count * (dot_xy as i128) - (sum_x as i128) * (sum_y as i128);
    let spread_x: i128 = count * (dot_xx as i128) - (sum_x as i128) * (sum_x as i128);
    let spread_y: i128 = count * (dot_yy as i128) - (sum_y as i128) * (sum_y as i128);
    if spread_x <= 0 || spread_y <= 0 {
        return 0;
    }
    proof {
        assert(0 < spread_x * spread_y <= 0x4000_0000_0000_0000_0000_0000_0000_0000)
            by (nonlinear_arith)
            requires
                0 < spread_x <= 0x8000_0000_0000_0000,
                0 < spread_y <= 0x8000_0000_0000_0000,
        ;
        assert(-0x1_0000_0000_0000_0000_0000_0000 <= SCORE_ONE * numerator
            <= 0x1_0000_0000_0000_0000_0000_0000) by (nonlinear_arith)
            requires
                -0x8000_0000_0000_0000 <= numerator <= 0x8000_0000_0000_0000,
                SCORE_ONE == 1_000_000,
        ;
    }
    let product: u128 = (spread_x as u128) * (spread_y as u128);
    let root: u64 = integer_sqrt(product);
    let q = truncated_quotient((SCORE_ONE as i128) * numerator, root as i128);
    if q < -(SCORE_ONE as i128) {
        -(SCORE_ONE as i32)
    } else if q > SCORE_ONE as i128 {
        SCORE_ONE as i32
    } else {
        q as i32
    }
}

/// Similarity of two grade profiles in millionths: both are resampled to the
/// longer length, correlated, and the correlation `r` is mapped to
/// `(r + 1) / 2`. Zero when either profile is empty.
pub open spec fn gradient_similarity(g1: Seq<i16>, g2: Seq<i16>) -> int {
    if g1.len() == 0 || g2.len() == 0 {
        0
    } else {
        let target = if g1.len() >= g2.len() {
            g1.len()
        } else {
            g2.len()
        };
        (pearson(resample(g1, target), resample(g2, target)) + SCORE_ONE) / 2
    }
}

/// Compares two rolling-grade profiles by correlation.
pub fn gradient_profile_similarity(gradients1: &[i16], gradients2: &[i16]) -> (score: u32)
    requires
        gradients1@.len() <= MAX_POINTS,
        gradients2@.len() <= MAX_POINTS,
    ensures
        score == gradient_similarity(gradients1@, gradients2@),
        score <= SCORE_ONE,
{
    if gradients1.len() == 0 || gradients2.len() == 0 {
        return 0;
    }
    let target_len = if gradients1.len() >= gradients2.len() {
        gradients1.len()
    } else {
        gradients2.len()
    };
    let resampled1 = resample_gradients(gradients1, target_len);
    let resampled2 = resample_gradients(gradients2, target_len);
    let correlation = calculate_correlation(resampled1.as_slice(), resampled2.as_slice());
    ((correlation + SCORE_ONE as i32) / 2) as u32
}

/// Sum of the squared differences between the entries of `x` and `v`.
pub open spec fn squared_deviation(x: Seq<i16>, v: int) -> int
    decreases x.len(),
{
    if x.len() == 0 {
        0
    } else {
        squared_deviation(x.drop_last(), v) + (x.last() - v) * (x.last() - v)
    }
}

/// The squared deviation written out in sums.
pub proof fn lemma_squared_deviation_sums(x: Seq<i16>, v: int)
    ensures
        squared_deviation(x, v) == series_dot(x, x) - 2 * v * series_sum(x) + x.len() * v * v,
    decreases x.len(),
{
    if x.len() > 0 {
        let head = x.drop_last();
        lemma_squared_deviation_sums(head, v);
        let a = x.last() as int;
        let n = head.len() as int;
        let q = series_dot(head, head);
        let t = series_sum(head);
        assert(series_dot(x, x) == q + a * a);
        assert(series_sum(x) == t + a);
        assert((q - 2 * v * t + n * v * v) + (a - v) * (a - v) == (q + a * a) - 2 * v * (t + a) + (
        n + 1) * v * v) by (nonlinear_arith);
    }
}

/// A squared deviation is never negative, and positive when an entry
/// differs from `v`.
pub proof fn lemma_squared_deviation_sign(x: Seq<i16>, v: int)
    ensures
        squared_deviation(x, v) >= 0,
        (exists|i: int| 0 <= i < x.len() && x[i] != v) ==> squared_deviation(x, v) > 0,
    decreases x.len(),
{
    if x.len() > 0 {
        let head = x.drop_last();
        lemma_squared_deviation_sign(head, v);
        let d = x.last() - v;
        assert(d * d >= 0 && (d != 0 ==> d * d > 0)) by (nonlinear_arith);
        if exists|i: int| 0 <= i < x.len() && x[i] != v {
            let i = choose|i: int| 0 <= i < x.len() && x[i] != v;
            if i < head.len() {
                assert(head[i] != v);
            }
        }
    }
}

/// Some two entries of `x` differ.
pub open spec fn varies(x: Seq<i16>) -> bool {
    exists|i: int, j: int| 0 <= i < x.len() && 0 <= j < x.len() && x[i] != x[j]
}

/// The spread of a series grows by the squared deviation from each new entry.
pub proof fn lemma_spread_step(x: Seq<i16>)
    requires
        x.len() > 0,
    ensures
        spread(x) == spread(x.drop_last()) + squared_deviation(x.drop_last(), x.last() as int),
{
    let head = x.drop_last();
    let v = x.last() as int;
    lemma_squared_deviation_sums(head, v);
    let n = head.len() as int;
    let q = series_dot(head, head);
    let t = series_sum(head);
    assert(series_dot(x, x) == q + v * v);
    assert(series_sum(x) == t + v);
    assert((n + 1) * (q + v * v) - (t + v) * (t + v) == (n * q - t * t) + (q - 2 * v * t + n * v
        * v)) by (nonlinear_arith);
}

/// The spread of a series is never negative, and positive when the series
/// is not constant.
pub proof fn lemma_spread_sign(x: Seq<i16>)
    ensures
        spread(x) >= 0,
        varies(x) ==> spread(x) > 0,
    decreases x.len(),
{
    if x.len() == 0 {
        assert(spread(x) == 0) by (nonlinear_arith)
            requires
                spread(x) == 0 * series_dot(x, x) - series_sum(x) * series_sum(x),
                series_sum(x) == 0,
        ;
    } else {
        let head = x.drop_last();
        let v = x.last() as int;
        lemma_spread_sign(head);
        lemma_spread_step(x);
        lemma_squared_deviation_sign(head, v);
        if varies(x) {
            let (i, j) = choose|i: int, j: int|
                0 <= i < x.len() && 0 <= j < x.len() && x[i] != x[j];
            if i < head.len() && j < head.len() {
                assert(head[i] != head[j]);
                assert(varies(head));
            } else if i < head.len() {
                assert(head[i] != v);
            } else {
                assert(head[j] != v);
            }
        }
    }
}

/// A series with a positive spread correlates fully with itself.
pub proof fn lemma_pearson_self(x: Seq<i16>)
    requires
        spread(x) > 0,
    ensures
        pearson(x, x) == SCORE_ONE,
{
    let s = spread(x);
    assert(x.len() > 0) by {
        if x.len() == 0 {
            lemma_spread_sign(x);
            assert(spread(x) == 0) by (nonlinear_arith)
                requires
                    spread(x) == 0 * series_dot(x, x) - series_sum(x) * series_sum(x),
                    series_sum(x) == 0,
            ;
        }
    }
    assert(co_spread(x, x) == s);
    lemma_isqrt_square(s);
    assert((SCORE_ONE * s) / s == SCORE_ONE) by (nonlinear_arith)
        requires
            s > 0,
    ;
}

/// A series that is not constant correlates fully with itself.
pub proof fn lemma_pearson_reflexive(x: Seq<i16>)
    requires
        varies(x),
    ensures
        pearson(x, x) == SCORE_ONE,
{
    lemma_spread_sign(x);
    lemma_pearson_self(x);
}

/// A grade profile that is not constant is fully similar to itself.
pub proof fn lemma_gradient_similarity_reflexive(g: Seq<i16>)
    requires
        varies(g),
    ensures
        gradient_similarity(g, g) == SCORE_ONE,
{
    lemma_pearson_reflexive(g);
    assert(resample(g, g.len()) == g);
}

} // verus!
