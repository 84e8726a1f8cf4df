//! Integer helpers shared by the similarity metrics.
//!
//! Every quantity in this crate is a whole number of some small unit
//! (centimetres, hundredths of a percent, millionths of a score), so the
//! metrics need exact integer division, clamping and square roots.

use vstd::prelude::*;

verus! {

/// A correlation or a score of one, in millionths.
pub const SCORE_ONE: u32 = 1_000_000;

/// Absolute value of a mathematical integer.
pub open spec fn abs_int(a: int) -> int {
    if a < 0 {
        -a
    } else {
        a
    }
}

/// Quotient of `a` by `b` rounded toward zero; zero when `b` is zero.
pub open spec fn trunc_div(a: int, b: int) -> int {
    if b == 0 {
        0
    } else if b > 0 {
        if a >= 0 {
            a / b
        } else {
            -((-a) / b)
        }
    } else {
        if a >= 0 {
            -(a / (-b))
        } else {
            (-a) / (-b)
        }
    }
}

/// `v` limited to the closed range `lo..=hi`.
pub open spec fn clamp_int(v: int, lo: int, hi: int) -> int {
    if v < lo {
        lo
    } else if v > hi {
        hi
    } else {
        v
    }
}

/// The smaller of two costs, where `None` stands for an infinite cost.
pub open spec fn cheaper(a: Option<int>, b: Option<int>) -> Option<int> {
    match (a, b) {
        (Some(x), Some(y)) => Some(if x <= y { x } else { y }),
        (Some(x), None) => Some(x),
        (None, _) => b,
    }
}

/// The larger of two costs, where `None` stands for an infinite cost.
pub open spec fn dearer(a: Option<int>, b: Option<int>) -> Option<int> {
    match (a, b) {
        (Some(x), Some(y)) => Some(if x >= y { x } else { y }),
        _ => None,
    }
}

/// `r` is the integer part of the square root of `n`.
pub open spec fn is_sqrt_floor(n: int, r: int) -> bool {
    0 <= r && r * r <= n && n < (r + 1) * (r + 1)
}

/// The integer part of the square root of `n` (zero for negative `n`).
pub open spec fn isqrt(n: int) -> int {
    if n < 0 {
        0
    } else {
        choose|r: int| is_sqrt_floor(n, r)
    }
}

/// At most one integer is the floor of the square root of `n`.
pub proof fn lemma_sqrt_floor_unique(n: int, r1: int, r2: int)
    requires
        is_sqrt_floor(n, r1),
        is_sqrt_floor(n, r2),
    ensures
        r1 == r2,
{
    if r1 < r2 {
        assert((r1 + 1) * (r1 + 1) <= r2 * r2) by (nonlinear_arith)
            requires
                0 <= r1,
                r1 + 1 <= r2,
        ;
    }
    if r2 < r1 {
        assert((r2 + 1) * (r2 + 1) <= r1 * r1) by (nonlinear_arith)
            requires
                0 <= r2,
                r2 + 1 <= r1,
        ;
    }
}

/// Any witness of `is_sqrt_floor` is the value of `isqrt`.
pub proof fn lemma_isqrt_is(n: int, r: int)
    requires
        is_sqrt_floor(n, r),
    ensures
        isqrt(n) == r,
{
    assert(n >= 0) by (nonlinear_arith)
        requires
            r * r <= n,
    ;
    let chosen = choose|c: int| is_sqrt_floor(n, c);
    lemma_sqrt_floor_unique(n, chosen, r);
}

/// The square root of a perfect square is exact.
pub proof fn lemma_isqrt_square(v: int)
    requires
        0 <= v,
    ensures
        isqrt(v * v) == v,
{
    assert(v * v < (v + 1) * (v + 1)) by (nonlinear_arith)
        requires
            0 <= v,
    ;
    lemma_isqrt_is(v * v, v);
}

/// Integer square root by bisection.
pub fn integer_sqrt(n: u128) -> (r: u64)
    ensures
        r as int == isqrt(n as int),
        is_sqrt_floor(n as int, r as int),
{
    let mut low: u128 = 0;
    let mut high: u128 = 0x1_0000_0000_0000_0000;
    assert(n < high * high) by (nonlinear_arith)
        requires
            high == 0x1_0000_0000_0000_0000u128,
            n <= u128::MAX,
    ;
    while high - low > 1
        invariant
            low < high <= 0x1_0000_0000_0000_0000,
            low * low <= n,
            n < high * high,
        decreases high - low,
    {
        let mid: u128 = low + (high - low) / 2;
        assert(mid * mid < 0x1_0000_0000_0000_0000 * 0x1_0000_0000_0000_0000) by (nonlinear_arith)
            requires
                mid < 0x1_0000_0000_0000_0000,
        ;
        if mid * mid <= n {
            low = mid;
        } else {
            high = mid;
        }
    }
    proof {
        lemma_isqrt_is(n as int, low as int);
    }
    low as u64
}


/// Largest magnitude accepted by `truncated_quotient`.
pub const QUOTIENT_LIMIT: i128 = 0x4000_0000_0000_0000_0000_0000_0000_0000;

/// Division rounding toward zero; zero for a zero divisor.
pub fn truncated_quotient(a: i128, b: i128) -> (q: i128)
    requires
        -QUOTIENT_LIMIT <= a <= QUOTIENT_LIMIT,
        -QUOTIENT_LIMIT <= b <= QUOTIENT_LIMIT,
    ensures
        q == trunc_div(a as int, b as int),
        abs_int(q as int) <= abs_int(a as int),
{
    if b == 0 {
        return 0;
    }
    let ua: u128 = if a < 0 { (-a) as u128 } else { a as u128 };
    let ub: u128 = if b < 0 { (-b) as u128 } else { b as u128 };
    let uq: u128 = ua / ub;
    proof {
        assert(uq <= ua) by (nonlinear_arith)
            requires
                uq == ua / ub,
                ub >= 1,
        ;
    }
    if (a >= 0) == (b > 0) {
        uq as i128
    } else {
        -(uq as i128)
    }
}

} // verus!
