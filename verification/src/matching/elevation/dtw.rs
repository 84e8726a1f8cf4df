//! Banded dynamic time warping over elevation profiles.

use vstd::prelude::*;
use crate::matching::geometry::MAX_POINTS;
use crate::matching::numeric::{abs_int, cheaper, SCORE_ONE};

verus! {

/// Cost of the cheapest warping path that aligns the first `i` samples of
/// `first` with the first `j` samples of `second` while staying within `window`
/// steps of the diagonal, or `None` when there is no such path.
///
/// A path starts at cost zero with nothing aligned; each step aligns one more
/// sample of either or both profiles and costs the absolute difference of the
/// two samples it pairs.
#[verifier::opaque]
pub open spec fn dtw_cell(first: Seq<i32>, second: Seq<i32>, window: int, i: int, j: int) -> Option<int>
    decreases
            (if i < 0 {
                0
            } else {
                i
            }) + (if j < 0 {
                0
            } else {
                j
            }),
{
    if i <= 0 || j <= 0 {
        if i == 0 && j == 0 {
            Some(0)
        } else {
            None
        }
    } else if abs_int(i - j) > window {
        None
    } else {
        let best = cheaper(
            cheaper(dtw_cell(first, second, window, i - 1, j), dtw_cell(first, second, window, i, j - 1)),
            dtw_cell(first, second, window, i - 1, j - 1),
        );
        match best {
            Some(c) => Some(abs_int(first[i - 1] - second[j - 1]) + c),
            None => None,
        }
    }
}

/// Centimetres of mean warping cost per step that halve the similarity.
pub const DTW_SCALE: u64 = 1_000;

/// Similarity of two elevation profiles by dynamic time warping, in
/// millionths: `1 / (1 + d / 10 m)` where `d` is the cost of the cheapest
/// banded warping path divided by the sum of the two lengths. Zero when
/// either profile is empty or the band admits no path.
pub open spec fn dtw_similarity(first: Seq<i32>, second: Seq<i32>, window: int) -> int {
    if first.len() == 0 || second.len() == 0 {
        0
    } else {
        match dtw_cell(first, second, window, first.len() as int, second.len() as int) {
            Some(cost) => {
                let steps = DTW_SCALE * (first.len() + second.len());
                (SCORE_ONE * steps) / (steps + cost)
            },
            None => 0,
        }
    }
}

/// Without aligned samples on one side, or outside the band, there is no path.
pub proof fn lemma_dtw_no_path(first: Seq<i32>, second: Seq<i32>, window: int, i: int, j: int)
    requires
        1 <= i,
        0 <= j,
        j == 0 || abs_int(i - j) > window,
    ensures
        dtw_cell(first, second, window, i, j) is None,
{
    reveal(dtw_cell);
}

/// Inside the band a cell extends the cheapest of its three neighbours.
pub proof fn lemma_dtw_step(first: Seq<i32>, second: Seq<i32>, window: int, i: int, j: int)
    requires
        1 <= i,
        1 <= j,
        abs_int(i - j) <= window,
    ensures
        dtw_cell(first, second, window, i, j) == (match cheaper(
            cheaper(dtw_cell(first, second, window, i - 1, j), dtw_cell(first, second, window, i, j - 1)),
            dtw_cell(first, second, window, i - 1, j - 1),
        ) {
            Some(c) => Some(abs_int(first[i - 1] - second[j - 1]) + c),
            None => None,
        }),
{
    reveal(dtw_cell);
}

/// The first row: a path to nothing aligned, and to nothing else.
pub proof fn lemma_dtw_first_row(first: Seq<i32>, second: Seq<i32>, window: int, j: int)
    requires
        0 <= j,
    ensures
        dtw_cell(first, second, window, 0, j) == (if j == 0 {
            Some(0int)
        } else {
            None
        }),
{
    reveal(dtw_cell);
}

/// A path cost grows by less than 2^32 per aligned sample.
pub proof fn lemma_dtw_cell_bound(first: Seq<i32>, second: Seq<i32>, window: int, i: int, j: int)
    requires
        0 <= i <= first.len(),
        0 <= j <= second.len(),
    ensures
        dtw_cell(first, second, window, i, j) matches Some(c) ==> 0 <= c <= (i + j) * 0x1_0000_0000,
    decreases i + j,
{
    reveal(dtw_cell);
    if i > 0 && j > 0 && abs_int(i - j) <= window {
        lemma_dtw_cell_bound(first, second, window, i - 1, j);
        lemma_dtw_cell_bound(first, second, window, i, j - 1);
        lemma_dtw_cell_bound(first, second, window, i - 1, j - 1);
    }
}

/// Stored form of a path cost: the cost itself, or the largest value when
/// there is no path.
pub open spec fn stored_cost(c: Option<int>) -> int {
    match c {
        Some(v) => v,
        None => u64::MAX as int,
    }
}

/// A row of `len` cells without a path.
fn blank_row(len: usize) -> (row: Vec<u64>)
    ensures
        row@.len() == len,
        forall|k: int| 0 <= k < len ==> #[trigger] row@[k] == u64::MAX,
{
    let mut row: Vec<u64> = Vec::with_capacity(len);
    let mut k: usize = 0;
    while k < len
        invariant
            k <= len,
            row@.len() == k,
            forall|t: int| 0 <= t < k ==> #[trigger] row@[t] == u64::MAX,
        decreases len - k,
    {
        row.push(u64::MAX);
        k = k + 1;
    }
    row
}

/// Cost of the cell at (`i`, `j`) from its three neighbours.
fn next_cell(
    a: i32,
    b: i32,
    up: u64,
    left: u64,
    diagonal: u64,
    Ghost(up_cost): Ghost<Option<int>>,
    Ghost(left_cost): Ghost<Option<int>>,
    Ghost(diagonal_cost): Ghost<Option<int>>,
) -> (value: u64)
    requires
        up == stored_cost(up_cost),
        left == stored_cost(left_cost),
        diagonal == stored_cost(diagonal_cost),
        up_cost matches Some(c) ==> 0 <= c <= 0x2_0000 * 0x1_0000_0000,
        left_cost matches Some(c) ==> 0 <= c <= 0x2_0000 * 0x1_0000_0000,
        diagonal_cost matches Some(c) ==> 0 <= c <= 0x2_0000 * 0x1_0000_0000,
    ensures
        value == stored_cost(
            match cheaper(cheaper(up_cost, left_cost), diagonal_cost) {
                Some(c) => Some(abs_int(a - b) + c),
                None => None,
            },
        ),
{
    let cost: u64 = if a >= b {
        (a as i64 - b as i64) as u64
    } else {
        (b as i64 - a as i64) as u64
    };
    let side = if up <= left { up } else { left };
    let best = if side <= diagonal { side } else { diagonal };
    if best == u64::MAX {
        u64::MAX
    } else {
        cost + best
    }
}

/// Elevation-profile similarity by banded dynamic time warping.
///
/// `window_size` is the width of the band on each side of the diagonal.
pub fn elevation_profile_dtw(profile1: &[i32], profile2: &[i32], window_size: usize) -> (score: u32)
    requires
        profile1@.len() <= MAX_POINTS,
        profile2@.len() <= MAX_POINTS,
    ensures
        score == dtw_similarity(profile1@, profile2@, window_size as int),
        score <= SCORE_ONE,
{
    let n = profile1.len();
    let m = profile2.len();
    if n == 0 || m == 0 {
        return 0;
    }
    let ghost first = profile1@;
    let ghost second = profile2@;
    let ghost w = window_size as int;
    let mut prev: Vec<u64> = blank_row(m + 1);
    prev.set(0, 0);
    proof {
        assert forall|j: int| 0 <= j <= m implies #[trigger] prev@[j] == stored_cost(
            dtw_cell(first, second, w, 0, j),
        ) by {
            lemma_dtw_first_row(first, second, w, j);
        }
    }
    let mut i: usize = 1;
    while i <= n
        invariant
            1 <= i <= n + 1,
            n == first.len(),
            m == second.len(),
            first == profile1@,
            second == profile2@,
            w == window_size as int,
            0 < n <= MAX_POINTS,
            0 < m <= MAX_POINTS,
            prev@.len() == m + 1,
            forall|j: int|
                0 <= j <= m ==> #[trigger] prev@[j] == stored_cost(dtw_cell(first, second, w, i - 1, j)),
        decreases n + 1 - i,
    {
        let mut curr: Vec<u64> = blank_row(m + 1);
        let window_start: usize = if i > window_size { i - window_size } else { 1 };
        let window_end: usize = if window_size >= m { m } else if i + window_size < m {
            i + window_size
        } else {
            m
        };
        let mut j: usize = window_start;
        proof {
            assert forall|k: int| 0 <= k < j && k <= m implies #[trigger] curr@[k] == stored_cost(
                dtw_cell(first, second, w, i as int, k),
            ) by {
                lemma_dtw_no_path(first, second, w, i as int, k);
            }
        }
        while j <= window_end
            invariant
                1 <= i <= n,
                1 <= window_start <= j,
                j <= window_end + 1 || j == window_start,
                window_end <= m,
                window_start == (if i > w { i - w } else { 1 }),
                window_end == (if i + w < m { i + w } else { m as int }),
                n == first.len(),
                m == second.len(),
                first == profile1@,
                second == profile2@,
                w == window_size as int,
                n <= MAX_POINTS,
                m <= MAX_POINTS,
                prev@.len() == m + 1,
                curr@.len() == m + 1,
                forall|k: int|
                    0 <= k <= m ==> #[trigger] prev@[k] == stored_cost(
                        dtw_cell(first, second, w, i - 1, k),
                    ),
                forall|k: int|
                    0 <= k < j && k <= m ==> #[trigger] curr@[k] == stored_cost(
                        dtw_cell(first, second, w, i as int, k),
                    ),
                forall|k: int| j <= k <= m ==> #[trigger] curr@[k] == u64::MAX,
            decreases window_end + 1 - j,
        {
            proof {
                lemma_dtw_cell_bound(first, second, w, i - 1, j as int);
                lemma_dtw_cell_bound(first, second, w, i as int, j - 1);
                lemma_dtw_cell_bound(first, second, w, i - 1, j - 1);
                lemma_dtw_step(first, second, w, i as int, j as int);
            }
            let value = next_cell(
                profile1[i - 1],
                profile2[j - 1],
                prev[j],
                curr[j - 1],
                prev[j - 1],
                Ghost(dtw_cell(first, second, w, i - 1, j as int)),
                Ghost(dtw_cell(first, second, w, i as int, j - 1)),
                Ghost(dtw_cell(first, second, w, i - 1, j - 1)),
            );
            curr.set(j, value);
            j = j + 1;
        }
        proof {
            assert forall|k: int| 0 <= k <= m implies #[trigger] curr@[k] == stored_cost(
                dtw_cell(first, second, w, i as int, k),
            ) by {
                if k >= j {
                    lemma_dtw_no_path(first, second, w, i as int, k);
                }
            }
        }
        prev = curr;
        i = i + 1;
    }
    let total = prev[m];
    proof {
        lemma_dtw_cell_bound(first, second, w, n as int, m as int);
    }
    if total == u64::MAX {
        return 0;
    }
    let steps: u64 = DTW_SCALE * ((n + m) as u64);
    let scaled: u64 = (SCORE_ONE as u64) * steps;
    let score: u64 = scaled / (steps + total);
    proof {
        assert(score <= SCORE_ONE) by (nonlinear_arith)
            requires
                score == (SCORE_ONE * steps) / ((steps + total) as int),
                steps > 0,
                total >= 0,
        ;
    }
    score as u32
}

} // verus!
