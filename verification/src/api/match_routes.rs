//! Matching requests: what is shown of the results, and how a route is named.

use vstd::prelude::*;
use crate::matching::engine::MatchResult;

verus! {

/// Largest number of matches shown to a caller.
pub const MAX_MATCHES_SHOWN: usize = 20;

/// Largest number of points of the input route shown to a caller.
pub const MAX_INPUT_POINTS_SHOWN: usize = 1_000;

/// The matches shown to a caller: the first twenty.
pub fn shown_matches(results: Vec<MatchResult>) -> (shown: Vec<MatchResult>)
    ensures
        shown@ == (if results@.len() <= MAX_MATCHES_SHOWN {
            results@
        } else {
            results@.take(MAX_MATCHES_SHOWN as int)
        }),
{
    let mut shown = results;
    if shown.len() > MAX_MATCHES_SHOWN {
        shown.truncate(MAX_MATCHES_SHOWN);
        proof {
            assert(shown@ =~= results@.take(MAX_MATCHES_SHOWN as int));
        }
    }
    shown
}

/// `pattern` stands in `text` at position `at`.
pub open spec fn stands_at(text: Seq<char>, pattern: Seq<char>, at: int) -> bool {
    0 <= at && at + pattern.len() <= text.len() && text.subrange(at, at + pattern.len())
        == pattern
}

/// `text` from position `from` on, without the occurrences of `pattern`,
/// which are found from left to right without overlap.
pub open spec fn without_from(text: Seq<char>, pattern: Seq<char>, from: int) -> Seq<char>
    decreases text.len() - from,
{
    if from < 0 || from >= text.len() {
        Seq::empty()
    } else if pattern.len() > 0 && stands_at(text, pattern, from) {
        without_from(text, pattern, from + pattern.len())
    } else {
        seq![text[from]] + without_from(text, pattern, from + 1)
    }
}

/// `text` without the occurrences of `pattern`.
pub open spec fn without(text: Seq<char>, pattern: Seq<char>) -> Seq<char> {
    without_from(text, pattern, 0)
}

/// The name of an uploaded route: the name found in the file, or else the
/// name of the upload without its `.gpx` ending.
pub open spec fn route_name_of(found: Option<String>, upload_name: Seq<char>) -> Seq<char> {
    match found {
        Some(name) => name@,
        None => without(upload_name, ".gpx"@),
    }
}

/// Decides whether `pattern` stands in `text` at position `at`.
fn pattern_at(text: &str, pattern: &str, at: usize) -> (found: bool)
    requires
        at + pattern@.len() <= text@.len(),
    ensures
        found == stands_at(text@, pattern@, at as int),
{
    let m = pattern.unicode_len();
    let n = text.unicode_len();
    let mut k: usize = 0;
    while k < m
        invariant
            k <= m,
            m == pattern@.len(),
            n == text@.len(),
            at + m <= n,
            forall|t: int| 0 <= t < k ==> text@[at + t] == pattern@[t],
        decreases m - k,
    {
        if text.get_char(at + k) != pattern.get_char(k) {
            proof {
                let window = text@.subrange(at as int, at + m);
                assert(window[k as int] != pattern@[k as int]);
            }
            return false;
        }
        k = k + 1;
    }
    proof {
        assert(text@.subrange(at as int, at + m) =~= pattern@);
    }
    true
}

/// `text` without the occurrences of `pattern`.
pub fn remove_all(text: &str, pattern: &str) -> (rest: String)
    ensures
        rest@ == without(text@, pattern@),
{
    let n = text.unicode_len();
    let m = pattern.unicode_len();
    let mut rest = String::new();
    let mut i: usize = 0;
    while i < n
        invariant
            i <= n,
            n == text@.len(),
            m == pattern@.len(),
            rest@ + without_from(text@, pattern@, i as int) == without(text@, pattern@),
        decreases n - i,
    {
        let ghost before = rest@;
        if m > 0 && m <= n - i && pattern_at(text, pattern, i) {
            i = i + m;
        } else {
            let piece = text.substring_char(i, i + 1);
            rest.append(piece);
            proof {
                assert(piece@ =~= seq![text@[i as int]]);
                assert(rest@ + without_from(text@, pattern@, i + 1) =~= before + (seq![
                    text@[i as int],
                ] + without_from(text@, pattern@, i + 1)));
            }
            i = i + 1;
        }
    }
    proof {
        assert(rest@ + Seq::<char>::empty() =~= rest@);
    }
    rest
}

/// The name under which an uploaded route is shown.
pub fn route_name(found: Option<String>, upload_name: &str) -> (name: String)
    ensures
        name@ == route_name_of(found, upload_name@),
{
    match found {
        Some(name) => name,
        None => remove_all(upload_name, ".gpx"),
    }
}

} // verus!
