//! Reducing a decoded GPX document to what matching needs.

use vstd::prelude::*;
use vstd::string::StringSliceAdditionalSpecFns;
use crate::utils::decimal::{decimal_digits, push_decimal};
use crate::utils::gpx_parser::{GpxDocument, GpxPoint, GpxSegment, GpxTrack};

verus! {

/// The mathematical value of a track: its name and the points of its
/// segments.
pub struct TrackView {
    pub name: Option<Seq<char>>,
    pub segments: Seq<Seq<GpxPoint>>,
}

/// The value of a track.
pub open spec fn track_view(track: GpxTrack) -> TrackView {
    TrackView {
        name: match track.name {
            Some(n) => Some(n@),
            None => None,
        },
        segments: track.segments@.map_values(|s: GpxSegment| s.points@),
    }
}

/// The values of a list of tracks.
pub open spec fn track_views(tracks: Seq<GpxTrack>) -> Seq<TrackView> {
    tracks.map_values(|t: GpxTrack| track_view(t))
}

/// The name given to the track at `position` (counted from zero) when it has
/// none: the word Track and its number, counted from one.
pub open spec fn default_track_name(position: int) -> Seq<char> {
    "Track "@ + decimal_digits((position + 1) as nat)
}

/// The segments that hold a point, in their order.
pub open spec fn filled_segments(segments: Seq<Seq<GpxPoint>>) -> Seq<Seq<GpxPoint>> {
    segments.filter(|s: Seq<GpxPoint>| s.len() > 0)
}

/// The minimal form of the track at `position`: its name or the default
/// name, and its segments that hold a point.
pub open spec fn minimal_track(track: TrackView, position: int) -> TrackView {
    TrackView {
        name: Some(
            match track.name {
                Some(n) => n,
                None => default_track_name(position),
            },
        ),
        segments: filled_segments(track.segments),
    }
}

/// The minimal forms of the first `upto` tracks, without those left with no
/// segment.
pub open spec fn minimal_tracks(tracks: Seq<TrackView>, upto: int) -> Seq<TrackView>
    decreases upto,
{
    if upto <= 0 {
        Seq::empty()
    } else {
        let rest = minimal_tracks(tracks, upto - 1);
        let track = minimal_track(tracks[upto - 1], upto - 1);
        if track.segments.len() > 0 {
            rest.push(track)
        } else {
            rest
        }
    }
}

/// The segments of `track` that hold a point, copied.
fn minimal_segments(track: &GpxTrack) -> (segments: Vec<GpxSegment>)
    ensures
        segments@.map_values(|s: GpxSegment| s.points@) == filled_segments(
            track_view(*track).segments,
        ),
{
    let ghost all = track_view(*track).segments;
    let ghost keep = |s: Seq<GpxPoint>| s.len() > 0;
    let mut segments: Vec<GpxSegment> = Vec::new();
    let mut i: usize = 0;
    proof {
        assert(all.take(0) =~= Seq::<Seq<GpxPoint>>::empty());
        assert(segments@.map_values(|s: GpxSegment| s.points@) =~= all.take(0).filter(keep));
    }
    while i < track.segments.len()
        invariant
            i <= track.segments@.len(),
            all == track_view(*track).segments,
            keep == (|s: Seq<GpxPoint>| s.len() > 0),
            segments@.map_values(|s: GpxSegment| s.points@) == all.take(i as int).filter(keep),
        decreases track.segments@.len() - i,
    {
        let segment = &track.segments[i];
        let ghost before = segments@.map_values(|s: GpxSegment| s.points@);
        proof {
            assert(all.take(i + 1).drop_last() =~= all.take(i as int));
            assert(all.take(i + 1).last() == segment.points@);
            reveal(Seq::filter);
        }
        if segment.points.len() > 0 {
            let copy = GpxSegment { points: segment.points.clone() };
            segments.push(copy);
            proof {
                assert(segments@.map_values(|s: GpxSegment| s.points@) =~= before.push(
                    segment.points@,
                ));
            }
        }
        i = i + 1;
    }
    proof {
        assert(all.take(i as int) =~= all);
    }
    segments
}

/// The name of the track at `position` in minimal form.
fn minimal_name(track: &GpxTrack, position: usize) -> (name: String)
    requires
        position < usize::MAX,
    ensures
        Some(name@) == minimal_track(track_view(*track), position as int).name,
{
    match &track.name {
        Some(n) => n.clone(),
        None => {
            let mut name = "Track ".to_owned();
            push_decimal(&mut name, (position + 1) as u64);
            name
        },
    }
}

/// Reduces a document to its essentials: every track keeps its name, or
/// takes the name of its position, and its segments that hold a point;
/// tracks left without a segment are dropped; the creator becomes
/// CurveMatch.
pub fn minify_gpx(doc: &GpxDocument) -> (minimal: GpxDocument)
    ensures
        minimal.creator matches Some(c) && c@ == "CurveMatch"@,
        track_views(minimal.tracks@) == minimal_tracks(
            track_views(doc.tracks@),
            doc.tracks@.len() as int,
        ),
{
    let ghost all = track_views(doc.tracks@);
    let mut tracks: Vec<GpxTrack> = Vec::new();
    let mut i: usize = 0;
    proof {
        assert(track_views(tracks@) =~= minimal_tracks(all, 0));
    }
    while i < doc.tracks.len()
        invariant
            i <= doc.tracks@.len(),
            all == track_views(doc.tracks@),
            track_views(tracks@) == minimal_tracks(all, i as int),
        decreases doc.tracks@.len() - i,
    {
        let track = &doc.tracks[i];
        let segments = minimal_segments(track);
        let ghost before = track_views(tracks@);
        proof {
            assert(all[i as int] == track_view(*track));
        }
        if segments.len() > 0 {
            let name = minimal_name(track, i);
            let made = GpxTrack { name: Some(name), segments };
            proof {
                assert(track_view(made) == minimal_track(all[i as int], i as int));
            }
            tracks.push(made);
            proof {
                assert(track_views(tracks@) =~= before.push(track_view(made)));
            }
        }
        i = i + 1;
    }
    GpxDocument { creator: Some("CurveMatch".to_owned()), tracks }
}

/// `pattern` stands in `text` at position `at`.
pub open spec fn occurs_at(text: Seq<u8>, pattern: Seq<u8>, at: int) -> bool {
    0 <= at && at + pattern.len() <= text.len() && text.subrange(at, at + pattern.len())
        == pattern
}

/// Number of occurrences of `pattern` in `text` from position `from` on,
/// found from left to right without overlap; zero for the empty pattern.
pub open spec fn occurrences_from(text: Seq<u8>, pattern: Seq<u8>, from: int) -> nat
    decreases text.len() - from,
{
    if pattern.len() == 0 || from < 0 || from + pattern.len() > text.len() {
        0
    } else if occurs_at(text, pattern, from) {
        1 + occurrences_from(text, pattern, from + pattern.len())
    } else {
        occurrences_from(text, pattern, from + 1)
    }
}

/// Number of occurrences of `pattern` in `text`.
pub open spec fn occurrences(text: Seq<u8>, pattern: Seq<u8>) -> nat {
    occurrences_from(text, pattern, 0)
}

/// There are no more occurrences than positions left.
pub proof fn lemma_occurrences_bound(text: Seq<u8>, pattern: Seq<u8>, from: int)
    requires
        0 <= from <= text.len(),
    ensures
        occurrences_from(text, pattern, from) <= text.len() - from,
    decreases text.len() - from,
{
    if pattern.len() > 0 && from + pattern.len() <= text.len() {
        if occurs_at(text, pattern, from) {
            lemma_occurrences_bound(text, pattern, from + pattern.len());
        } else {
            lemma_occurrences_bound(text, pattern, from + 1);
        }
    }
}

/// Decides whether `pattern` stands in `text` at position `at`.
fn stands_at(text: &[u8], pattern: &[u8], at: usize) -> (found: bool)
    requires
        at + pattern@.len() <= text@.len(),
    ensures
        found == occurs_at(text@, pattern@, at as int),
{
    let mut k: usize = 0;
    let total = text.len();
    while k < pattern.len()
        invariant
            k <= pattern@.len(),
            total == text@.len(),
            at + pattern@.len() <= text@.len(),
            forall|t: int| 0 <= t < k ==> text@[at + t] == pattern@[t],
        decreases pattern@.len() - k,
    {
        if text[at + k] != pattern[k] {
            proof {
                let window = text@.subrange(at as int, at + pattern@.len());
                assert(window[k as int] != pattern@[k as int]);
            }
            return false;
        }
        k = k + 1;
    }
    proof {
        assert(text@.subrange(at as int, at + pattern@.len()) =~= pattern@);
    }
    true
}

/// Counts the occurrences of `pattern` in `text`, from left to right and
/// without overlap. The empty pattern is counted zero times.
pub fn count_occurrences(text: &[u8], pattern: &[u8]) -> (count: usize)
    ensures
        count == occurrences(text@, pattern@),
        count <= text@.len(),
{
    let n = text.len();
    let m = pattern.len();
    proof {
        lemma_occurrences_bound(text@, pattern@, 0);
    }
    if m == 0 || m > n {
        return 0;
    }
    let mut count: usize = 0;
    let mut i: usize = 0;
    while i <= n - m
        invariant
            0 < m <= n,
            n == text@.len(),
            m == pattern@.len(),
            i <= n,
            count + occurrences_from(text@, pattern@, i as int) == occurrences(text@, pattern@),
            occurrences(text@, pattern@) <= n,
        decreases n - i,
    {
        if stands_at(text, pattern, i) {
            count = count + 1;
            i = i + m;
        } else {
            i = i + 1;
        }
    }
    count
}

/// What a GPX text holds beside positions and elevations, counted by its
/// tags, and the bytes it is estimated to cost at fifty bytes per tag.
#[derive(Clone, Copy, Debug, PartialEq, Eq, Structural)]
pub struct ReductionEstimate {
    pub timestamps: usize,
    pub extensions: usize,
    pub heart_rates: usize,
    pub cadences: usize,
    pub speeds: usize,
    pub extra_bytes: u128,
}

/// Bytes one extra tag is estimated to cost.
pub const BYTES_PER_TAG: u128 = 50;

/// The estimate for a text.
pub open spec fn reduction_estimate(text: Seq<u8>) -> ReductionEstimate {
    let timestamps = occurrences(text, "<time>"@.map_values(|c: char| c as u8));
    let extensions = occurrences(text, "<extensions>"@.map_values(|c: char| c as u8));
    let heart_rates = occurrences(text, "<hr>"@.map_values(|c: char| c as u8)) + occurrences(
        text,
        "hr>"@.map_values(|c: char| c as u8),
    );
    let cadences = occurrences(text, "<cad>"@.map_values(|c: char| c as u8)) + occurrences(
        text,
        "cadence>"@.map_values(|c: char| c as u8),
    );
    let speeds = occurrences(text, "<speed>"@.map_values(|c: char| c as u8));
    ReductionEstimate {
        timestamps: timestamps as usize,
        extensions: extensions as usize,
        heart_rates: heart_rates as usize,
        cadences: cadences as usize,
        speeds: speeds as usize,
        extra_bytes: ((timestamps + extensions + heart_rates + cadences + speeds) * 50) as u128,
    }
}

/// Counts the occurrences of an ASCII tag in a text.
fn count_tag(text: &str, tag: &str) -> (count: usize)
    requires
        tag.is_ascii(),
    ensures
        count == occurrences(text.spec_bytes(), tag@.map_values(|c: char| c as u8)),
        count <= text.spec_bytes().len(),
{
    let bytes = text.as_bytes();
    let pattern = tag.as_bytes();
    proof {
        vstd::string::is_ascii_spec_bytes(tag);
        assert(tag.spec_bytes() =~= tag@.map_values(|c: char| c as u8));
    }
    count_occurrences(bytes, pattern)
}

/// Estimates what minifying a GPX text can save: counts the tags of
/// timestamps, extensions, heart rates, cadences and speeds.
pub fn estimate_reduction(gpx_content: &str) -> (estimate: ReductionEstimate)
    requires
        gpx_content.spec_bytes().len() <= isize::MAX,
    ensures
        estimate == reduction_estimate(gpx_content.spec_bytes()),
{
    proof {
        reveal_strlit("<time>");
        reveal_strlit("<extensions>");
        reveal_strlit("<hr>");
        reveal_strlit("hr>");
        reveal_strlit("<cad>");
        reveal_strlit("cadence>");
        reveal_strlit("<speed>");
    }
    let timestamps = count_tag(gpx_content, "<time>");
    let extensions = count_tag(gpx_content, "<extensions>");
    let heart_rates = count_tag(gpx_content, "<hr>") + count_tag(gpx_content, "hr>");
    let cadences = count_tag(gpx_content, "<cad>") + count_tag(gpx_content, "cadence>");
    let speeds = count_tag(gpx_content, "<speed>");
    let tags: u128 = timestamps as u128 + extensions as u128 + heart_rates as u128
        + cadences as u128 + speeds as u128;
    ReductionEstimate {
        timestamps,
        extensions,
        heart_rates,
        cadences,
        speeds,
        extra_bytes: tags * BYTES_PER_TAG,
    }
}

} // verus!
