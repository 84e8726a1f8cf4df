//! Route geometry in fixed-point units.
//!
//! Coordinates are signed integers in units of 1e-7 degrees, lengths are
//! whole centimetres and turn angles are thousandths of a degree.

use vstd::prelude::*;

verus! {

/// Largest number of points (and of elevation samples) a route may hold.
pub const MAX_POINTS: usize = 65_535;

/// A half turn, the largest turn angle, in thousandths of a degree.
pub const HALF_TURN: u32 = 180_000;

/// A position: longitude and latitude in units of 1e-7 degrees.
#[derive(Clone, Copy, Debug, PartialEq, Eq, Structural)]
pub struct GeoPoint {
    pub lon: i32,
    pub lat: i32,
}

/// An axis-aligned rectangle in coordinate units.
#[derive(Clone, Copy, Debug, PartialEq, Eq, Structural)]
pub struct BoundingBox {
    pub min_lon: i32,
    pub min_lat: i32,
    pub max_lon: i32,
    pub max_lat: i32,
}

/// Sum of a sequence of lengths.
pub open spec fn total_length(legs: Seq<u32>) -> int
    decreases legs.len(),
{
    if legs.len() == 0 {
        0
    } else {
        total_length(legs.drop_last()) + legs.last()
    }
}

/// Number of legs joining `points` consecutive points.
pub open spec fn leg_count(points: int) -> int {
    if points < 1 {
        0
    } else {
        points - 1
    }
}

/// Number of interior vertices of a line of `points` points.
pub open spec fn vertex_count(points: int) -> int {
    if points < 2 {
        0
    } else {
        points - 2
    }
}

/// The parts of a route line fit together: one leg per pair of consecutive
/// points, one turn per interior vertex, no turn beyond a half turn, and a
/// total length that fits in 32 bits.
pub open spec fn line_parts_valid(points: Seq<GeoPoint>, legs: Seq<u32>, turns: Seq<u32>) -> bool {
    &&& points.len() <= MAX_POINTS
    &&& legs.len() == leg_count(points.len() as int)
    &&& turns.len() == vertex_count(points.len() as int)
    &&& total_length(legs) <= u32::MAX
    &&& forall|i: int| 0 <= i < turns.len() ==> #[trigger] turns[i] <= HALF_TURN
}

/// An ordered path with its measured leg lengths and turn angles.
///
/// `legs[i]` is the great-circle length in centimetres between `points[i]`
/// and `points[i + 1]`; `turns[i]` is the change of bearing at `points[i + 1]`
/// in thousandths of a degree.
#[derive(Debug)]
pub struct RouteLine {
    pub points: Vec<GeoPoint>,
    pub legs: Vec<u32>,
    pub turns: Vec<u32>,
}

/// Adding a leg adds its length.
pub proof fn lemma_total_length_push(legs: Seq<u32>, leg: u32)
    ensures
        total_length(legs.push(leg)) == total_length(legs) + leg,
{
    assert(legs.push(leg).drop_last() =~= legs);
}

/// A prefix is no longer than the whole.
pub proof fn lemma_total_length_prefix(legs: Seq<u32>, k: int)
    requires
        0 <= k <= legs.len(),
    ensures
        0 <= total_length(legs.take(k)) <= total_length(legs),
    decreases legs.len() - k,
{
    if k == legs.len() {
        assert(legs.take(k) =~= legs);
        lemma_total_length_nonnegative(legs);
    } else {
        lemma_total_length_prefix(legs, k + 1);
        assert(legs.take(k + 1).drop_last() =~= legs.take(k));
        lemma_total_length_nonnegative(legs.take(k));
    }
}

/// A total length is never negative.
pub proof fn lemma_total_length_nonnegative(legs: Seq<u32>)
    ensures
        0 <= total_length(legs),
    decreases legs.len(),
{
    if legs.len() > 0 {
        lemma_total_length_nonnegative(legs.drop_last());
    }
}

impl RouteLine {
    /// The parts of this line fit together.
    pub open spec fn wf(&self) -> bool {
        line_parts_valid(self.points@, self.legs@, self.turns@)
    }

    /// Builds a line from its parts, or `None` when they do not fit together.
    pub fn new(points: Vec<GeoPoint>, legs: Vec<u32>, turns: Vec<u32>) -> (line: Option<RouteLine>)
        ensures
            line.is_some() == line_parts_valid(points@, legs@, turns@),
            line matches Some(l) ==> l.points@ == points@ && l.legs@ == legs@ && l.turns@ == turns@,
    {
        let line = RouteLine { points, legs, turns };
        if line.is_valid() {
            Some(line)
        } else {
            None
        }
    }

    /// The empty line.
    pub fn empty() -> (line: RouteLine)
        ensures
            line.wf(),
            line.points@.len() == 0,
            line.legs@.len() == 0,
            line.turns@.len() == 0,
    {
        RouteLine { points: Vec::new(), legs: Vec::new(), turns: Vec::new() }
    }

    /// Decides whether the parts of this line fit together.
    pub fn is_valid(&self) -> (ok: bool)
        ensures
            ok == self.wf(),
    {
        let n = self.points.len();
        if n > MAX_POINTS {
            return false;
        }
        let want_legs: usize = if n < 1 { 0 } else { n - 1 };
        let want_turns: usize = if n < 2 { 0 } else { n - 2 };
        if self.legs.len() != want_legs || self.turns.len() != want_turns {
            return false;
        }
        let mut sum: u64 = 0;
        let mut i: usize = 0;
        while i < self.legs.len()
            invariant
                i <= self.legs@.len() <= MAX_POINTS,
                sum == total_length(self.legs@.take(i as int)),
                sum <= i * u32::MAX,
            decreases self.legs@.len() - i,
        {
            proof {
                assert(self.legs@.take(i + 1).drop_last() =~= self.legs@.take(i as int));
            }
            sum = sum + self.legs[i] as u64;
            i = i + 1;
        }
        proof {
            assert(self.legs@.take(i as int) =~= self.legs@);
        }
        if sum > u32::MAX as u64 {
            return false;
        }
        let mut j: usize = 0;
        while j < self.turns.len()
            invariant
                j <= self.turns@.len(),
                forall|k: int| 0 <= k < j ==> #[trigger] self.turns@[k] <= HALF_TURN,
            decreases self.turns@.len() - j,
        {
            if self.turns[j] > HALF_TURN {
                return false;
            }
            j = j + 1;
        }
        true
    }

    /// A copy of this line.
    pub fn duplicate(&self) -> (copy: RouteLine)
        ensures
            copy.points@ == self.points@,
            copy.legs@ == self.legs@,
            copy.turns@ == self.turns@,
    {
        RouteLine {
            points: copy_points(&self.points),
            legs: self.legs.clone(),
            turns: self.turns.clone(),
        }
    }

    /// The smallest rectangle holding every point, or `None` for the empty line.
    pub fn bounding_box(&self) -> (bbox: Option<BoundingBox>)
        ensures
            bbox.is_some() == (self.points@.len() > 0),
            bbox matches Some(b) ==> is_tight_box(self.points@, b) && b == tight_box(self.points@),
    {
        if self.points.len() == 0 {
            return None;
        }
        let first = self.points[0];
        let mut b = BoundingBox {
            min_lon: first.lon,
            min_lat: first.lat,
            max_lon: first.lon,
            max_lat: first.lat,
        };
        let mut i: usize = 1;
        proof {
            assert(self.points@.take(1)[0] == first);
        }
        while i < self.points.len()
            invariant
                1 <= i <= self.points@.len(),
                is_tight_box(self.points@.take(i as int), b),
            decreases self.points@.len() - i,
        {
            let p = self.points[i];
            let ghost before = b;
            if p.lon < b.min_lon {
                b.min_lon = p.lon;
            }
            if p.lon > b.max_lon {
                b.max_lon = p.lon;
            }
            if p.lat < b.min_lat {
                b.min_lat = p.lat;
            }
            if p.lat > b.max_lat {
                b.max_lat = p.lat;
            }
            proof {
                let shorter = self.points@.take(i as int);
                let longer = self.points@.take(i + 1);
                assert(longer[i as int] == p);
                assert forall|k: int| 0 <= k < longer.len() implies box_holds(b, #[trigger] longer[k]) by {
                    if k < i {
                        assert(longer[k] == shorter[k]);
                        assert(box_holds(before, shorter[k]));
                    }
                }
                let wl = choose|k: int| 0 <= k < shorter.len() && shorter[k].lon == before.min_lon;
                let el = choose|k: int| 0 <= k < shorter.len() && shorter[k].lon == before.max_lon;
                let sl = choose|k: int| 0 <= k < shorter.len() && shorter[k].lat == before.min_lat;
                let nl = choose|k: int| 0 <= k < shorter.len() && shorter[k].lat == before.max_lat;
                let w = if p.lon < before.min_lon { i as int } else { wl };
                let e = if p.lon > before.max_lon { i as int } else { el };
                let s = if p.lat < before.min_lat { i as int } else { sl };
                let n = if p.lat > before.max_lat { i as int } else { nl };
                assert(longer[wl] == shorter[wl] && longer[el] == shorter[el]);
                assert(longer[sl] == shorter[sl] && longer[nl] == shorter[nl]);
                assert(0 <= w < longer.len() && longer[w].lon == b.min_lon);
                assert(0 <= e < longer.len() && longer[e].lon == b.max_lon);
                assert(0 <= s < longer.len() && longer[s].lat == b.min_lat);
                assert(0 <= n < longer.len() && longer[n].lat == b.max_lat);
            }
            i = i + 1;
        }
        proof {
            assert(self.points@.take(i as int) =~= self.points@);
            lemma_tight_box_is(self.points@, b);
        }
        Some(b)
    }
}

/// `p` lies inside `b`, borders included.
pub open spec fn box_holds(b: BoundingBox, p: GeoPoint) -> bool {
    b.min_lon <= p.lon <= b.max_lon && b.min_lat <= p.lat <= b.max_lat
}

/// `b` holds every point and each of its sides touches one.
pub open spec fn is_tight_box(points: Seq<GeoPoint>, b: BoundingBox) -> bool {
    &&& forall|k: int| 0 <= k < points.len() ==> box_holds(b, #[trigger] points[k])
    &&& exists|k: int| 0 <= k < points.len() && #[trigger] points[k].lon == b.min_lon
    &&& exists|k: int| 0 <= k < points.len() && #[trigger] points[k].lon == b.max_lon
    &&& exists|k: int| 0 <= k < points.len() && #[trigger] points[k].lat == b.min_lat
    &&& exists|k: int| 0 <= k < points.len() && #[trigger] points[k].lat == b.max_lat
}

/// A list of points has at most one tight box.
pub proof fn lemma_tight_box_unique(points: Seq<GeoPoint>, a: BoundingBox, b: BoundingBox)
    requires
        is_tight_box(points, a),
        is_tight_box(points, b),
    ensures
        a == b,
{
    let aw = choose|k: int| 0 <= k < points.len() && #[trigger] points[k].lon == a.min_lon;
    let ae = choose|k: int| 0 <= k < points.len() && #[trigger] points[k].lon == a.max_lon;
    let a_s = choose|k: int| 0 <= k < points.len() && #[trigger] points[k].lat == a.min_lat;
    let an = choose|k: int| 0 <= k < points.len() && #[trigger] points[k].lat == a.max_lat;
    let bw = choose|k: int| 0 <= k < points.len() && #[trigger] points[k].lon == b.min_lon;
    let be = choose|k: int| 0 <= k < points.len() && #[trigger] points[k].lon == b.max_lon;
    let bs = choose|k: int| 0 <= k < points.len() && #[trigger] points[k].lat == b.min_lat;
    let bn = choose|k: int| 0 <= k < points.len() && #[trigger] points[k].lat == b.max_lat;
    assert(box_holds(b, points[aw]) && box_holds(b, points[ae]));
    assert(box_holds(b, points[a_s]) && box_holds(b, points[an]));
    assert(box_holds(a, points[bw]) && box_holds(a, points[be]));
    assert(box_holds(a, points[bs]) && box_holds(a, points[bn]));
}

/// The tight box of a non-empty list of points.
pub open spec fn tight_box(points: Seq<GeoPoint>) -> BoundingBox {
    choose|b: BoundingBox| is_tight_box(points, b)
}

/// Any tight box of `points` is the value of `tight_box`.
pub proof fn lemma_tight_box_is(points: Seq<GeoPoint>, b: BoundingBox)
    requires
        is_tight_box(points, b),
    ensures
        tight_box(points) == b,
{
    lemma_tight_box_unique(points, tight_box(points), b);
}

/// Copies a list of points.
pub fn copy_points(points: &Vec<GeoPoint>) -> (copy: Vec<GeoPoint>)
    ensures
        copy@ == points@,
{
    let mut copy: Vec<GeoPoint> = Vec::new();
    let mut i: usize = 0;
    while i < points.len()
        invariant
            i <= points@.len(),
            copy@ == points@.take(i as int),
        decreases points@.len() - i,
    {
        copy.push(points[i]);
        proof {
            assert(points@.take(i + 1) =~= points@.take(i as int).push(points@[i as int]));
        }
        i = i + 1;
    }
    proof {
        assert(points@.take(i as int) =~= points@);
    }
    copy
}

/// Cumulative distances along a line of `points` points: entry `i` is the
/// length of the first `i` legs.
pub open spec fn distance_array(legs: Seq<u32>, points: nat) -> Seq<u32> {
    Seq::new(points, |i: int| total_length(legs.take(i)) as u32)
}

/// Length of `line` in centimetres: the sum of its legs, zero for fewer than
/// two points.
pub fn calculate_distance(line: &RouteLine) -> (distance: u32)
    requires
        line.wf(),
    ensures
        distance == total_length(line.legs@),
        line.points@.len() < 2 ==> distance == 0,
{
    let n = line.legs.len();
    let mut distance: u32 = 0;
    let mut i: usize = 0;
    while i < n
        invariant
            i <= n,
            n == line.legs@.len(),
            line.wf(),
            distance == total_length(line.legs@.take(i as int)),
        decreases n - i,
    {
        proof {
            assert(line.legs@.take(i + 1).drop_last() =~= line.legs@.take(i as int));
            lemma_total_length_prefix(line.legs@, i + 1);
        }
        distance = distance + line.legs[i];
        i = i + 1;
    }
    proof {
        assert(line.legs@.take(i as int) =~= line.legs@);
    }
    distance
}

/// Cumulative distance from the start of `line` to each of its points, in
/// centimetres: as many entries as points, the first zero, none smaller than
/// the one before.
pub fn create_distance_array(line: &RouteLine) -> (distances: Vec<u32>)
    requires
        line.wf(),
    ensures
        distances@ == distance_array(line.legs@, line.points@.len()),
        distances@.len() == line.points@.len(),
        distances@.len() > 0 ==> distances@[0] == 0,
        forall|i: int, j: int|
            0 <= i <= j < distances@.len() ==> #[trigger] distances@[i] <= #[trigger] distances@[j],
{
    let n = line.points.len();
    let mut distances: Vec<u32> = Vec::new();
    if n == 0 {
        proof {
            assert(distances@ =~= distance_array(line.legs@, 0));
        }
        return distances;
    }
    distances.push(0);
    let mut running: u32 = 0;
    let mut i: usize = 1;
    proof {
        assert(line.legs@.take(0) =~= Seq::<u32>::empty());
    }
    while i < n
        invariant
            1 <= i <= n,
            n == line.points@.len(),
            line.wf(),
            distances@.len() == i,
            running == total_length(line.legs@.take(i - 1)),
            forall|k: int|
                0 <= k < i ==> #[trigger] distances@[k] == total_length(line.legs@.take(k)),
        decreases n - i,
    {
        proof {
            assert(line.legs@.take(i as int).drop_last() =~= line.legs@.take(i - 1));
            lemma_total_length_prefix(line.legs@, i as int);
        }
        running = running + line.legs[i - 1];
        distances.push(running);
        i = i + 1;
    }
    proof {
        assert(distances@ =~= distance_array(line.legs@, n as nat));
        assert forall|a: int, b: int| 0 <= a <= b < distances@.len() implies #[trigger] distances@[a]
            <= #[trigger] distances@[b] by {
            lemma_total_length_monotone(line.legs@, a, b);
        }
    }
    distances
}

/// A longer prefix of legs is at least as long.
pub proof fn lemma_total_length_monotone(legs: Seq<u32>, a: int, b: int)
    requires
        0 <= a <= b <= legs.len(),
    ensures
        total_length(legs.take(a)) <= total_length(legs.take(b)),
{
    assert(legs.take(b).take(a) =~= legs.take(a));
    lemma_total_length_prefix(legs.take(b), a);
}

/// What a step from elevation `from` to elevation `to` climbs.
pub open spec fn climb(from: i32, to: i32) -> int {
    if to > from {
        to - from
    } else {
        0
    }
}

/// Sum of the climbs between consecutive samples.
pub open spec fn elevation_gain(elevations: Seq<i32>) -> int
    decreases elevations.len(),
{
    if elevations.len() < 2 {
        0
    } else {
        elevation_gain(elevations.drop_last()) + climb(
            elevations[elevations.len() - 2],
            elevations.last(),
        )
    }
}

/// Total ascent of an elevation profile in centimetres: the sum of its
/// positive steps.
pub fn calculate_elevation_gain(elevations: &[i32]) -> (gain: u64)
    requires
        elevations@.len() <= 0x1_0000_0000,
    ensures
        gain == elevation_gain(elevations@),
{
    let n = elevations.len();
    let mut gain: u64 = 0;
    if n < 2 {
        return gain;
    }
    let mut i: usize = 1;
    proof {
        assert(elevations@.take(1).len() == 1);
    }
    while i < n
        invariant
            1 <= i <= n,
            n == elevations@.len(),
            n <= 0x1_0000_0000,
            gain == elevation_gain(elevations@.take(i as int)),
            gain <= (i - 1) * 0xffff_ffff,
        decreases n - i,
    {
        proof {
            let next = elevations@.take(i + 1);
            assert(next.drop_last() =~= elevations@.take(i as int));
            assert(next[next.len() - 2] == elevations@[i - 1]);
        }
        if elevations[i] > elevations[i - 1] {
            gain = gain + (elevations[i] as i64 - elevations[i - 1] as i64) as u64;
        }
        i = i + 1;
    }
    proof {
        assert(elevations@.take(i as int) =~= elevations@);
    }
    gain
}

/// A length in front adds to the total.
pub proof fn lemma_total_length_front(leg: u32, legs: Seq<u32>)
    ensures
        total_length(seq![leg] + legs) == leg + total_length(legs),
    decreases legs.len(),
{
    let whole = seq![leg] + legs;
    if legs.len() == 0 {
        assert(whole.drop_last() =~= Seq::<u32>::empty());
        assert(whole.last() == leg);
        assert(total_length(whole.drop_last()) == 0);
        assert(total_length(whole) == total_length(whole.drop_last()) + whole.last());
    } else {
        lemma_total_length_front(leg, legs.drop_last());
        assert(whole.drop_last() =~= seq![leg] + legs.drop_last());
        assert(whole.last() == legs.last());
        assert(total_length(whole) == total_length(whole.drop_last()) + whole.last());
    }
}

/// Reversing the order of the legs leaves their total unchanged.
pub proof fn lemma_total_length_reverse(legs: Seq<u32>)
    ensures
        total_length(legs.reverse()) == total_length(legs),
    decreases legs.len(),
{
    if legs.len() > 0 {
        lemma_total_length_reverse(legs.drop_last());
        assert(legs.reverse() =~= seq![legs.last()] + legs.drop_last().reverse());
        lemma_total_length_front(legs.last(), legs.drop_last().reverse());
    }
}

/// `reversed` is `line` walked from its end: the same points, legs and turns
/// in the opposite order.
pub open spec fn is_reversal(line: RouteLine, reversed: RouteLine) -> bool {
    &&& reversed.points@ == line.points@.reverse()
    &&& reversed.legs@ == line.legs@.reverse()
    &&& reversed.turns@ == line.turns@.reverse()
}

/// The distance of a route does not depend on the direction it is walked in.
pub proof fn lemma_distance_reversal(line: RouteLine, reversed: RouteLine)
    requires
        line.wf(),
        is_reversal(line, reversed),
    ensures
        reversed.wf(),
        total_length(reversed.legs@) == total_length(line.legs@),
{
    lemma_total_length_reverse(line.legs@);
    assert forall|i: int| 0 <= i < reversed.turns@.len() implies #[trigger] reversed.turns@[i]
        <= HALF_TURN by {
        assert(reversed.turns@[i] == line.turns@[line.turns@.len() - 1 - i]);
    }
}

/// Copies a list in the opposite order.
fn reversed_copy<T: Copy>(items: &Vec<T>) -> (copy: Vec<T>)
    ensures
        copy@ == items@.reverse(),
{
    let n = items.len();
    let mut copy: Vec<T> = Vec::with_capacity(n);
    let mut i: usize = 0;
    while i < n
        invariant
            i <= n,
            n == items@.len(),
            copy@.len() == i,
            forall|k: int| 0 <= k < i ==> #[trigger] copy@[k] == items@[n - 1 - k],
        decreases n - i,
    {
        copy.push(items[n - 1 - i]);
        i = i + 1;
    }
    proof {
        assert(copy@ =~= items@.reverse());
    }
    copy
}

impl RouteLine {
    /// This line walked from its end.
    pub fn reversed(&self) -> (reversed: RouteLine)
        requires
            self.wf(),
        ensures
            is_reversal(*self, reversed),
            reversed.wf(),
            total_length(reversed.legs@) == total_length(self.legs@),
    {
        let reversed = RouteLine {
            points: reversed_copy(&self.points),
            legs: reversed_copy(&self.legs),
            turns: reversed_copy(&self.turns),
        };
        proof {
            lemma_distance_reversal(*self, reversed);
        }
        reversed
    }
}

} // verus!
