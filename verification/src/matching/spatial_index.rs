//! Bounding-box index over candidate routes.
//!
//! The index keeps the candidate routes in the order they were given and an
//! R-tree over their bounding boxes. A query returns the candidates whose
//! box meets the query rectangle, in the order they were given.

use vstd::prelude::*;
use rstar::primitives::{GeomWithData, Rectangle};
use rstar::{RTree, AABB};
use crate::utils::decimal::{decimal_string, decimal_text};
use crate::matching::geometry::{
    box_holds, is_tight_box, line_parts_valid, tight_box, BoundingBox, GeoPoint, RouteLine,
    MAX_POINTS,
};
use crate::matching::samples::{berlin_loop, grunewald_path, sample_route_views, tiergarten_trail};

verus! {

/// The corners of `b` are in order on both axes.
pub open spec fn box_ordered(b: BoundingBox) -> bool {
    b.min_lon <= b.max_lon && b.min_lat <= b.max_lat
}

/// Two ordered boxes share at least one point, borders included.
pub open spec fn boxes_overlap(a: BoundingBox, b: BoundingBox) -> bool {
    &&& a.min_lon <= b.max_lon
    &&& a.max_lon >= b.min_lon
    &&& a.min_lat <= b.max_lat
    &&& a.max_lat >= b.min_lat
}

/// An R-tree over bounding boxes, each stored with its position in the list
/// it was loaded from.
#[verifier::external_body]
pub struct BoxTree {
    tree: RTree<GeomWithData<Rectangle<[i32; 2]>, usize>>,
}

/// The boxes a tree was loaded with, in the order they were given.
pub uninterp spec fn tree_boxes(tree: &BoxTree) -> Seq<BoundingBox>;

/// `rstar::RTree::bulk_load` over one `GeomWithData` rectangle per box, each
/// carrying its position in `boxes`. The tree holds exactly the boxes given.
#[verifier::external_body]
fn tree_bulk_load(boxes: &Vec<BoundingBox>) -> (tree: BoxTree)
    requires
        forall|i: int| 0 <= i < boxes@.len() ==> box_ordered(#[trigger] boxes@[i]),
    ensures
        tree_boxes(&tree) == boxes@,
{
    let items = boxes.iter().enumerate().map(
        |(i, b)| GeomWithData::new(
            Rectangle::from_corners([b.min_lon, b.min_lat], [b.max_lon, b.max_lat]),
            i,
        ),
    ).collect();
    BoxTree { tree: RTree::bulk_load(items) }
}

/// `rstar::RTree::locate_in_envelope_intersecting`: the positions of the
/// stored boxes that share a point with `query`, each once, in no stated
/// order.
#[verifier::external_body]
fn tree_query(tree: &BoxTree, query: &BoundingBox) -> (hits: Vec<usize>)
    requires
        box_ordered(*query),
    ensures
        hits@.no_duplicates(),
        forall|k: int|
            0 <= k < hits@.len() ==> (#[trigger] hits@[k]) < tree_boxes(tree).len()
                && boxes_overlap(tree_boxes(tree)[hits@[k] as int], *query),
        forall|i: int|
            0 <= i < tree_boxes(tree).len() && boxes_overlap(#[trigger] tree_boxes(tree)[i], *query)
                ==> hits@.contains(i as usize),
{
    let envelope = AABB::from_corners(
        [query.min_lon, query.min_lat],
        [query.max_lon, query.max_lat],
    );
    tree.tree.locate_in_envelope_intersecting(&envelope).map(|g| g.data).collect()
}

/// A candidate route: an immutable snapshot of a stored route.
///
/// `distance` and `elevation_gain` are the stored totals in centimetres;
/// `bbox` is the tight box of the geometry.
#[derive(Debug)]
pub struct RouteEntry {
    pub id: String,
    pub name: String,
    pub distance: u32,
    pub elevation_gain: u32,
    pub geometry: RouteLine,
    pub elevation_profile: Vec<i32>,
    pub bbox: BoundingBox,
}

/// The mathematical value of a candidate route.
pub struct RouteEntryView {
    pub id: Seq<char>,
    pub name: Seq<char>,
    pub distance: u32,
    pub elevation_gain: u32,
    pub points: Seq<GeoPoint>,
    pub legs: Seq<u32>,
    pub turns: Seq<u32>,
    pub elevation_profile: Seq<i32>,
    pub bbox: BoundingBox,
}

impl RouteEntryView {
    /// A candidate has a valid line of two points or more, a profile of
    /// bounded length, and the tight box of its points.
    pub open spec fn wf(self) -> bool {
        &&& line_parts_valid(self.points, self.legs, self.turns)
        &&& self.points.len() >= 2
        &&& self.elevation_profile.len() <= MAX_POINTS
        &&& is_tight_box(self.points, self.bbox)
    }
}

impl View for RouteEntry {
    type V = RouteEntryView;

    open spec fn view(&self) -> RouteEntryView {
        RouteEntryView {
            id: self.id@,
            name: self.name@,
            distance: self.distance,
            elevation_gain: self.elevation_gain,
            points: self.geometry.points@,
            legs: self.geometry.legs@,
            turns: self.geometry.turns@,
            elevation_profile: self.elevation_profile@,
            bbox: self.bbox,
        }
    }
}

/// A tight box has its corners in order.
pub proof fn lemma_tight_box_ordered(points: Seq<GeoPoint>, b: BoundingBox)
    requires
        is_tight_box(points, b),
    ensures
        box_ordered(b),
{
    let k = choose|k: int| 0 <= k < points.len() && #[trigger] points[k].lon == b.min_lon;
    assert(box_holds(b, points[k]));
}

impl RouteEntry {
    /// Builds a candidate from a stored route and computes its bounding box.
    /// `None` when the line is not valid, has fewer than two points, or the
    /// profile is longer than `MAX_POINTS`.
    pub fn new(
        id: String,
        name: String,
        distance: u32,
        elevation_gain: u32,
        geometry: RouteLine,
        elevation_profile: Vec<i32>,
    ) -> (entry: Option<RouteEntry>)
        ensures
            entry.is_some() == (geometry.wf() && geometry.points@.len() >= 2
                && elevation_profile@.len() <= MAX_POINTS),
            entry matches Some(e) ==> e@.wf() && e@ == (RouteEntryView {
                id: id@,
                name: name@,
                distance,
                elevation_gain,
                points: geometry.points@,
                legs: geometry.legs@,
                turns: geometry.turns@,
                elevation_profile: elevation_profile@,
                bbox: tight_box(geometry.points@),
            }),
    {
        if !geometry.is_valid() || geometry.points.len() < 2 || elevation_profile.len() > MAX_POINTS {
            return None;
        }
        match geometry.bounding_box() {
            Some(bbox) => Some(
                RouteEntry { id, name, distance, elevation_gain, geometry, elevation_profile, bbox },
            ),
            None => None,
        }
    }

    /// The rectangle this candidate is indexed under.
    pub fn envelope(&self) -> (bbox: BoundingBox)
        ensures
            bbox == self.bbox,
    {
        self.bbox
    }

    /// A copy of this candidate.
    pub fn duplicate(&self) -> (copy: RouteEntry)
        ensures
            copy@ == self@,
    {
        RouteEntry {
            id: self.id.clone(),
            name: self.name.clone(),
            distance: self.distance,
            elevation_gain: self.elevation_gain,
            geometry: self.geometry.duplicate(),
            elevation_profile: self.elevation_profile.clone(),
            bbox: self.bbox,
        }
    }
}

/// The positions among the first `upto` boxes that overlap `query`, in
/// increasing order.
pub open spec fn overlapping(boxes: Seq<BoundingBox>, query: BoundingBox, upto: int) -> Seq<usize>
    decreases upto,
{
    if upto <= 0 {
        Seq::empty()
    } else if boxes_overlap(boxes[upto - 1], query) {
        overlapping(boxes, query, upto - 1).push((upto - 1) as usize)
    } else {
        overlapping(boxes, query, upto - 1)
    }
}

/// `s` is strictly increasing.
pub open spec fn strictly_increasing(s: Seq<usize>) -> bool {
    forall|i: int, j: int| 0 <= i < j < s.len() ==> s[i] < s[j]
}

/// What `overlapping` holds: exactly the overlapping positions below `upto`,
/// in strictly increasing order.
pub proof fn lemma_overlapping_members(boxes: Seq<BoundingBox>, query: BoundingBox, upto: int)
    requires
        0 <= upto <= boxes.len(),
        upto <= usize::MAX,
    ensures
        strictly_increasing(overlapping(boxes, query, upto)),
        forall|x: usize|
            overlapping(boxes, query, upto).contains(x) <==> (x < upto && boxes_overlap(
                boxes[x as int],
                query,
            )),
    decreases upto,
{
    if upto > 0 {
        lemma_overlapping_members(boxes, query, upto - 1);
        let rest = overlapping(boxes, query, upto - 1);
        let all = overlapping(boxes, query, upto);
        let top = (upto - 1) as usize;
        if boxes_overlap(boxes[upto - 1], query) {
            assert(all == rest.push(top));
            assert forall|i: int, j: int| 0 <= i < j < all.len() implies all[i] < all[j] by {
                if j == rest.len() {
                    assert(rest.contains(rest[i]));
                }
            }
            assert forall|x: usize| all.contains(x) <==> (x < upto && boxes_overlap(
                boxes[x as int],
                query,
            )) by {
                if all.contains(x) {
                    let k = choose|k: int| 0 <= k < all.len() && all[k] == x;
                    if k < rest.len() {
                        assert(rest.contains(rest[k]));
                    }
                }
                if x < upto && boxes_overlap(boxes[x as int], query) {
                    if x == top {
                        assert(all[rest.len() as int] == x);
                    } else {
                        assert(rest.contains(x));
                        let k = choose|k: int| 0 <= k < rest.len() && rest[k] == x;
                        assert(all[k] == x);
                    }
                }
            }
        } else {
            assert(all == rest);
        }
    }
}

/// Two strictly increasing sequences with the same members are equal.
pub proof fn lemma_increasing_unique(a: Seq<usize>, b: Seq<usize>)
    requires
        strictly_increasing(a),
        strictly_increasing(b),
        forall|x: usize| a.contains(x) <==> b.contains(x),
    ensures
        a == b,
    decreases a.len(),
{
    if a.len() == 0 {
        if b.len() > 0 {
            assert(b.contains(b[0]));
        }
        assert(a =~= b);
    } else {
        assert(a.contains(a.last()));
        assert(b.contains(a.last()));
        let kb = choose|k: int| 0 <= k < b.len() && b[k] == a.last();
        if kb < b.len() - 1 {
            assert(b.contains(b.last()));
            assert(a.contains(b.last()));
            let ka = choose|k: int| 0 <= k < a.len() && a[k] == b.last();
            assert(a[ka] <= a.last());
            assert(b[kb] < b.last());
        }
        assert(b.last() == a.last());
        let a0 = a.drop_last();
        let b0 = b.drop_last();
        assert forall|x: usize| a0.contains(x) <==> b0.contains(x) by {
            if a0.contains(x) {
                let k = choose|k: int| 0 <= k < a0.len() && a0[k] == x;
                assert(a[k] == x);
                assert(a.contains(x));
                let j = choose|j: int| 0 <= j < b.len() && b[j] == x;
                assert(a[k] < a.last());
                assert(j < b.len() - 1);
                assert(b0[j] == x);
            }
            if b0.contains(x) {
                let k = choose|k: int| 0 <= k < b0.len() && b0[k] == x;
                assert(b[k] == x);
                assert(b.contains(x));
                let j = choose|j: int| 0 <= j < a.len() && a[j] == x;
                assert(b[k] < b.last());
                assert(j < a.len() - 1);
                assert(a0[j] == x);
            }
        }
        lemma_increasing_unique(a0, b0);
        assert(a =~= a0.push(a.last()));
        assert(b =~= b0.push(b.last()));
    }
}

/// Sorts a list of distinct positions into increasing order.
pub fn sort_positions(hits: &Vec<usize>) -> (sorted: Vec<usize>)
    requires
        hits@.no_duplicates(),
    ensures
        strictly_increasing(sorted@),
        forall|x: usize| sorted@.contains(x) <==> hits@.contains(x),
{
    let mut sorted: Vec<usize> = Vec::with_capacity(hits.len());
    let mut k: usize = 0;
    while k < hits.len()
        invariant
            k <= hits@.len(),
            hits@.no_duplicates(),
            strictly_increasing(sorted@),
            forall|x: usize|
                #![trigger sorted@.contains(x)]
                #![trigger hits@.take(k as int).contains(x)]
                sorted@.contains(x) <==> hits@.take(k as int).contains(x),
        decreases hits@.len() - k,
    {
        let item = hits[k];
        let mut pos: usize = sorted.len();
        while pos > 0 && sorted[pos - 1] > item
            invariant
                pos <= sorted@.len(),
                forall|t: int| pos <= t < sorted@.len() ==> sorted@[t] > item,
            decreases pos,
        {
            pos = pos - 1;
        }
        let ghost before = sorted@;
        proof {
            assert(!before.contains(item)) by {
                if before.contains(item) {
                    let t = choose|t: int| 0 <= t < k && hits@.take(k as int)[t] == item;
                    assert(hits@[t] == hits@[k as int]);
                }
            }
            if pos > 0 {
                assert(before.contains(before[pos - 1]));
            }
        }
        sorted.insert(pos, item);
        proof {
            let after = sorted@;
            assert(after == before.insert(pos as int, item));
            assert forall|i: int, j: int| 0 <= i < j < after.len() implies after[i] < after[j] by {
                if i < pos && j > pos {
                    assert(after[i] == before[i] && after[j] == before[j - 1]);
                } else if i < pos && j == pos {
                    assert(before[i] <= before[pos - 1]);
                } else if i == pos {
                    assert(after[j] == before[j - 1]);
                } else if j < pos {
                    assert(after[i] == before[i] && after[j] == before[j]);
                } else {
                    assert(after[i] == before[i - 1] && after[j] == before[j - 1]);
                }
            }
            let longer = hits@.take(k + 1);
            let shorter = hits@.take(k as int);
            assert forall|x: usize| after.contains(x) <==> longer.contains(x) by {
                if after.contains(x) {
                    let t = choose|t: int| 0 <= t < after.len() && after[t] == x;
                    if t == pos {
                        assert(longer[k as int] == x);
                    } else {
                        let u = if t < pos { t } else { t - 1 };
                        assert(before[u] == x);
                        assert(before.contains(x));
                        let v = choose|v: int| 0 <= v < shorter.len() && shorter[v] == x;
                        assert(longer[v] == x);
                    }
                }
                if longer.contains(x) {
                    let v = choose|v: int| 0 <= v < longer.len() && longer[v] == x;
                    if v == k {
                        assert(after[pos as int] == x);
                    } else {
                        assert(shorter[v] == x);
                        assert(shorter.contains(x));
                        assert(before.contains(x));
                        let u = choose|u: int| 0 <= u < before.len() && before[u] == x;
                        let t = if u < pos { u } else { u + 1 };
                        assert(after[t] == x);
                    }
                }
            }
        }
        k = k + 1;
    }
    proof {
        assert(hits@.take(k as int) =~= hits@);
    }
    sorted
}

/// The views of a list of candidates.
pub open spec fn entry_views(routes: Seq<RouteEntry>) -> Seq<RouteEntryView> {
    routes.map_values(|r: RouteEntry| r@)
}

/// The boxes of a list of candidates.
pub open spec fn entry_boxes(routes: Seq<RouteEntry>) -> Seq<BoundingBox> {
    routes.map_values(|r: RouteEntry| r.bbox)
}

/// A rectangle from two opposite corners given in any order.
pub open spec fn box_from_corners(bounds: (i32, i32, i32, i32)) -> BoundingBox {
    BoundingBox {
        min_lon: if bounds.0 <= bounds.2 {
            bounds.0
        } else {
            bounds.2
        },
        min_lat: if bounds.1 <= bounds.3 {
            bounds.1
        } else {
            bounds.3
        },
        max_lon: if bounds.0 <= bounds.2 {
            bounds.2
        } else {
            bounds.0
        },
        max_lat: if bounds.1 <= bounds.3 {
            bounds.3
        } else {
            bounds.1
        },
    }
}

/// The candidates of `routes` whose box overlaps `query`, in their order.
pub open spec fn candidates_in(routes: Seq<RouteEntryView>, query: BoundingBox) -> Seq<
    RouteEntryView,
> {
    routes.filter(|r: RouteEntryView| boxes_overlap(r.bbox, query))
}

/// A stored route as plain values: what a row of the route store holds once
/// its geometry and profile are decoded.
#[derive(Debug)]
pub struct StoredRoute {
    pub id: i64,
    pub name: String,
    pub distance: u32,
    pub elevation_gain: u32,
    pub geometry: RouteLine,
    pub elevation_profile: Vec<i32>,
}

/// A stored route can be indexed: its line is valid and has two points or
/// more, and its profile is of bounded length.
pub open spec fn stored_usable(stored: StoredRoute) -> bool {
    stored.geometry.wf() && stored.geometry.points@.len() >= 2 && stored.elevation_profile@.len()
        <= MAX_POINTS
}

/// The candidate made from a usable stored route.
pub open spec fn stored_entry(stored: StoredRoute) -> RouteEntryView {
    RouteEntryView {
        id: decimal_text(stored.id as int),
        name: stored.name@,
        distance: stored.distance,
        elevation_gain: stored.elevation_gain,
        points: stored.geometry.points@,
        legs: stored.geometry.legs@,
        turns: stored.geometry.turns@,
        elevation_profile: stored.elevation_profile@,
        bbox: tight_box(stored.geometry.points@),
    }
}

/// The candidates made from the usable ones among `stored`, in their order.
pub open spec fn stored_entries(stored: Seq<StoredRoute>) -> Seq<RouteEntryView>
    decreases stored.len(),
{
    if stored.len() == 0 {
        Seq::empty()
    } else if stored_usable(stored.last()) {
        stored_entries(stored.drop_last()).push(stored_entry(stored.last()))
    } else {
        stored_entries(stored.drop_last())
    }
}

/// A spatial index over candidate routes, immutable once built.
pub struct SpatialIndex {
    pub routes: Vec<RouteEntry>,
    pub tree: BoxTree,
}

impl SpatialIndex {
    /// Every candidate is well formed and the tree holds their boxes in order.
    pub open spec fn wf(&self) -> bool {
        &&& forall|i: int| 0 <= i < self.routes@.len() ==> (#[trigger] self.routes@[i])@.wf()
        &&& tree_boxes(&self.tree) == entry_boxes(self.routes@)
    }

    /// The candidates held, as mathematical values in their order.
    pub open spec fn entries(&self) -> Seq<RouteEntryView> {
        entry_views(self.routes@)
    }

    /// An index over the built-in sample routes.
    pub fn new() -> (index: SpatialIndex)
        ensures
            index.wf(),
            index.entries() == sample_route_views(),
    {
        let routes = Self::load_sample_routes();
        Self::bulk_load(routes)
    }

    /// Bulk-loads an index over `routes`.
    pub fn bulk_load(routes: Vec<RouteEntry>) -> (index: SpatialIndex)
        requires
            forall|i: int| 0 <= i < routes@.len() ==> (#[trigger] routes@[i])@.wf(),
        ensures
            index.wf(),
            index.routes@ == routes@,
    {
        let mut boxes: Vec<BoundingBox> = Vec::with_capacity(routes.len());
        let mut i: usize = 0;
        while i < routes.len()
            invariant
                i <= routes@.len(),
                boxes@ == entry_boxes(routes@.take(i as int)),
                forall|k: int| 0 <= k < routes@.len() ==> (#[trigger] routes@[k])@.wf(),
            decreases routes@.len() - i,
        {
            boxes.push(routes[i].envelope());
            proof {
                assert(entry_boxes(routes@.take(i + 1)) =~= entry_boxes(routes@.take(i as int)).push(
                    routes@[i as int].bbox,
                ));
            }
            i = i + 1;
        }
        proof {
            assert(routes@.take(i as int) =~= routes@);
            assert forall|k: int| 0 <= k < boxes@.len() implies box_ordered(#[trigger] boxes@[k]) by {
                assert(routes@[k]@.wf());
                lemma_tight_box_ordered(routes@[k]@.points, routes@[k].bbox);
            }
        }
        let tree = tree_bulk_load(&boxes);
        SpatialIndex { routes, tree }
    }

    /// An index over candidates given as they are: the sample routes when
    /// `routes` is empty.
    pub fn from_routes(routes: Vec<RouteEntry>) -> (index: SpatialIndex)
        requires
            forall|i: int| 0 <= i < routes@.len() ==> (#[trigger] routes@[i])@.wf(),
        ensures
            index.wf(),
            index.entries() == (if routes@.len() == 0 {
                sample_route_views()
            } else {
                entry_views(routes@)
            }),
    {
        if routes.len() == 0 {
            Self::new()
        } else {
            Self::bulk_load(routes)
        }
    }

    /// An index over the routes of the store.
    ///
    /// A stored route whose geometry is not a valid line of two points or
    /// more, or whose profile is too long, is skipped. When no stored route
    /// is left, the index holds the sample routes.
    pub fn from_stored(stored: Vec<StoredRoute>) -> (index: SpatialIndex)
        ensures
            index.wf(),
            index.entries() == (if stored_entries(stored@).len() == 0 {
                sample_route_views()
            } else {
                stored_entries(stored@)
            }),
    {
        let ghost all = stored@;
        let mut stored = stored;
        let mut routes: Vec<RouteEntry> = Vec::new();
        let mut rest: Vec<StoredRoute> = Vec::new();
        // Take the rows from the back, then restore their order.
        while stored.len() > 0
            invariant
                stored@.len() + rest@.len() == all.len(),
                forall|k: int| 0 <= k < stored@.len() ==> stored@[k] == all[k],
                forall|k: int|
                    0 <= k < rest@.len() ==> #[trigger] rest@[k] == all[all.len() - 1 - k],
            decreases stored@.len(),
        {
            let row = stored.pop().unwrap();
            rest.push(row);
        }
        while rest.len() > 0
            invariant
                rest@.len() <= all.len(),
                forall|k: int|
                    0 <= k < rest@.len() ==> #[trigger] rest@[k] == all[all.len() - 1 - k],
                entry_views(routes@) == stored_entries(all.take(all.len() - rest@.len())),
                forall|i: int| 0 <= i < routes@.len() ==> (#[trigger] routes@[i])@.wf(),
            decreases rest@.len(),
        {
            let ghost done = all.len() - rest@.len();
            let row = rest.pop().unwrap();
            proof {
                assert(row == all[done]);
                assert(all.take(done + 1).drop_last() =~= all.take(done));
                assert(all.take(done + 1).last() == row);
            }
            let ghost before = routes@;
            let made = RouteEntry::new(
                decimal_string(row.id),
                row.name,
                row.distance,
                row.elevation_gain,
                row.geometry,
                row.elevation_profile,
            );
            match made {
                Some(entry) => {
                    proof {
                        assert(entry@ == stored_entry(row));
                    }
                    routes.push(entry);
                    proof {
                        assert(entry_views(routes@) =~= entry_views(before).push(stored_entry(row)));
                    }
                },
                None => {},
            }
        }
        proof {
            assert(all.take(all.len() as int) =~= all);
        }
        Self::from_routes(routes)
    }

    /// The three built-in sample routes.
    pub fn load_sample_routes() -> (routes: Vec<RouteEntry>)
        ensures
            entry_views(routes@) == sample_route_views(),
            forall|i: int| 0 <= i < routes@.len() ==> (#[trigger] routes@[i])@.wf(),
    {
        let mut routes: Vec<RouteEntry> = Vec::with_capacity(3);
        routes.push(berlin_loop());
        routes.push(tiergarten_trail());
        routes.push(grunewald_path());
        proof {
            assert(entry_views(routes@) =~= sample_route_views());
        }
        routes
    }

    /// Positions of the candidates whose box overlaps `query`, in increasing
    /// order.
    pub fn query_positions(&self, query: &BoundingBox) -> (positions: Vec<usize>)
        requires
            self.wf(),
            box_ordered(*query),
        ensures
            positions@ == overlapping(entry_boxes(self.routes@), *query, self.routes@.len() as int),
    {
        let hits = tree_query(&self.tree, query);
        let positions = sort_positions(&hits);
        let count = self.routes.len();
        proof {
            let boxes = entry_boxes(self.routes@);
            let n = count as int;
            lemma_overlapping_members(boxes, *query, n);
            let want = overlapping(boxes, *query, n);
            assert forall|x: usize| positions@.contains(x) <==> want.contains(x) by {
                if positions@.contains(x) {
                    assert(hits@.contains(x));
                    let k = choose|k: int| 0 <= k < hits@.len() && hits@[k] == x;
                    assert(hits@[k] < boxes.len());
                }
                if want.contains(x) {
                    assert(boxes_overlap(boxes[x as int], *query));
                    assert(hits@.contains(x));
                }
            }
            lemma_increasing_unique(positions@, want);
        }
        positions
    }

    /// Positions of the candidates whose bounding box meets the rectangle
    /// spanned by two opposite corners, in increasing order.
    pub fn candidate_positions(&self, bounds: (i32, i32, i32, i32)) -> (positions: Vec<usize>)
        requires
            self.wf(),
        ensures
            forall|t: int| 0 <= t < positions@.len() ==> (#[trigger] positions@[t]) < self.routes@.len(),
            positions@.map_values(|p: usize| self.routes@[p as int]@) == candidates_in(
                self.entries(),
                box_from_corners(bounds),
            ),
    {
        let query = corners_box(bounds);
        let positions = self.query_positions(&query);
        let count = self.routes.len();
        proof {
            lemma_overlapping_candidates(self.routes@, query, count as int);
            assert(self.entries().take(count as int) =~= self.entries());
        }
        positions
    }

    /// The candidates whose bounding box meets the rectangle spanned by the
    /// corners (`west`, `south`) and (`east`, `north`), in the order they were
    /// indexed. Boxes that only touch count as meeting.
    pub fn query_bounds(&self, bounds: (i32, i32, i32, i32)) -> (found: Vec<RouteEntry>)
        requires
            self.wf(),
        ensures
            entry_views(found@) == candidates_in(self.entries(), box_from_corners(bounds)),
    {
        let query = corners_box(bounds);
        let positions = self.query_positions(&query);
        let mut found: Vec<RouteEntry> = Vec::with_capacity(positions.len());
        let mut k: usize = 0;
        let count = self.routes.len();
        proof {
            lemma_overlapping_candidates(self.routes@, query, count as int);
        }
        while k < positions.len()
            invariant
                k <= positions@.len(),
                self.wf(),
                positions@ == overlapping(
                    entry_boxes(self.routes@),
                    query,
                    self.routes@.len() as int,
                ),
                forall|t: int| 0 <= t < positions@.len() ==> positions@[t] < self.routes@.len(),
                entry_views(found@) == positions@.take(k as int).map_values(
                    |p: usize| self.routes@[p as int]@,
                ),
            decreases positions@.len() - k,
        {
            let p = positions[k];
            let ghost before = found@;
            let copy = self.routes[p].duplicate();
            found.push(copy);
            proof {
                let pick = |p: usize| self.routes@[p as int]@;
                assert(positions@.take(k + 1) =~= positions@.take(k as int).push(p));
                assert(positions@.take(k as int).push(p).map_values(pick) =~= positions@.take(
                    k as int,
                ).map_values(pick).push(pick(p)));
                assert(entry_views(found@) =~= entry_views(before).push(copy@));
            }
            k = k + 1;
        }
        proof {
            assert(positions@.take(k as int) =~= positions@);
            assert(self.entries().take(self.routes@.len() as int) =~= self.entries());
        }
        found
    }
}

/// The rectangle spanned by two opposite corners.
pub fn corners_box(bounds: (i32, i32, i32, i32)) -> (b: BoundingBox)
    ensures
        b == box_from_corners(bounds),
        box_ordered(b),
{
    let (west, south, east, north) = bounds;
    BoundingBox {
        min_lon: if west <= east { west } else { east },
        min_lat: if south <= north { south } else { north },
        max_lon: if west <= east { east } else { west },
        max_lat: if south <= north { north } else { south },
    }
}

/// The candidates at the overlapping positions are the overlapping candidates.
pub proof fn lemma_overlapping_candidates(routes: Seq<RouteEntry>, query: BoundingBox, upto: int)
    requires
        0 <= upto <= routes.len(),
        upto <= usize::MAX,
    ensures
        overlapping(entry_boxes(routes), query, upto).map_values(|p: usize| routes[p as int]@)
            == candidates_in(entry_views(routes).take(upto), query),
        forall|t: int|
            0 <= t < overlapping(entry_boxes(routes), query, upto).len() ==> (
            #[trigger] overlapping(entry_boxes(routes), query, upto)[t]) < upto,
    decreases upto,
{
    let views = entry_views(routes);
    let pred = |r: RouteEntryView| boxes_overlap(r.bbox, query);
    if upto == 0 {
        assert(views.take(0) =~= Seq::<RouteEntryView>::empty());
        assert(views.take(0).filter(pred) =~= Seq::<RouteEntryView>::empty());
        assert(overlapping(entry_boxes(routes), query, 0).map_values(|p: usize| routes[p as int]@)
            =~= Seq::<RouteEntryView>::empty());
    } else {
        lemma_overlapping_candidates(routes, query, upto - 1);
        let shorter = views.take(upto - 1);
        let longer = views.take(upto);
        assert(longer =~= shorter.push(views[upto - 1]));
        assert(longer.drop_last() =~= shorter);
        reveal(Seq::filter);
        let rest = overlapping(entry_boxes(routes), query, upto - 1);
        let pick = |p: usize| routes[p as int]@;
        assert(pred(views[upto - 1]) == boxes_overlap(entry_boxes(routes)[upto - 1], query));
        if boxes_overlap(entry_boxes(routes)[upto - 1], query) {
            let top = (upto - 1) as usize;
            assert(rest.push(top).map_values(pick) =~= rest.map_values(pick).push(pick(top)));
        }
    }
}

} // verus!
