use curvematch::matching::geometry::{BoundingBox, GeoPoint, RouteLine};
use curvematch::matching::spatial_index::{
    corners_box, sort_positions, RouteEntry, SpatialIndex, StoredRoute,
};

fn line(points: &[(i32, i32)]) -> RouteLine {
    let n = points.len();
    RouteLine::new(
        points.iter().map(|p| GeoPoint { lon: p.0, lat: p.1 }).collect(),
        vec![100; n.saturating_sub(1)],
        vec![0; n.saturating_sub(2)],
    )
    .expect("valid line")
}

fn stored(id: i64, name: &str, points: &[(i32, i32)]) -> StoredRoute {
    StoredRoute {
        id,
        name: name.to_string(),
        distance: 1_000,
        elevation_gain: 10,
        geometry: line(points),
        elevation_profile: vec![0; points.len()],
    }
}

fn ids(found: &[RouteEntry]) -> Vec<String> {
    found.iter().map(|r| r.id.clone()).collect()
}

#[test]
fn new_index_holds_the_sample_routes() {
    let index = SpatialIndex::new();
    assert_eq!(ids(&index.routes), vec!["1", "2", "3"]);
    let names: Vec<&str> = index.routes.iter().map(|r| r.name.as_str()).collect();
    assert_eq!(names, vec!["Berlin Loop", "Tiergarten Trail", "Grunewald Forest Path"]);
    assert_eq!(index.routes[0].distance, 500_000);
    assert_eq!(index.routes[1].elevation_gain, 2_500);
    assert_eq!(index.routes[2].geometry.points.len(), 8);
    assert_eq!(index.routes[0].elevation_profile, vec![10_000, 10_500, 11_000, 10_800, 10_500, 10_000]);
    assert_eq!(
        index.routes[0].bbox,
        BoundingBox {
            min_lon: 134_050_000,
            min_lat: 525_200_000,
            max_lon: 134_200_000,
            max_lat: 525_350_000
        }
    );
    assert_eq!(
        index.routes[2].envelope(),
        BoundingBox {
            min_lon: 132_500_000,
            min_lat: 524_900_000,
            max_lon: 132_800_000,
            max_lat: 525_100_000
        }
    );
    assert!(index.routes.iter().all(|r| r.geometry.is_valid()));
}

#[test]
fn sample_routes_are_three() {
    let routes = SpatialIndex::load_sample_routes();
    assert_eq!(routes.len(), 3);
    assert_eq!(routes[1].geometry.legs, vec![87_582, 87_576, 65_080, 87_570, 116_228]);
    assert_eq!(routes[1].geometry.turns, vec![0, 108_435, 71_565, 36_870]);
}

#[test]
fn query_returns_the_boxes_that_meet_the_rectangle() {
    let index = SpatialIndex::new();
    let all = index.query_bounds((130_000_000, 520_000_000, 140_000_000, 530_000_000));
    assert_eq!(ids(&all), vec!["1", "2", "3"]);
    let berlin = index.query_bounds((134_000_000, 525_000_000, 134_100_000, 525_250_000));
    assert_eq!(ids(&berlin), vec!["1"]);
    let west = index.query_bounds((132_000_000, 524_000_000, 133_600_000, 526_000_000));
    assert_eq!(ids(&west), vec!["2", "3"]);
    let none = index.query_bounds((0, 0, 1_000, 1_000));
    assert!(none.is_empty());
}

#[test]
fn query_counts_boxes_that_only_touch() {
    let index = SpatialIndex::new();
    let touching = index.query_bounds((134_200_000, 525_350_000, 135_000_000, 526_000_000));
    assert_eq!(ids(&touching), vec!["1"]);
    let beside = index.query_bounds((134_200_001, 525_350_000, 135_000_000, 526_000_000));
    assert!(beside.is_empty());
}

#[test]
fn query_overlap_is_not_containment() {
    let index = SpatialIndex::new();
    let inside = index.query_bounds((134_100_000, 525_250_000, 134_100_001, 525_250_001));
    assert_eq!(ids(&inside), vec!["1"]);
}

#[test]
fn query_takes_corners_in_any_order() {
    let index = SpatialIndex::new();
    let swapped = index.query_bounds((134_100_000, 525_250_000, 134_000_000, 525_000_000));
    assert_eq!(ids(&swapped), vec!["1"]);
    assert_eq!(
        corners_box((5, -1, -3, 9)),
        BoundingBox { min_lon: -3, min_lat: -1, max_lon: 5, max_lat: 9 }
    );
}

#[test]
fn query_returns_copies_of_the_candidates() {
    let index = SpatialIndex::new();
    let found = index.query_bounds((133_000_000, 525_000_000, 133_800_000, 526_000_000));
    assert_eq!(found.len(), 1);
    assert_eq!(found[0].name, "Tiergarten Trail");
    assert_eq!(found[0].geometry.points, index.routes[1].geometry.points);
    assert_eq!(found[0].elevation_profile, index.routes[1].elevation_profile);
    assert_eq!(found[0].bbox, index.routes[1].bbox);
}

#[test]
fn positions_come_back_in_index_order_from_a_large_index() {
    let rows: Vec<StoredRoute> = (0..200)
        .map(|i| stored(i, "r", &[(i as i32 * 10, 0), (i as i32 * 10 + 5, 5)]))
        .collect();
    let index = SpatialIndex::from_stored(rows);
    assert_eq!(index.routes.len(), 200);
    let found = index.candidate_positions((500, -10, 1_000, 10));
    let expected: Vec<usize> = (50..=100).collect();
    assert_eq!(found, expected);
    let found = index.candidate_positions((1_995, 5, 5_000, 9));
    assert_eq!(found, vec![199]);
}

#[test]
fn sort_positions_orders_distinct_positions() {
    assert_eq!(sort_positions(&vec![5, 1, 9, 0, 3]), vec![0, 1, 3, 5, 9]);
    assert_eq!(sort_positions(&vec![]), Vec::<usize>::new());
    assert_eq!(sort_positions(&vec![7]), vec![7]);
}

#[test]
fn stored_routes_become_candidates() {
    let index = SpatialIndex::from_stored(vec![
        stored(42, "Hill", &[(10, 20), (30, 5), (25, 40)]),
        stored(-7, "Valley", &[(0, 0), (1, 1)]),
    ]);
    assert_eq!(ids(&index.routes), vec!["42", "-7"]);
    assert_eq!(index.routes[0].name, "Hill");
    assert_eq!(index.routes[0].bbox, BoundingBox { min_lon: 10, min_lat: 5, max_lon: 30, max_lat: 40 });
    assert_eq!(index.routes[0].distance, 1_000);
    assert_eq!(index.routes[0].elevation_gain, 10);
}

#[test]
fn malformed_stored_routes_are_skipped() {
    let mut broken = stored(2, "Broken", &[(0, 0), (1, 1), (2, 2)]);
    broken.geometry.legs.pop();
    let short = stored(3, "Short", &[(5, 5)]);
    let empty = stored(4, "Empty", &[]);
    let mut long_profile = stored(5, "Long", &[(0, 0), (1, 1)]);
    long_profile.elevation_profile = vec![0; 65_536];
    let index = SpatialIndex::from_stored(vec![
        stored(1, "Good", &[(0, 0), (9, 9)]),
        broken,
        short,
        empty,
        long_profile,
        stored(6, "Also good", &[(3, 3), (4, 4)]),
    ]);
    assert_eq!(ids(&index.routes), vec!["1", "6"]);
}

#[test]
fn without_usable_stored_routes_the_samples_are_used() {
    let index = SpatialIndex::from_stored(vec![]);
    assert_eq!(ids(&index.routes), vec!["1", "2", "3"]);
    let index = SpatialIndex::from_stored(vec![stored(9, "Short", &[(5, 5)])]);
    assert_eq!(ids(&index.routes), vec!["1", "2", "3"]);
    let index = SpatialIndex::from_routes(vec![]);
    assert_eq!(ids(&index.routes), vec!["1", "2", "3"]);
}

#[test]
fn route_entry_new_checks_the_route() {
    let ok = RouteEntry::new("a".into(), "b".into(), 1, 2, line(&[(0, 0), (4, 2)]), vec![1, 2]);
    let entry = ok.expect("usable");
    assert_eq!(entry.bbox, BoundingBox { min_lon: 0, min_lat: 0, max_lon: 4, max_lat: 2 });
    assert_eq!(entry.duplicate().id, "a");
    assert!(RouteEntry::new("a".into(), "b".into(), 1, 2, line(&[(0, 0)]), vec![]).is_none());
}

#[test]
fn search_area_gives_its_corners() {
    let area = curvematch::models::request::SearchArea { west: 5, south: -1, east: -3, north: 9 };
    assert_eq!(area.bounds(), (5, -1, -3, 9));
    assert_eq!(
        area.bounding_box(),
        BoundingBox { min_lon: -3, min_lat: -1, max_lon: 5, max_lat: 9 }
    );
}
