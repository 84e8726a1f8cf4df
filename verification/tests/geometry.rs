use curvematch::matching::geometry::{
    calculate_distance, calculate_elevation_gain, create_distance_array, BoundingBox, GeoPoint,
    RouteLine,
};
use curvematch::matching::numeric::{integer_sqrt, truncated_quotient};

fn line(points: &[(i32, i32)], legs: &[u32], turns: &[u32]) -> RouteLine {
    RouteLine::new(
        points.iter().map(|p| GeoPoint { lon: p.0, lat: p.1 }).collect(),
        legs.to_vec(),
        turns.to_vec(),
    )
    .expect("valid line")
}

#[test]
fn integer_sqrt_is_the_floor() {
    assert_eq!(integer_sqrt(0), 0);
    assert_eq!(integer_sqrt(1), 1);
    assert_eq!(integer_sqrt(15), 3);
    assert_eq!(integer_sqrt(16), 4);
    assert_eq!(integer_sqrt(17), 4);
    assert_eq!(integer_sqrt(u128::MAX), u64::MAX);
}

#[test]
fn truncated_quotient_rounds_toward_zero() {
    assert_eq!(truncated_quotient(7, 2), 3);
    assert_eq!(truncated_quotient(-7, 2), -3);
    assert_eq!(truncated_quotient(7, -2), -3);
    assert_eq!(truncated_quotient(-7, -2), 3);
    assert_eq!(truncated_quotient(5, 0), 0);
}

#[test]
fn route_line_rejects_parts_that_do_not_fit() {
    let p = vec![GeoPoint { lon: 0, lat: 0 }, GeoPoint { lon: 1, lat: 1 }];
    assert!(RouteLine::new(p.clone(), vec![10], vec![]).is_some());
    assert!(RouteLine::new(p.clone(), vec![], vec![]).is_none());
    assert!(RouteLine::new(p.clone(), vec![10], vec![5]).is_none());
    let q = vec![GeoPoint { lon: 0, lat: 0 }, GeoPoint { lon: 1, lat: 1 }, GeoPoint { lon: 2, lat: 0 }];
    assert!(RouteLine::new(q.clone(), vec![10, 10], vec![180_000]).is_some());
    assert!(RouteLine::new(q.clone(), vec![10, 10], vec![180_001]).is_none());
    assert!(RouteLine::new(q, vec![u32::MAX, 1], vec![0]).is_none());
}

#[test]
fn distance_is_the_sum_of_the_legs() {
    let l = line(&[(0, 0), (10, 0), (10, 10), (0, 10)], &[100, 250, 75], &[90_000, 90_000]);
    assert_eq!(calculate_distance(&l), 425);
    assert_eq!(calculate_distance(&RouteLine::empty()), 0);
    assert_eq!(calculate_distance(&line(&[(5, 5)], &[], &[])), 0);
}

#[test]
fn distance_is_the_same_in_both_directions() {
    let forward = line(&[(0, 0), (10, 0), (10, 10), (0, 10)], &[100, 250, 75], &[90_000, 45_000]);
    let backward = line(&[(0, 10), (10, 10), (10, 0), (0, 0)], &[75, 250, 100], &[45_000, 90_000]);
    assert_eq!(calculate_distance(&forward), calculate_distance(&backward));
}

#[test]
fn distance_array_is_cumulative() {
    let l = line(&[(0, 0), (10, 0), (10, 10), (0, 10)], &[100, 250, 75], &[90_000, 90_000]);
    assert_eq!(create_distance_array(&l), vec![0, 100, 350, 425]);
    assert_eq!(create_distance_array(&line(&[(5, 5)], &[], &[])), vec![0]);
    assert_eq!(create_distance_array(&RouteLine::empty()), Vec::<u32>::new());
}

#[test]
fn elevation_gain_sums_the_climbs() {
    assert_eq!(calculate_elevation_gain(&[10_000, 10_500, 11_000, 10_800, 10_500, 10_000]), 1_000);
    assert_eq!(calculate_elevation_gain(&[]), 0);
    assert_eq!(calculate_elevation_gain(&[500]), 0);
    assert_eq!(calculate_elevation_gain(&[300, 200, 100]), 0);
    assert_eq!(calculate_elevation_gain(&[i32::MIN, i32::MAX]), u32::MAX as u64);
}

#[test]
fn bounding_box_is_tight() {
    let l = line(&[(3, 7), (-2, 9), (5, -1)], &[1, 1], &[0]);
    assert_eq!(
        l.bounding_box(),
        Some(BoundingBox { min_lon: -2, min_lat: -1, max_lon: 5, max_lat: 9 })
    );
    assert_eq!(RouteLine::empty().bounding_box(), None);
}

#[test]
fn reversed_line_has_the_same_distance() {
    let l = line(&[(0, 0), (10, 0), (10, 10), (0, 10), (3, 3)], &[100, 250, 75, 9], &[90_000, 45_000, 1]);
    let r = l.reversed();
    assert!(r.is_valid());
    assert_eq!(r.points.first(), l.points.last());
    assert_eq!(r.legs, vec![9, 75, 250, 100]);
    assert_eq!(r.turns, vec![1, 45_000, 90_000]);
    assert_eq!(calculate_distance(&r), calculate_distance(&l));
    assert_eq!(calculate_distance(&r), 434);
    assert_eq!(r.reversed().points, l.points);
    assert_eq!(RouteLine::empty().reversed().points.len(), 0);
}

#[test]
fn duplicate_copies_every_part() {
    let l = line(&[(0, 0), (10, 0), (10, 10)], &[100, 250], &[90_000]);
    let d = l.duplicate();
    assert_eq!(d.points, l.points);
    assert_eq!(d.legs, l.legs);
    assert_eq!(d.turns, l.turns);
}
