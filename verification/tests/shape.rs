use curvematch::matching::geometry::{GeoPoint, RouteLine};
use curvematch::matching::shape::{
    calculate_curvature, count_turns, euclidean_distance_squared, frechet_distance,
    hausdorff_distance, turn_sequence_similarity,
};

fn path(points: &[(i32, i32)]) -> RouteLine {
    let n = points.len();
    RouteLine::new(
        points.iter().map(|p| GeoPoint { lon: p.0, lat: p.1 }).collect(),
        vec![1; n.saturating_sub(1)],
        vec![0; n.saturating_sub(2)],
    )
    .expect("valid line")
}

fn turning(turns: &[u32]) -> RouteLine {
    let n = turns.len() + 2;
    RouteLine::new(
        (0..n).map(|i| GeoPoint { lon: i as i32, lat: 0 }).collect(),
        vec![1; n - 1],
        turns.to_vec(),
    )
    .expect("valid line")
}

#[test]
fn count_turns_above_the_threshold() {
    let line = turning(&[18_435, 90_000, 71_565, 30_000, 30_001]);
    assert_eq!(count_turns(&line, 30_000), 3);
    assert_eq!(count_turns(&line, 0), 5);
    assert_eq!(count_turns(&line, 90_000), 0);
    assert_eq!(count_turns(&line, 89_999), 1);
}

#[test]
fn short_lines_have_no_turns() {
    assert_eq!(count_turns(&RouteLine::empty(), 0), 0);
    assert_eq!(count_turns(&path(&[(0, 0)]), 0), 0);
    assert_eq!(count_turns(&path(&[(0, 0), (1, 1)]), 0), 0);
    assert_eq!(calculate_curvature(&path(&[(0, 0), (1, 1)])), 0);
}

#[test]
fn curvature_is_the_sum_of_the_turns() {
    assert_eq!(calculate_curvature(&turning(&[18_435, 90_000, 71_565, 63_435])), 243_435);
    assert_eq!(calculate_curvature(&turning(&[180_000, 180_000])), 360_000);
}

#[test]
fn turn_similarity_values() {
    let none = turning(&[0, 10_000]);
    let two = turning(&[45_000, 10_000, 90_000]);
    let three = turning(&[45_000, 60_000, 90_000]);
    let four = turning(&[45_000, 60_000, 90_000, 31_000]);
    let one = turning(&[45_000]);
    assert_eq!(turn_sequence_similarity(&none, &none), 1_000_000);
    assert_eq!(turn_sequence_similarity(&two, &four), 500_000);
    assert_eq!(turn_sequence_similarity(&four, &two), 500_000);
    assert_eq!(turn_sequence_similarity(&three, &four), 750_000);
    assert_eq!(turn_sequence_similarity(&one, &three), 333_334);
    assert_eq!(turn_sequence_similarity(&none, &three), 0);
}

#[test]
fn turn_similarity_of_a_route_with_itself_is_one() {
    for line in [turning(&[]), turning(&[45_000]), turning(&[45_000, 60_000, 10_000, 170_000])] {
        assert_eq!(turn_sequence_similarity(&line, &line), 1_000_000);
    }
}

#[test]
fn squared_distance_is_exact() {
    let a = GeoPoint { lon: 0, lat: 0 };
    let b = GeoPoint { lon: 30_000, lat: -40_000 };
    assert_eq!(euclidean_distance_squared(&a, &b), 2_500_000_000);
    assert_eq!(euclidean_distance_squared(&a, &a), 0);
    let low = GeoPoint { lon: i32::MIN, lat: i32::MIN };
    let high = GeoPoint { lon: i32::MAX, lat: i32::MAX };
    assert_eq!(euclidean_distance_squared(&low, &high), 2 * (u32::MAX as u128) * (u32::MAX as u128));
}

#[test]
fn hausdorff_similarity_values() {
    let corner = path(&[(0, 0), (100_000, 0), (100_000, 100_000)]);
    let edge = path(&[(0, 0), (100_000, 0)]);
    assert_eq!(hausdorff_distance(&corner, &edge), 500_000);
    assert_eq!(hausdorff_distance(&edge, &corner), 500_000);
    assert_eq!(hausdorff_distance(&path(&[(0, 0)]), &path(&[(30_000, 40_000)])), 666_666);
    let low = path(&[(i32::MIN, i32::MIN)]);
    let high = path(&[(i32::MAX, i32::MAX)]);
    assert_eq!(hausdorff_distance(&low, &high), 16);
}

#[test]
fn hausdorff_similarity_of_a_route_with_itself_is_one() {
    let corner = path(&[(0, 0), (100_000, 0), (100_000, 100_000)]);
    assert_eq!(hausdorff_distance(&corner, &corner), 1_000_000);
    assert_eq!(hausdorff_distance(&RouteLine::empty(), &RouteLine::empty()), 1_000_000);
    let shuffled = path(&[(100_000, 100_000), (0, 0), (100_000, 0), (0, 0)]);
    assert_eq!(hausdorff_distance(&corner, &shuffled), 1_000_000);
}

#[test]
fn hausdorff_similarity_with_an_empty_line_is_zero() {
    let corner = path(&[(0, 0), (100_000, 0), (100_000, 100_000)]);
    assert_eq!(hausdorff_distance(&corner, &RouteLine::empty()), 0);
    assert_eq!(hausdorff_distance(&RouteLine::empty(), &corner), 0);
}

#[test]
fn frechet_is_hausdorff() {
    let corner = path(&[(0, 0), (100_000, 0), (100_000, 100_000)]);
    let edge = path(&[(0, 0), (100_000, 0)]);
    assert_eq!(frechet_distance(&corner, &edge), hausdorff_distance(&corner, &edge));
    assert_eq!(frechet_distance(&corner, &corner), 1_000_000);
}
