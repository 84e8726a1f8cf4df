use curvematch::api::match_routes::{remove_all, route_name};
use curvematch::matching::engine::{
    combine_scores, distance_in_window, gain_per_km, weighted_score, MatchResult, MatchingConfig,
    MatchingEngine,
};
use curvematch::matching::geometry::{GeoPoint, RouteLine};
use curvematch::matching::spatial_index::StoredRoute;

const BERLIN: [(i32, i32); 6] = [
    (134_050_000, 525_200_000),
    (134_150_000, 525_250_000),
    (134_200_000, 525_300_000),
    (134_150_000, 525_350_000),
    (134_050_000, 525_300_000),
    (134_050_000, 525_200_000),
];
const BERLIN_LEGS: [u32; 5] = [87_570, 65_078, 65_076, 87_558, 111_195];
const BERLIN_TURNS: [u32; 4] = [18_435, 90_000, 71_565, 63_435];
const BERLIN_PROFILE: [i32; 6] = [10_000, 10_500, 11_000, 10_800, 10_500, 10_000];
const EVERYWHERE: (i32, i32, i32, i32) = (i32::MIN, i32::MIN, i32::MAX, i32::MAX);

fn berlin() -> RouteLine {
    RouteLine::new(
        BERLIN.iter().map(|p| GeoPoint { lon: p.0, lat: p.1 }).collect(),
        BERLIN_LEGS.to_vec(),
        BERLIN_TURNS.to_vec(),
    )
    .expect("valid line")
}

fn shifted_berlin() -> RouteLine {
    RouteLine::new(
        BERLIN.iter().map(|p| GeoPoint { lon: p.0 - 134_050_000, lat: p.1 - 525_200_000 }).collect(),
        BERLIN_LEGS.to_vec(),
        BERLIN_TURNS.to_vec(),
    )
    .expect("valid line")
}

fn straight(from: (i32, i32), to: (i32, i32), length: u32) -> RouteLine {
    RouteLine::new(
        vec![GeoPoint { lon: from.0, lat: from.1 }, GeoPoint { lon: to.0, lat: to.1 }],
        vec![length],
        vec![],
    )
    .expect("valid line")
}

fn row(id: i64, distance: u32, geometry: RouteLine, profile: &[i32]) -> StoredRoute {
    StoredRoute {
        id,
        name: format!("route {}", id),
        distance,
        elevation_gain: 1_000,
        geometry,
        elevation_profile: profile.to_vec(),
    }
}

fn config(elevation: u32, shape: u32, turns: u32) -> MatchingConfig {
    MatchingConfig {
        elevation_importance: elevation,
        shape_importance: shape,
        turns_importance: turns,
        ..MatchingConfig::default()
    }
}

fn ids(results: &[MatchResult]) -> Vec<&str> {
    results.iter().map(|r| r.id.as_str()).collect()
}

#[test]
fn default_config_values() {
    let c = MatchingConfig::default();
    assert_eq!(c.distance_flexibility, 20_000_000);
    assert_eq!(c.elevation_flexibility, 20_000_000);
    assert_eq!(c.shape_importance, 0);
    assert_eq!(c.turns_importance, 0);
    assert_eq!(c.elevation_importance, 100);
    assert_eq!(c.granularity, 10_000);
    assert_eq!(c.min_match_percentage, 25_000_000);
}

#[test]
fn identical_route_matches_one_hundred_percent() {
    let engine = MatchingEngine::from_stored(vec![row(1, 416_477, berlin(), &BERLIN_PROFILE)]);
    for c in [config(100, 0, 0), config(1, 1, 1), config(0, 3, 1), config(0, 0, 5)] {
        let found = engine
            .find_matches_with_config(&berlin(), &BERLIN_PROFILE, EVERYWHERE, c)
            .expect("never fails");
        assert_eq!(found.len(), 1);
        assert_eq!(found[0].match_percentage, 100_000_000);
        assert_eq!(found[0].curve_score, 1_000_000);
        assert_eq!(found[0].id, "1");
        assert_eq!(found[0].geometry.points, berlin().points);
        assert_eq!(found[0].elevation_profile, BERLIN_PROFILE.to_vec());
    }
}

#[test]
fn identical_flat_route_takes_half_from_elevation() {
    let flat = [500, 500, 500, 500, 500, 500];
    let engine = MatchingEngine::from_stored(vec![row(1, 416_477, berlin(), &flat)]);
    let found =
        engine.find_matches_with_config(&berlin(), &flat, EVERYWHERE, config(100, 0, 0)).unwrap();
    assert_eq!(found[0].match_percentage, 50_000_000);
}

#[test]
fn candidate_outside_the_distance_window_is_excluded() {
    let input = straight((0, 0), (100, 0), 50_000);
    let far = row(1, 100_000, straight((0, 0), (100, 0), 100_000), &[0, 100]);
    let near = row(2, 55_000, straight((0, 0), (100, 0), 55_000), &[0, 100]);
    let edge_low = row(3, 45_000, straight((0, 0), (100, 0), 45_000), &[0, 100]);
    let below = row(4, 44_999, straight((0, 0), (100, 0), 44_999), &[0, 100]);
    let above = row(5, 55_001, straight((0, 0), (100, 0), 55_001), &[0, 100]);
    let engine = MatchingEngine::from_stored(vec![far, near, edge_low, below, above]);
    let c = MatchingConfig { distance_flexibility: 10_000_000, ..config(0, 1, 0) };
    let found = engine.find_matches_with_config(&input, &[0, 100], EVERYWHERE, c).unwrap();
    assert_eq!(ids(&found), vec!["2", "3"]);
}

#[test]
fn distance_window_bounds() {
    assert!(distance_in_window(45_000, 50_000, 10_000_000));
    assert!(distance_in_window(55_000, 50_000, 10_000_000));
    assert!(!distance_in_window(44_999, 50_000, 10_000_000));
    assert!(!distance_in_window(55_001, 50_000, 10_000_000));
    assert!(!distance_in_window(100_000, 50_000, 10_000_000));
    assert!(distance_in_window(0, 50_000, 100_000_000));
    assert!(distance_in_window(0, 50_000, 150_000_000));
    assert!(distance_in_window(7, 7, 0));
    assert!(!distance_in_window(8, 7, 0));
    assert!(distance_in_window(u32::MAX, u32::MAX, u32::MAX));
}

#[test]
fn candidate_outside_the_bounding_box_never_appears() {
    let engine = MatchingEngine::from_stored(vec![
        row(1, 416_477, berlin(), &BERLIN_PROFILE),
        row(2, 416_477, shifted_berlin(), &BERLIN_PROFILE),
    ]);
    let around_berlin = (134_000_000, 525_000_000, 135_000_000, 526_000_000);
    let found = engine
        .find_matches_with_config(&berlin(), &BERLIN_PROFILE, around_berlin, config(100, 0, 0))
        .unwrap();
    assert_eq!(ids(&found), vec!["1"]);
    let elsewhere = (-500, -500, 0, 0);
    let found = engine
        .find_matches_with_config(&berlin(), &BERLIN_PROFILE, elsewhere, config(100, 0, 0))
        .unwrap();
    assert_eq!(ids(&found), vec!["2"]);
    let nowhere = (-2_000, -2_000, -1_000, -1_000);
    let found = engine
        .find_matches_with_config(&berlin(), &BERLIN_PROFILE, nowhere, config(100, 0, 0))
        .unwrap();
    assert!(found.is_empty());
}

#[test]
fn threshold_is_inclusive() {
    let other = [9_500, 9_800, 10_000, 9_900, 9_700, 9_500];
    let engine = MatchingEngine::from_stored(vec![row(1, 416_477, berlin(), &other)]);
    let at = |min: u32| {
        let c = MatchingConfig { min_match_percentage: min, ..config(100, 0, 0) };
        engine.find_matches_with_config(&berlin(), &BERLIN_PROFILE, EVERYWHERE, c).unwrap()
    };
    let free = at(0);
    assert_eq!(free.len(), 1);
    let percentage = free[0].match_percentage;
    assert_eq!(percentage, free[0].curve_score * 100);
    assert_eq!(at(percentage).len(), 1);
    assert_eq!(at(percentage + 1).len(), 0);
    assert_eq!(at(percentage - 1).len(), 1);
}

#[test]
fn scores_of_the_sample_routes() {
    let engine = MatchingEngine::new();
    let c = MatchingConfig { distance_flexibility: 400_000_000, ..config(100, 0, 0) };
    let found =
        engine.find_matches_with_config(&berlin(), &BERLIN_PROFILE, EVERYWHERE, c).unwrap();
    assert_eq!(ids(&found), vec!["1", "3", "2"]);
    let scores: Vec<u32> = found.iter().map(|r| r.curve_score).collect();
    assert_eq!(scores, vec![1_000_000, 977_612, 975_324]);
    let percentages: Vec<u32> = found.iter().map(|r| r.match_percentage).collect();
    assert_eq!(percentages, vec![100_000_000, 97_761_200, 97_532_400]);
    let gains: Vec<u64> = found.iter().map(|r| r.gain_per_km).collect();
    assert_eq!(gains, vec![1_000, 625, 312]);
    assert_eq!(found[1].name, "Grunewald Forest Path");
    assert_eq!(found[1].distance, 1_200_000);
    assert_eq!(found[1].elevation_gain, 7_500);
}

#[test]
fn weighted_scores_of_the_sample_routes() {
    let engine = MatchingEngine::new();
    let c = MatchingConfig { distance_flexibility: 400_000_000, ..config(1, 1, 1) };
    let found =
        engine.find_matches_with_config(&berlin(), &BERLIN_PROFILE, EVERYWHERE, c).unwrap();
    let scores: Vec<(&str, u32)> = found.iter().map(|r| (r.id.as_str(), r.curve_score)).collect();
    assert_eq!(scores, vec![("1", 1_000_000), ("2", 709_021), ("3", 679_059)]);
    let c = MatchingConfig { distance_flexibility: 400_000_000, ..config(0, 3, 1) };
    let found =
        engine.find_matches_with_config(&berlin(), &BERLIN_PROFILE, EVERYWHERE, c).unwrap();
    let scores: Vec<(&str, u32)> = found.iter().map(|r| (r.id.as_str(), r.curve_score)).collect();
    assert_eq!(scores, vec![("1", 1_000_000), ("2", 363_805), ("3", 294_675)]);
}

#[test]
fn without_importances_every_candidate_scores_one_half() {
    let engine = MatchingEngine::new();
    let c = MatchingConfig { distance_flexibility: 400_000_000, ..config(0, 0, 0) };
    let found =
        engine.find_matches_with_config(&berlin(), &BERLIN_PROFILE, EVERYWHERE, c).unwrap();
    assert_eq!(ids(&found), vec!["1", "2", "3"]);
    assert!(found.iter().all(|r| r.curve_score == 500_000 && r.match_percentage == 50_000_000));
}

#[test]
fn candidate_without_profile_is_scored_without_elevation() {
    let engine = MatchingEngine::from_stored(vec![row(1, 416_477, berlin(), &[])]);
    let found = engine
        .find_matches_with_config(&berlin(), &BERLIN_PROFILE, EVERYWHERE, config(100, 0, 0))
        .unwrap();
    assert_eq!(found.len(), 1);
    assert_eq!(found[0].curve_score, 500_000);
    let found = engine
        .find_matches_with_config(&berlin(), &BERLIN_PROFILE, EVERYWHERE, config(100, 1, 0))
        .unwrap();
    assert_eq!(found[0].curve_score, 1_000_000);
}

#[test]
fn results_are_ranked_and_ties_keep_index_order() {
    let other = [9_500, 9_800, 10_000, 9_900, 9_700, 9_500];
    let engine = MatchingEngine::from_stored(vec![
        row(10, 416_477, berlin(), &other),
        row(11, 416_477, berlin(), &BERLIN_PROFILE),
        row(12, 416_477, berlin(), &other),
        row(13, 416_477, berlin(), &BERLIN_PROFILE),
        row(14, 416_477, berlin(), &other),
    ]);
    let found = engine
        .find_matches_with_config(&berlin(), &BERLIN_PROFILE, EVERYWHERE, config(100, 0, 0))
        .unwrap();
    assert_eq!(ids(&found), vec!["11", "13", "10", "12", "14"]);
    assert!(found.windows(2).all(|w| w[0].match_percentage >= w[1].match_percentage));
}

#[test]
fn find_matches_uses_the_default_weights() {
    let engine = MatchingEngine::new();
    let found = engine
        .find_matches(&berlin(), &BERLIN_PROFILE, EVERYWHERE, 400_000_000, 20_000_000)
        .unwrap();
    assert_eq!(ids(&found), vec!["1", "3", "2"]);
    let narrow =
        engine.find_matches(&berlin(), &BERLIN_PROFILE, EVERYWHERE, 10_000_000, 20_000_000).unwrap();
    assert!(narrow.is_empty());
}

#[test]
fn combine_scores_is_the_weighted_mean() {
    assert_eq!(combine_scores(0, 0), 500_000);
    assert_eq!(combine_scores(1_000_000 * 3 + 500_000, 4), 875_000);
    assert_eq!(combine_scores(10, 3), 3);
    assert_eq!(combine_scores(0, 7), 0);
}

#[test]
fn gain_per_km_values() {
    assert_eq!(gain_per_km(5_000, 500_000), 1_000);
    assert_eq!(gain_per_km(7_500, 1_200_000), 625);
    assert_eq!(gain_per_km(5_000, 0), 0);
    assert_eq!(gain_per_km(u32::MAX, 1), u32::MAX as u64 * 100_000);
}

#[test]
fn at_most_twenty_matches_are_shown() {
    let many: Vec<StoredRoute> =
        (0..25).map(|i| row(i, 416_477, berlin(), &BERLIN_PROFILE)).collect();
    let engine = MatchingEngine::from_stored(many);
    let found = engine
        .find_matches_with_config(&berlin(), &BERLIN_PROFILE, EVERYWHERE, config(100, 0, 0))
        .unwrap();
    assert_eq!(found.len(), 25);
    let shown = curvematch::api::match_routes::shown_matches(found);
    assert_eq!(shown.len(), 20);
    let expected: Vec<String> = (0..20).map(|i| i.to_string()).collect();
    assert_eq!(ids(&shown), expected);
    let few = curvematch::api::match_routes::shown_matches(
        engine
            .find_matches_with_config(
                &berlin(),
                &BERLIN_PROFILE,
                (0, 0, 1, 1),
                config(100, 0, 0),
            )
            .unwrap(),
    );
    assert!(few.is_empty());
}

#[test]
fn route_names() {
    assert_eq!(route_name(Some("Morning".to_string()), "ride.gpx"), "Morning");
    assert_eq!(route_name(None, "ride.gpx"), "ride");
    assert_eq!(route_name(None, "my.gpx.backup.gpx"), "my.backup");
    assert_eq!(route_name(None, "ride"), "ride");
    assert_eq!(route_name(None, ""), "");
    assert_eq!(route_name(None, ".gpx"), "");
    assert_eq!(route_name(None, "tür.gpx"), "tür");
    assert_eq!(remove_all("aaaa", "aa"), "");
    assert_eq!(remove_all("aaa", "aa"), "a");
    assert_eq!(remove_all("abc", ""), "abc");
    for (text, pattern) in [("a.gpx.gp.gpxx", ".gpx"), ("xxabxabab", "ab"), ("", "a")] {
        assert_eq!(remove_all(text, pattern), text.replace(pattern, ""));
    }
}

#[test]
fn weighted_score_folds_a_table() {
    assert_eq!(weighted_score(&vec![]), 500_000);
    assert_eq!(weighted_score(&vec![(0, 1_000_000), (0, 0)]), 500_000);
    assert_eq!(weighted_score(&vec![(100, 975_324)]), 975_324);
    assert_eq!(weighted_score(&vec![(1, 1_000_000), (1, 500_000), (2, 0)]), 375_000);
    assert_eq!(weighted_score(&vec![(3, 1_000_000), (1, 500_000)]), 875_000);
    assert_eq!(weighted_score(&vec![(1, 1), (2, 0)]), 0);
    assert_eq!(weighted_score(&vec![(u32::MAX, 1_000_000); 1_024]), 1_000_000);
}
