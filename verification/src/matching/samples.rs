//! The built-in sample routes, used when the store holds no usable route.
//!
//! Three loops in Berlin with their measured legs and turns.

use vstd::prelude::*;
use crate::matching::geometry::{
    lemma_total_length_push, tight_box, total_length, GeoPoint, RouteLine,
};
use crate::matching::spatial_index::{RouteEntry, RouteEntryView};

verus! {

/// Points of a sample route, from (longitude, latitude) pairs.
pub open spec fn points_of(coordinates: Seq<(i32, i32)>) -> Seq<GeoPoint> {
    coordinates.map_values(|c: (i32, i32)| GeoPoint { lon: c.0, lat: c.1 })
}

/// Points of a sample route, from (longitude, latitude) pairs.
fn sample_points(coordinates: &Vec<(i32, i32)>) -> (points: Vec<GeoPoint>)
    ensures
        points@ == points_of(coordinates@),
{
    let mut points: Vec<GeoPoint> = Vec::with_capacity(coordinates.len());
    let mut i: usize = 0;
    while i < coordinates.len()
        invariant
            i <= coordinates@.len(),
            points@ == points_of(coordinates@.take(i as int)),
        decreases coordinates@.len() - i,
    {
        let c = coordinates[i];
        points.push(GeoPoint { lon: c.0, lat: c.1 });
        proof {
            assert(points_of(coordinates@.take(i + 1)) =~= points_of(
                coordinates@.take(i as int),
            ).push(GeoPoint { lon: c.0, lat: c.1 }));
        }
        i = i + 1;
    }
    proof {
        assert(coordinates@.take(i as int) =~= coordinates@);
    }
    points
}

/// Sample route "Berlin Loop": its coordinates, legs, turns and elevations.
pub open spec fn berlin_loop_parts() -> (Seq<(i32, i32)>, Seq<u32>, Seq<u32>, Seq<i32>) {
    (
        seq![
            (134_050_000i32, 525_200_000i32),
            (134_150_000, 525_250_000),
            (134_200_000, 525_300_000),
            (134_150_000, 525_350_000),
            (134_050_000, 525_300_000),
            (134_050_000, 525_200_000),
        ],
        seq![87_570u32, 65_078, 65_076, 87_558, 111_195],
        seq![18_435u32, 90_000, 71_565, 63_435],
        seq![10_000i32, 10_500, 11_000, 10_800, 10_500, 10_000],
    )
}

/// Sample route "Berlin Loop".
pub open spec fn berlin_loop_view() -> RouteEntryView {
    let parts = berlin_loop_parts();
    RouteEntryView {
        id: "1"@,
        name: "Berlin Loop"@,
        distance: 500_000,
        elevation_gain: 5_000,
        points: points_of(parts.0),
        legs: parts.1,
        turns: parts.2,
        elevation_profile: parts.3,
        bbox: tight_box(points_of(parts.0)),
    }
}

/// Builds sample route "Berlin Loop".
pub fn berlin_loop() -> (entry: RouteEntry)
    ensures
        entry@ == berlin_loop_view(),
        entry@.wf(),
{
    let coordinates: Vec<(i32, i32)> = vec![
        (134_050_000, 525_200_000),
        (134_150_000, 525_250_000),
        (134_200_000, 525_300_000),
        (134_150_000, 525_350_000),
        (134_050_000, 525_300_000),
        (134_050_000, 525_200_000),
    ];
    let points = sample_points(&coordinates);
    let legs: Vec<u32> = vec![87_570, 65_078, 65_076, 87_558, 111_195];
    let turns: Vec<u32> = vec![18_435, 90_000, 71_565, 63_435];
    let elevation_profile: Vec<i32> = vec![10_000, 10_500, 11_000, 10_800, 10_500, 10_000];
    proof {
        let parts = berlin_loop_parts();
        assert(coordinates@ =~= parts.0);
        assert(legs@ =~= parts.1);
        assert(turns@ =~= parts.2);
        assert(elevation_profile@ =~= parts.3);
        let l0 = Seq::<u32>::empty();
        let l1 = l0.push(87_570);
        lemma_total_length_push(l0, 87_570);
        let l2 = l1.push(65_078);
        lemma_total_length_push(l1, 65_078);
        let l3 = l2.push(65_076);
        lemma_total_length_push(l2, 65_076);
        let l4 = l3.push(87_558);
        lemma_total_length_push(l3, 87_558);
        let l5 = l4.push(111_195);
        lemma_total_length_push(l4, 111_195);
        assert(legs@ =~= l5);
        assert(total_length(legs@) == 416_477);
    }
    let geometry = RouteLine { points, legs, turns };
    let made = RouteEntry::new(
        "1".to_owned(),
        "Berlin Loop".to_owned(),
        500_000,
        5_000,
        geometry,
        elevation_profile,
    );
    made.unwrap()
}

/// Sample route "Tiergarten Trail": its coordinates, legs, turns and elevations.
pub open spec fn tiergarten_trail_parts() -> (Seq<(i32, i32)>, Seq<u32>, Seq<u32>, Seq<i32>) {
    (
        seq![
            (133_500_000i32, 525_100_000i32),
            (133_600_000, 525_150_000),
            (133_700_000, 525_200_000),
            (133_650_000, 525_250_000),
            (133_550_000, 525_200_000),
            (133_500_000, 525_100_000),
        ],
        seq![87_582u32, 87_576, 65_080, 87_570, 116_228],
        seq![0u32, 108_435, 71_565, 36_870],
        seq![9_500i32, 9_800, 10_000, 9_900, 9_700, 9_500],
    )
}

/// Sample route "Tiergarten Trail".
pub open spec fn tiergarten_trail_view() -> RouteEntryView {
    let parts = tiergarten_trail_parts();
    RouteEntryView {
        id: "2"@,
        name: "Tiergarten Trail"@,
        distance: 800_000,
        elevation_gain: 2_500,
        points: points_of(parts.0),
        legs: parts.1,
        turns: parts.2,
        elevation_profile: parts.3,
        bbox: tight_box(points_of(parts.0)),
    }
}

/// Builds sample route "Tiergarten Trail".
pub fn tiergarten_trail() -> (entry: RouteEntry)
    ensures
        entry@ == tiergarten_trail_view(),
        entry@.wf(),
{
    let coordinates: Vec<(i32, i32)> = vec![
        (133_500_000, 525_100_000),
        (133_600_000, 525_150_000),
        (133_700_000, 525_200_000),
        (133_650_000, 525_250_000),
        (133_550_000, 525_200_000),
        (133_500_000, 525_100_000),
    ];
    let points = sample_points(&coordinates);
    let legs: Vec<u32> = vec![87_582, 87_576, 65_080, 87_570, 116_228];
    let turns: Vec<u32> = vec![0, 108_435, 71_565, 36_870];
    let elevation_profile: Vec<i32> = vec![9_500, 9_800, 10_000, 9_900, 9_700, 9_500];
    proof {
        let parts = tiergarten_trail_parts();
        assert(coordinates@ =~= parts.0);
        assert(legs@ =~= parts.1);
        assert(turns@ =~= parts.2);
        assert(elevation_profile@ =~= parts.3);
        let l0 = Seq::<u32>::empty();
        let l1 = l0.push(87_582);
        lemma_total_length_push(l0, 87_582);
        let l2 = l1.push(87_576);
        lemma_total_length_push(l1, 87_576);
        let l3 = l2.push(65_080);
        lemma_total_length_push(l2, 65_080);
        let l4 = l3.push(87_570);
        lemma_total_length_push(l3, 87_570);
        let l5 = l4.push(116_228);
        lemma_total_length_push(l4, 116_228);
        assert(legs@ =~= l5);
        assert(total_length(legs@) == 444_036);
    }
    let geometry = RouteLine { points, legs, turns };
    let made = RouteEntry::new(
        "2".to_owned(),
        "Tiergarten Trail".to_owned(),
        800_000,
        2_500,
        geometry,
        elevation_profile,
    );
    made.unwrap()
}

/// Sample route "Grunewald Forest Path": its coordinates, legs, turns and elevations.
pub open spec fn grunewald_path_parts() -> (Seq<(i32, i32)>, Seq<u32>, Seq<u32>, Seq<i32>) {
    (
        seq![
            (132_500_000i32, 524_900_000i32),
            (132_600_000, 524_950_000),
            (132_700_000, 525_000_000),
            (132_800_000, 525_050_000),
            (132_750_000, 525_100_000),
            (132_650_000, 525_050_000),
            (132_550_000, 525_000_000),
            (132_500_000, 524_900_000),
        ],
        seq![87_606u32, 87_600, 87_594, 65_086, 87_588, 87_594, 116_233],
        seq![0u32, 0, 108_435, 71_565, 0, 36_870],
        seq![11_000i32, 11_500, 12_000, 12_500, 12_200, 11_800, 11_400, 11_000],
    )
}

/// Sample route "Grunewald Forest Path".
pub open spec fn grunewald_path_view() -> RouteEntryView {
    let parts = grunewald_path_parts();
    RouteEntryView {
        id: "3"@,
        name: "Grunewald Forest Path"@,
        distance: 1_200_000,
        elevation_gain: 7_500,
        points: points_of(parts.0),
        legs: parts.1,
        turns: parts.2,
        elevation_profile: parts.3,
        bbox: tight_box(points_of(parts.0)),
    }
}

/// Builds sample route "Grunewald Forest Path".
pub fn grunewald_path() -> (entry: RouteEntry)
    ensures
        entry@ == grunewald_path_view(),
        entry@.wf(),
{
    let coordinates: Vec<(i32, i32)> = vec![
        (132_500_000, 524_900_000),
        (132_600_000, 524_950_000),
        (132_700_000, 525_000_000),
        (132_800_000, 525_050_000),
        (132_750_000, 525_100_000),
        (132_650_000, 525_050_000),
        (132_550_000, 525_000_000),
        (132_500_000, 524_900_000),
    ];
    let points = sample_points(&coordinates);
    let legs: Vec<u32> = vec![87_606, 87_600, 87_594, 65_086, 87_588, 87_594, 116_233];
    let turns: Vec<u32> = vec![0, 0, 108_435, 71_565, 0, 36_870];
    let elevation_profile: Vec<i32> = vec![11_000, 11_500, 12_000, 12_500, 12_200, 11_800, 11_400, 11_000];
    proof {
        let parts = grunewald_path_parts();
        assert(coordinates@ =~= parts.0);
        assert(legs@ =~= parts.1);
        assert(turns@ =~= parts.2);
        assert(elevation_profile@ =~= parts.3);
        let l0 = Seq::<u32>::empty();
        let l1 = l0.push(87_606);
        lemma_total_length_push(l0, 87_606);
        let l2 = l1.push(87_600);
        lemma_total_length_push(l1, 87_600);
        let l3 = l2.push(87_594);
        lemma_total_length_push(l2, 87_594);
        let l4 = l3.push(65_086);
        lemma_total_length_push(l3, 65_086);
        let l5 = l4.push(87_588);
        lemma_total_length_push(l4, 87_588);
        let l6 = l5.push(87_594);
        lemma_total_length_push(l5, 87_594);
        let l7 = l6.push(116_233);
        lemma_total_length_push(l6, 116_233);
        assert(legs@ =~= l7);
        assert(total_length(legs@) == 619_301);
    }
    let geometry = RouteLine { points, legs, turns };
    let made = RouteEntry::new(
        "3".to_owned(),
        "Grunewald Forest Path".to_owned(),
        1_200_000,
        7_500,
        geometry,
        elevation_profile,
    );
    made.unwrap()
}

/// The built-in sample routes, used when no stored route is available.
pub open spec fn sample_route_views() -> Seq<RouteEntryView> {
    seq![berlin_loop_view(), tiergarten_trail_view(), grunewald_path_view()]
}

} // verus!
