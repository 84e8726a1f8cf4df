use curvematch::error::AppError;
use curvematch::matching::geometry::GeoPoint;
use curvematch::utils::decimal::{decimal_string, push_decimal};
use curvematch::utils::elevation::{calculate_elevation_stats, ElevationStats};
use curvematch::utils::gpx_minifier::{count_occurrences, estimate_reduction, minify_gpx};
use curvematch::utils::gpx_parser::{
    parse_gpx, GpxDocument, GpxPoint, GpxSegment, GpxTrack, ParsedGpx,
};

fn decode(gpx_content: &str) -> GpxDocument {
    let read: gpx::Gpx = gpx::read(std::io::Cursor::new(gpx_content)).expect("readable GPX");
    GpxDocument {
        creator: read.creator.clone(),
        tracks: read
            .tracks
            .iter()
            .map(|t| GpxTrack {
                name: t.name.clone(),
                segments: t
                    .segments
                    .iter()
                    .map(|s| GpxSegment {
                        points: s
                            .points
                            .iter()
                            .map(|p| GpxPoint {
                                position: GeoPoint {
                                    lon: (p.point().x() * 1e7).round() as i32,
                                    lat: (p.point().y() * 1e7).round() as i32,
                                },
                                elevation: p.elevation.map(|e| (e * 100.0).round() as i32),
                            })
                            .collect(),
                    })
                    .collect(),
            })
            .collect(),
    }
}

fn point(lon: i32, lat: i32, elevation: Option<i32>) -> GpxPoint {
    GpxPoint { position: GeoPoint { lon, lat }, elevation }
}

fn track(name: Option<&str>, segments: Vec<Vec<GpxPoint>>) -> GpxTrack {
    GpxTrack {
        name: name.map(|n| n.to_string()),
        segments: segments.into_iter().map(|points| GpxSegment { points }).collect(),
    }
}

fn file_error(parsed: Result<ParsedGpx, AppError>) -> String {
    match parsed {
        Err(AppError::FileError(msg)) => msg,
        _ => panic!("expected a file error"),
    }
}

#[test]
fn test_parse_valid_gpx() {
    let gpx_content = r#"<?xml version="1.0" encoding="UTF-8"?>
                <gpx version="1.1" creator="Test">
                    <trk>
                        <name>Test Track</name>
                        <trkseg>
                            <trkpt lat="52.5200" lon="13.4050">
                                <ele>100.0</ele>
                            </trkpt>
                            <trkpt lat="52.5210" lon="13.4060">
                                <ele>105.0</ele>
                            </trkpt>
                        </trkseg>
                    </trk>
                </gpx>"#
        .to_string();

    let result = parse_gpx(&decode(&gpx_content));
    assert!(result.is_ok());

    let parsed = result.unwrap();
    assert_eq!(parsed.name, Some("Test Track".to_string()));
    assert_eq!(parsed.geometry.len(), 2);
}

#[test]
fn parse_takes_the_first_segment_of_the_first_track() {
    let doc = GpxDocument {
        creator: None,
        tracks: vec![
            track(
                Some("Morning"),
                vec![
                    vec![point(1, 2, Some(100)), point(3, 4, None), point(5, 6, Some(300))],
                    vec![point(9, 9, Some(900)), point(8, 8, Some(800))],
                ],
            ),
            track(Some("Evening"), vec![vec![point(7, 7, None), point(6, 6, None)]]),
        ],
    };
    let parsed = parse_gpx(&doc).unwrap();
    assert_eq!(parsed.name.as_deref(), Some("Morning"));
    assert_eq!(
        parsed.geometry,
        vec![GeoPoint { lon: 1, lat: 2 }, GeoPoint { lon: 3, lat: 4 }, GeoPoint { lon: 5, lat: 6 }]
    );
    assert_eq!(parsed.elevation_profile, vec![100, 300]);
}

#[test]
fn parse_keeps_a_missing_name() {
    let doc = GpxDocument {
        creator: None,
        tracks: vec![track(None, vec![vec![point(1, 2, None), point(3, 4, None)]])],
    };
    let parsed = parse_gpx(&doc).unwrap();
    assert_eq!(parsed.name, None);
    assert!(parsed.elevation_profile.is_empty());
}

#[test]
fn parse_rejects_documents_without_a_route() {
    let empty = GpxDocument { creator: None, tracks: vec![] };
    assert_eq!(file_error(parse_gpx(&empty)), "No tracks found in GPX");
    let no_segment = GpxDocument { creator: None, tracks: vec![track(Some("t"), vec![])] };
    assert_eq!(file_error(parse_gpx(&no_segment)), "No segments found in track");
    let one_point = GpxDocument {
        creator: None,
        tracks: vec![track(Some("t"), vec![vec![point(1, 2, Some(3))]])],
    };
    assert_eq!(file_error(parse_gpx(&one_point)), "Track must have at least 2 points");
    let no_point = GpxDocument { creator: None, tracks: vec![track(Some("t"), vec![vec![]])] };
    assert_eq!(file_error(parse_gpx(&no_point)), "Track must have at least 2 points");
}

#[test]
fn minify_keeps_names_points_and_order() {
    let doc = GpxDocument {
        creator: Some("Watch".to_string()),
        tracks: vec![
            track(Some("Morning"), vec![vec![point(1, 2, Some(100)), point(3, 4, None)]]),
            track(None, vec![vec![], vec![point(5, 6, Some(7))], vec![]]),
            track(Some("Nothing"), vec![vec![], vec![]]),
            track(None, vec![]),
            track(None, vec![vec![point(8, 9, None)], vec![point(1, 1, None)]]),
        ],
    };
    let minimal = minify_gpx(&doc);
    assert_eq!(minimal.creator.as_deref(), Some("CurveMatch"));
    let names: Vec<Option<&str>> = minimal.tracks.iter().map(|t| t.name.as_deref()).collect();
    assert_eq!(names, vec![Some("Morning"), Some("Track 2"), Some("Track 5")]);
    let sizes: Vec<Vec<usize>> = minimal
        .tracks
        .iter()
        .map(|t| t.segments.iter().map(|s| s.points.len()).collect())
        .collect();
    assert_eq!(sizes, vec![vec![2], vec![1], vec![1, 1]]);
    assert_eq!(minimal.tracks[0].segments[0].points, doc.tracks[0].segments[0].points);
    assert_eq!(minimal.tracks[1].segments[0].points, vec![point(5, 6, Some(7))]);
}

#[test]
fn minify_of_an_empty_document_is_empty() {
    let minimal = minify_gpx(&GpxDocument { creator: None, tracks: vec![] });
    assert!(minimal.tracks.is_empty());
    assert_eq!(minimal.creator.as_deref(), Some("CurveMatch"));
}

#[test]
fn minified_document_keeps_its_route() {
    let doc = GpxDocument {
        creator: None,
        tracks: vec![track(None, vec![vec![], vec![point(1, 2, Some(3)), point(4, 5, Some(6))]])],
    };
    assert!(parse_gpx(&doc).is_err());
    let parsed = parse_gpx(&minify_gpx(&doc)).unwrap();
    assert_eq!(parsed.name.as_deref(), Some("Track 1"));
    assert_eq!(parsed.elevation_profile, vec![3, 6]);
}

#[test]
fn decimal_text_of_integers() {
    assert_eq!(decimal_string(0), "0");
    assert_eq!(decimal_string(7), "7");
    assert_eq!(decimal_string(10), "10");
    assert_eq!(decimal_string(-1), "-1");
    assert_eq!(decimal_string(1_234_567_890), "1234567890");
    assert_eq!(decimal_string(i64::MAX), i64::MAX.to_string());
    assert_eq!(decimal_string(i64::MIN), i64::MIN.to_string());
    let mut text = String::from("n=");
    push_decimal(&mut text, u64::MAX);
    assert_eq!(text, format!("n={}", u64::MAX));
}

#[test]
fn elevation_stats_values() {
    assert_eq!(
        calculate_elevation_stats(&[10_000, 10_500, 11_000, 10_800, 10_500, 10_000]),
        ElevationStats {
            total_gain: 1_000,
            total_loss: 1_000,
            max_elevation: 11_000,
            min_elevation: 10_000
        }
    );
    assert_eq!(calculate_elevation_stats(&[]), ElevationStats::default());
    assert_eq!(
        calculate_elevation_stats(&[-50]),
        ElevationStats { total_gain: 0, total_loss: 0, max_elevation: -50, min_elevation: -50 }
    );
    assert_eq!(
        calculate_elevation_stats(&[300, 100, 100, 250]),
        ElevationStats { total_gain: 150, total_loss: 200, max_elevation: 300, min_elevation: 100 }
    );
}

#[test]
fn reduction_estimate_counts_tags() {
    let text = "<trkpt><time>t</time><extensions><hr>1</hr><gpxtpx:hr>2</gpxtpx:hr>\
                <cad>3</cad><cadence>4</cadence><speed>5</speed></extensions></trkpt>";
    let e = estimate_reduction(text);
    assert_eq!(e.timestamps, text.matches("<time>").count());
    assert_eq!(e.timestamps, 1);
    assert_eq!(e.extensions, 1);
    assert_eq!(e.heart_rates, text.matches("<hr>").count() + text.matches("hr>").count());
    assert_eq!(e.heart_rates, 5);
    assert_eq!(e.cadences, text.matches("<cad>").count() + text.matches("cadence>").count());
    assert_eq!(e.cadences, 3);
    assert_eq!(e.speeds, 1);
    assert_eq!(e.extra_bytes, 11 * 50);
    let nothing = estimate_reduction("");
    assert_eq!(nothing.extra_bytes, 0);
    assert_eq!(count_occurrences(b"aaaa", b"aa"), 2);
    assert_eq!(count_occurrences(b"aaa", b"aa"), 1);
    assert_eq!(count_occurrences(b"abc", b""), 0);
    assert_eq!(count_occurrences(b"ab", b"abc"), 0);
    assert_eq!(count_occurrences(b"abcabc", b"abc"), 2);
}
