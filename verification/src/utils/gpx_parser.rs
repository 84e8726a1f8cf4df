//! Reading a route out of a decoded GPX document.

use vstd::prelude::*;
use crate::error::AppError;
use crate::matching::geometry::GeoPoint;

verus! {

/// A track point: a position and, when recorded, an elevation in centimetres.
#[derive(Clone, Copy, Debug, PartialEq, Eq, Structural)]
pub struct GpxPoint {
    pub position: GeoPoint,
    pub elevation: Option<i32>,
}

/// A track segment: consecutive points.
#[derive(Debug)]
pub struct GpxSegment {
    pub points: Vec<GpxPoint>,
}

/// A track: a name and segments.
#[derive(Debug)]
pub struct GpxTrack {
    pub name: Option<String>,
    pub segments: Vec<GpxSegment>,
}

/// The tracks of a decoded GPX document, and who created it.
#[derive(Debug)]
pub struct GpxDocument {
    pub creator: Option<String>,
    pub tracks: Vec<GpxTrack>,
}

/// The route read from a document: the name of its first track and the
/// positions and elevations of that track's first segment.
#[derive(Debug)]
pub struct ParsedGpx {
    pub name: Option<String>,
    pub geometry: Vec<GeoPoint>,
    pub elevation_profile: Vec<i32>,
}

/// The positions of a list of points.
pub open spec fn positions_of(points: Seq<GpxPoint>) -> Seq<GeoPoint> {
    points.map_values(|p: GpxPoint| p.position)
}

/// The elevations of the points that have one, in their order.
pub open spec fn elevations_of(points: Seq<GpxPoint>) -> Seq<i32>
    decreases points.len(),
{
    if points.len() == 0 {
        Seq::empty()
    } else {
        match points.last().elevation {
            Some(e) => elevations_of(points.drop_last()).push(e),
            None => elevations_of(points.drop_last()),
        }
    }
}

/// The file error with `message`.
pub open spec fn is_file_error(error: AppError, message: Seq<char>) -> bool {
    error matches AppError::FileError(msg) && msg@ == message
}

/// A document holds a route: a first track with a first segment of two
/// points or more.
pub open spec fn has_route(doc: GpxDocument) -> bool {
    &&& doc.tracks@.len() > 0
    &&& doc.tracks@[0].segments@.len() > 0
    &&& doc.tracks@[0].segments@[0].points@.len() >= 2
}

/// Reads the route of a document: its first track and that track's first
/// segment.
///
/// Fails with a file error when the document has no track, when the first
/// track has no segment, and when the first segment has fewer than two
/// points.
pub fn parse_gpx(doc: &GpxDocument) -> (parsed: Result<ParsedGpx, AppError>)
    ensures
        parsed.is_ok() == has_route(*doc),
        parsed matches Ok(p) ==> {
            &&& p.name == doc.tracks@[0].name
            &&& p.geometry@ == positions_of(doc.tracks@[0].segments@[0].points@)
            &&& p.elevation_profile@ == elevations_of(doc.tracks@[0].segments@[0].points@)
        },
        parsed matches Err(e) ==> {
            &&& doc.tracks@.len() == 0 ==> is_file_error(e, "No tracks found in GPX"@)
            &&& doc.tracks@.len() > 0 && doc.tracks@[0].segments@.len() == 0 ==> is_file_error(
                e,
                "No segments found in track"@,
            )
            &&& doc.tracks@.len() > 0 && doc.tracks@[0].segments@.len() > 0 ==> is_file_error(
                e,
                "Track must have at least 2 points"@,
            )
        },
{
    if doc.tracks.len() == 0 {
        return Err(AppError::FileError("No tracks found in GPX".to_owned()));
    }
    let track = &doc.tracks[0];
    if track.segments.len() == 0 {
        return Err(AppError::FileError("No segments found in track".to_owned()));
    }
    let segment = &track.segments[0];
    if segment.points.len() < 2 {
        return Err(AppError::FileError("Track must have at least 2 points".to_owned()));
    }
    let mut geometry: Vec<GeoPoint> = Vec::with_capacity(segment.points.len());
    let mut elevation_profile: Vec<i32> = Vec::new();
    let mut i: usize = 0;
    proof {
        assert(segment.points@.take(0) =~= Seq::<GpxPoint>::empty());
        assert(geometry@ =~= positions_of(segment.points@.take(0)));
    }
    while i < segment.points.len()
        invariant
            i <= segment.points@.len(),
            geometry@ == positions_of(segment.points@.take(i as int)),
            elevation_profile@ == elevations_of(segment.points@.take(i as int)),
        decreases segment.points@.len() - i,
    {
        let point = segment.points[i];
        proof {
            let longer = segment.points@.take(i + 1);
            assert(longer.drop_last() =~= segment.points@.take(i as int));
            assert(longer.last() == point);
            assert(positions_of(longer) =~= positions_of(segment.points@.take(i as int)).push(
                point.position,
            ));
        }
        geometry.push(point.position);
        match point.elevation {
            Some(e) => elevation_profile.push(e),
            None => {},
        }
        i = i + 1;
    }
    proof {
        assert(segment.points@.take(i as int) =~= segment.points@);
    }
    let name = match &track.name {
        Some(n) => Some(n.clone()),
        None => None,
    };
    Ok(ParsedGpx { name, geometry, elevation_profile })
}

} // verus!
