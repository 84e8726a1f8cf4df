//! Bodies of requests.

use vstd::prelude::*;
use crate::matching::geometry::BoundingBox;
use crate::matching::spatial_index::{box_from_corners, corners_box};

verus! {

/// A request to change a saved route; only the name can change.
#[derive(Debug)]
pub struct UpdateRouteRequest {
    pub name: Option<String>,
}

impl UpdateRouteRequest {
    /// The new name, when the request asks for one.
    pub fn new_name(&self) -> (name: Option<&String>)
        ensures
            name.is_some() == self.name.is_some(),
            name matches Some(n) ==> self.name == Some(*n),
    {
        match &self.name {
            Some(n) => Some(n),
            None => None,
        }
    }
}

/// The rectangle a caller searches in, by its sides in units of 1e-7
/// degrees.
#[derive(Clone, Copy, Debug, PartialEq, Eq, Structural)]
pub struct SearchArea {
    pub west: i32,
    pub south: i32,
    pub east: i32,
    pub north: i32,
}

impl SearchArea {
    /// The corners of the area as the engine takes them: west, south, east,
    /// north.
    pub fn bounds(&self) -> (corners: (i32, i32, i32, i32))
        ensures
            corners == (self.west, self.south, self.east, self.north),
    {
        (self.west, self.south, self.east, self.north)
    }

    /// The rectangle of the area, with its sides in order.
    pub fn bounding_box(&self) -> (area: BoundingBox)
        ensures
            area == box_from_corners((self.west, self.south, self.east, self.north)),
    {
        corners_box(self.bounds())
    }
}

} // verus!
