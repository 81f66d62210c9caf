//! Geographic coordinates on an integer grid, map points, bounding boxes and
//! distances.
//!
//! A coordinate is a signed 32-bit raw value: the full latitude (or
//! longitude) range is spread evenly over `-i32::MAX ..= i32::MAX`, and
//! `i32::MIN` is reserved to mean "no valid coordinate".

use vstd::prelude::*;

verus! {

/// Raw value of a coordinate on the integer grid.
pub type RawCoord = i32;

/// Raw value that marks a coordinate as invalid.
pub const RAW_COORD_INVALID: i32 = i32::MIN;

/// Largest raw value of a valid coordinate.
pub const RAW_COORD_MAX: i32 = i32::MAX;

/// Smallest raw value of a valid coordinate.
pub const RAW_COORD_MIN: i32 = -i32::MAX;

/// A latitude on the integer grid.
#[derive(Clone, Copy, Debug, PartialEq, Eq, Structural)]
pub struct LatCoord {
    pub raw: i32,
}

impl LatCoord {
    /// The northernmost latitude.
    pub fn max() -> (c: Self)
        ensures
            c.raw == RAW_COORD_MAX,
            c.is_valid(),
    {
        LatCoord { raw: RAW_COORD_MAX }
    }

    /// The southernmost latitude.
    pub fn min() -> (c: Self)
        ensures
            c.raw == RAW_COORD_MIN,
            c.is_valid(),
    {
        LatCoord { raw: RAW_COORD_MIN }
    }

    pub fn from_raw(raw: i32) -> (c: Self)
        ensures
            c.raw == raw,
    {
        LatCoord { raw }
    }

    pub fn to_raw(self) -> (raw: i32)
        ensures
            raw == self.raw,
    {
        self.raw
    }

    pub open spec fn spec_is_valid(self) -> bool {
        self.raw != RAW_COORD_INVALID
    }

    #[verifier::when_used_as_spec(spec_is_valid)]
    pub fn is_valid(self) -> (b: bool)
        ensures
            b == self.is_valid(),
    {
        self.raw != RAW_COORD_INVALID
    }
}

impl Default for LatCoord {
    /// The invalid latitude.
    fn default() -> (c: Self)
        ensures
            c.raw == RAW_COORD_INVALID,
            !c.is_valid(),
    {
        LatCoord { raw: RAW_COORD_INVALID }
    }
}

/// A longitude on the integer grid.
#[derive(Clone, Copy, Debug, PartialEq, Eq, Structural)]
pub struct LngCoord {
    pub raw: i32,
}

impl LngCoord {
    /// The easternmost longitude.
    pub fn max() -> (c: Self)
        ensures
            c.raw == RAW_COORD_MAX,
            c.is_valid(),
    {
        LngCoord { raw: RAW_COORD_MAX }
    }

    /// The westernmost longitude.
    pub fn min() -> (c: Self)
        ensures
            c.raw == RAW_COORD_MIN,
            c.is_valid(),
    {
        LngCoord { raw: RAW_COORD_MIN }
    }

    pub fn from_raw(raw: i32) -> (c: Self)
        ensures
            c.raw == raw,
    {
        LngCoord { raw }
    }

    pub fn to_raw(self) -> (raw: i32)
        ensures
            raw == self.raw,
    {
        self.raw
    }

    pub open spec fn spec_is_valid(self) -> bool {
        self.raw != RAW_COORD_INVALID
    }

    #[verifier::when_used_as_spec(spec_is_valid)]
    pub fn is_valid(self) -> (b: bool)
        ensures
            b == self.is_valid(),
    {
        self.raw != RAW_COORD_INVALID
    }
}

impl Default for LngCoord {
    /// The invalid longitude.
    fn default() -> (c: Self)
        ensures
            c.raw == RAW_COORD_INVALID,
            !c.is_valid(),
    {
        LngCoord { raw: RAW_COORD_INVALID }
    }
}

/// A point on the map.
#[derive(Clone, Copy, Debug, PartialEq, Eq, Structural)]
pub struct MapPoint {
    pub lat: LatCoord,
    pub lng: LngCoord,
}

impl MapPoint {
    pub fn new(lat: LatCoord, lng: LngCoord) -> (p: Self)
        ensures
            p.lat == lat,
            p.lng == lng,
    {
        MapPoint { lat, lng }
    }

    pub fn lat(&self) -> (lat: LatCoord)
        ensures
            lat == self.lat,
    {
        self.lat
    }

    pub fn lng(&self) -> (lng: LngCoord)
        ensures
            lng == self.lng,
    {
        self.lng
    }

    /// A point is valid when both of its coordinates are.
    pub open spec fn spec_is_valid(&self) -> bool {
        self.lat.is_valid() && self.lng.is_valid()
    }

    #[verifier::when_used_as_spec(spec_is_valid)]
    pub fn is_valid(&self) -> (b: bool)
        ensures
            b == self.is_valid(),
    {
        self.lat.is_valid() && self.lng.is_valid()
    }
}

impl Default for MapPoint {
    /// The point without valid coordinates.
    fn default() -> (p: Self)
        ensures
            !p.is_valid(),
            p.lat.raw == RAW_COORD_INVALID,
            p.lng.raw == RAW_COORD_INVALID,
    {
        MapPoint { lat: LatCoord { raw: RAW_COORD_INVALID }, lng: LngCoord { raw: RAW_COORD_INVALID } }
    }
}

/// A rectangle on the map, given by its south-west and north-east corners.
///
/// When the south-west longitude is greater than the north-east longitude
/// the box wraps around the antimeridian.
#[derive(Clone, Copy, Debug, PartialEq, Eq, Structural)]
pub struct MapBbox {
    pub sw: MapPoint,
    pub ne: MapPoint,
}

impl MapBbox {
    pub fn new(sw: MapPoint, ne: MapPoint) -> (b: Self)
        ensures
            b.sw == sw,
            b.ne == ne,
    {
        MapBbox { sw, ne }
    }

    pub fn south_west(&self) -> (p: MapPoint)
        ensures
            p == self.sw,
    {
        self.sw
    }

    pub fn north_east(&self) -> (p: MapPoint)
        ensures
            p == self.ne,
    {
        self.ne
    }

    /// Both corners are valid and the south-west corner is not north of the
    /// north-east corner.
    pub open spec fn spec_is_valid(&self) -> bool {
        self.sw.is_valid() && self.ne.is_valid() && self.sw.lat.raw <= self.ne.lat.raw
    }

    #[verifier::when_used_as_spec(spec_is_valid)]
    pub fn is_valid(&self) -> (b: bool)
        ensures
            b == self.is_valid(),
    {
        self.sw.is_valid() && self.ne.is_valid() && self.sw.lat.raw <= self.ne.lat.raw
    }

    /// The box has no height or no width.
    pub open spec fn spec_is_empty(&self) -> bool {
        self.sw.lat.raw >= self.ne.lat.raw || self.sw.lng.raw == self.ne.lng.raw
    }

    #[verifier::when_used_as_spec(spec_is_empty)]
    pub fn is_empty(&self) -> (b: bool)
        ensures
            b == self.is_empty(),
    {
        self.sw.lat.raw >= self.ne.lat.raw || self.sw.lng.raw == self.ne.lng.raw
    }

    /// The box wraps around the antimeridian.
    pub open spec fn spec_wraps(&self) -> bool {
        self.sw.lng.raw > self.ne.lng.raw
    }

    #[verifier::when_used_as_spec(spec_wraps)]
    pub fn wraps(&self) -> (b: bool)
        ensures
            b == self.wraps(),
    {
        self.sw.lng.raw > self.ne.lng.raw
    }

    /// Whether the raw latitude lies between the southern and the northern
    /// edge, both included.
    pub open spec fn covers_lat(&self, lat: int) -> bool {
        self.sw.lat.raw <= lat <= self.ne.lat.raw
    }

    /// Whether the raw longitude lies in the box.
    ///
    /// A box that does not wrap covers the longitudes from its western to its
    /// eastern edge, both included. A box that wraps covers every longitude
    /// but those strictly between its eastern and its western edge.
    pub open spec fn covers_lng(&self, lng: int) -> bool {
        if self.wraps() {
            !(self.ne.lng.raw < lng < self.sw.lng.raw)
        } else {
            self.sw.lng.raw <= lng <= self.ne.lng.raw
        }
    }

    pub open spec fn spec_contains_point(&self, pt: &MapPoint) -> bool {
        self.covers_lat(pt.lat.raw as int) && self.covers_lng(pt.lng.raw as int)
    }

    /// Whether the point lies in the box.
    #[verifier::when_used_as_spec(spec_contains_point)]
    pub fn contains_point(&self, pt: &MapPoint) -> (b: bool)
        ensures
            b == self.contains_point(pt),
    {
        if pt.lat.raw < self.sw.lat.raw || pt.lat.raw > self.ne.lat.raw {
            return false;
        }
        if self.sw.lng.raw <= self.ne.lng.raw {
            pt.lng.raw >= self.sw.lng.raw && pt.lng.raw <= self.ne.lng.raw
        } else {
            !(pt.lng.raw > self.ne.lng.raw && pt.lng.raw < self.sw.lng.raw)
        }
    }
}

/// A distance in whole millimetres; the largest value stands for "infinitely
/// far away".
#[derive(Clone, Copy, Debug, PartialEq, Eq, Structural)]
pub struct Distance {
    pub millimetres: u64,
}

impl Distance {
    pub fn infinite() -> (d: Self)
        ensures
            d.millimetres == u64::MAX,
            d.is_infinite(),
    {
        Distance { millimetres: u64::MAX }
    }

    pub fn from_millimetres(millimetres: u64) -> (d: Self)
        ensures
            d.millimetres == millimetres,
    {
        Distance { millimetres }
    }

    pub fn to_millimetres(self) -> (millimetres: u64)
        ensures
            millimetres == self.millimetres,
    {
        self.millimetres
    }

    pub open spec fn spec_is_infinite(self) -> bool {
        self.millimetres == u64::MAX
    }

    #[verifier::when_used_as_spec(spec_is_infinite)]
    pub fn is_infinite(self) -> (b: bool)
        ensures
            b == self.is_infinite(),
    {
        self.millimetres == u64::MAX
    }
}

} // verus!
