//! The record that the index keeps for each way.

use crate::geometry::{classify_points, Coord};
use crate::kinds::{GeometryType, LocationCategory, LocationType, WayType};
use vstd::prelude::*;

verus! {

/// The text of an optional string.
pub open spec fn text_of(s: Option<String>) -> Option<Seq<char>> {
    match s {
        Some(t) => Some(t@),
        None => None,
    }
}

/// Copies an optional string.
pub fn copy_text(s: &Option<String>) -> (r: Option<String>)
    ensures
        text_of(r) == text_of(*s),
{
    match s {
        Some(t) => Some(t.clone()),
        None => None,
    }
}

/// Tags of a way that are kept beside its classification.
#[derive(Debug, PartialEq, Eq)]
pub struct LocationExtraTask {
    pub oneway: Option<String>,
    pub max_speed: Option<String>,
    pub lanes: Option<u8>,
    pub turn_lanes: Option<String>,
}

/// What a `LocationExtraTask` holds.
pub struct ExtraTagsView {
    pub oneway: Option<Seq<char>>,
    pub max_speed: Option<Seq<char>>,
    pub lanes: Option<u8>,
    pub turn_lanes: Option<Seq<char>>,
}

impl View for LocationExtraTask {
    type V = ExtraTagsView;

    open spec fn view(&self) -> ExtraTagsView {
        ExtraTagsView {
            oneway: text_of(self.oneway),
            max_speed: text_of(self.max_speed),
            lanes: self.lanes,
            turn_lanes: text_of(self.turn_lanes),
        }
    }
}

impl Clone for LocationExtraTask {
    fn clone(&self) -> (r: Self)
        ensures
            r@ == self@,
    {
        LocationExtraTask {
            oneway: copy_text(&self.oneway),
            max_speed: copy_text(&self.max_speed),
            lanes: self.lanes,
            turn_lanes: copy_text(&self.turn_lanes),
        }
    }
}

/// The geometry of a way: its points in node order, and their shape.
#[derive(Debug, PartialEq, Eq)]
pub struct GeometryInfo {
    pub kind: GeometryType,
    pub coordinates: Vec<Coord>,
}

/// What a `GeometryInfo` holds.
pub struct GeometryView {
    pub kind: GeometryType,
    pub coordinates: Seq<Coord>,
}

impl View for GeometryInfo {
    type V = GeometryView;

    open spec fn view(&self) -> GeometryView {
        GeometryView { kind: self.kind, coordinates: self.coordinates@ }
    }
}

impl Clone for GeometryInfo {
    fn clone(&self) -> (r: Self)
        ensures
            r@ == self@,
    {
        let coordinates = self.coordinates.clone();
        GeometryInfo { kind: self.kind, coordinates }
    }
}

impl GeometryInfo {
    /// The geometry of the given points, classified.
    pub fn new(coordinates: Vec<Coord>) -> (g: GeometryInfo)
        ensures
            g@.coordinates == coordinates@,
            g@.kind == classify_points(coordinates@),
    {
        let kind = GeometryType::from(coordinates.as_slice());
        GeometryInfo { kind, coordinates }
    }
}

/// The record of one way.
#[derive(Debug, PartialEq, Eq)]
pub struct AddressInfo {
    pub place_id: Option<u32>,
    pub osm_id: u32,
    pub osm_type: LocationType,
    pub name: String,
    /// Latitude of the point of this way nearest to a query, where the
    /// record answers one.
    pub lat: Option<i32>,
    /// Longitude of that point.
    pub lon: Option<i32>,
    pub category: LocationCategory,
    pub way_type: WayType,
    pub extra_tags: LocationExtraTask,
    pub geometry: GeometryInfo,
}

/// What an `AddressInfo` holds.
pub struct AddressView {
    pub place_id: Option<u32>,
    pub osm_id: u32,
    pub osm_type: LocationType,
    pub name: Seq<char>,
    pub lat: Option<i32>,
    pub lon: Option<i32>,
    pub category: LocationCategory,
    pub way_type: WayType,
    pub extra_tags: ExtraTagsView,
    pub geometry: GeometryView,
}

impl AddressView {
    /// The record as it is stored: its geometry kind is the one its points
    /// describe, a way outside every category has no known type, and no
    /// query point is noted in it.
    pub open spec fn stored(self) -> bool {
        &&& self.geometry.kind == classify_points(self.geometry.coordinates)
        &&& self.category == LocationCategory::Unknown ==> self.way_type == WayType::Unknown
        &&& self.lat is None
        &&& self.lon is None
    }

    /// The record with the point `p` noted as the nearest one to a query.
    pub open spec fn located_at(self, p: Coord) -> AddressView {
        AddressView { lat: Some(p.lat), lon: Some(p.lon), ..self }
    }
}

impl View for AddressInfo {
    type V = AddressView;

    open spec fn view(&self) -> AddressView {
        AddressView {
            place_id: self.place_id,
            osm_id: self.osm_id,
            osm_type: self.osm_type,
            name: self.name@,
            lat: self.lat,
            lon: self.lon,
            category: self.category,
            way_type: self.way_type,
            extra_tags: self.extra_tags@,
            geometry: self.geometry@,
        }
    }
}

impl Clone for AddressInfo {
    fn clone(&self) -> (r: Self)
        ensures
            r@ == self@,
    {
        AddressInfo {
            place_id: self.place_id,
            osm_id: self.osm_id,
            osm_type: self.osm_type,
            name: self.name.clone(),
            lat: self.lat,
            lon: self.lon,
            category: self.category,
            way_type: self.way_type,
            extra_tags: self.extra_tags.clone(),
            geometry: self.geometry.clone(),
        }
    }
}

impl AddressInfo {
    /// A copy of the record with `p` noted as the nearest point to a query.
    pub fn located_at(&self, p: Coord) -> (r: AddressInfo)
        ensures
            r@ == self@.located_at(p),
    {
        let mut r = self.clone();
        r.lat = Some(p.lat);
        r.lon = Some(p.lon);
        r
    }

    /// Whether the record is as the index stores it.
    pub fn is_stored(&self) -> (b: bool)
        ensures
            b == self@.stored(),
    {
        let kind = GeometryType::from_points(self.geometry.coordinates.as_slice());
        let unknown_ok = match self.category {
            LocationCategory::Unknown => self.way_type == WayType::Unknown,
            LocationCategory::Highway => true,
        };
        kind == self.geometry.kind && unknown_ok && self.lat.is_none() && self.lon.is_none()
    }
}

/// What an optional record holds.
pub open spec fn view_of(r: Option<AddressInfo>) -> Option<AddressView> {
    match r {
        Some(rec) => Some(rec@),
        None => None,
    }
}

/// The views of a sequence of records.
pub open spec fn views(records: Seq<AddressInfo>) -> Seq<AddressView> {
    records.map_values(|r: AddressInfo| r@)
}

} // verus!
