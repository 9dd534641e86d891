//! The closed enumerations that classify a way, and the rank table.

use vstd::prelude::*;

verus! {

/// The shape a way's point sequence describes.
#[derive(Clone, Copy, Debug, PartialEq, Eq, Structural)]
pub enum GeometryType {
    Empty,
    Point,
    Line,
    Polygon,
    MultiPolygon,
}

/// The kind of source object a record was made from.
#[derive(Clone, Copy, Debug, PartialEq, Eq, Structural)]
pub enum LocationType {
    Way,
    Node,
}

/// The coarse semantic bucket of a way.
#[derive(Clone, Copy, Debug, PartialEq, Eq, Structural)]
pub enum LocationCategory {
    Highway,
    Unknown,
}

/// The fine-grained road type of a way.
#[derive(Clone, Copy, Debug, PartialEq, Eq, Structural)]
pub enum WayType {
    Service,
    Cycleway,
    Path,
    Footway,
    Steps,
    Bridleway,
    MotorwayLink,
    PrimaryLink,
    TrunkLink,
    SecondaryLink,
    TertiaryLink,
    Residential,
    Track,
    Unclassified,
    Tertiary,
    Secondary,
    Primary,
    LivingStreet,
    Trunk,
    Motorway,
    Pedestrian,
    Road,
    Construction,
    Unknown,
}

/// Rank of the roads that carry through traffic.
pub const RANK_MAJOR: u8 = 26;

/// Rank of paths, tracks and service roads.
pub const RANK_MINOR: u8 = 27;

/// Rank of a way whose type is not known; below every known type.
pub const RANK_UNKNOWN: u8 = 28;

impl WayType {
    /// The rank table: lower is more important.
    pub open spec fn spec_rank(&self) -> u8 {
        match *self {
            WayType::Service
            | WayType::Cycleway
            | WayType::Path
            | WayType::Footway
            | WayType::Steps
            | WayType::Bridleway
            | WayType::Track => RANK_MINOR,
            WayType::Unknown => RANK_UNKNOWN,
            _ => RANK_MAJOR,
        }
    }

    /// The importance rank of this road type.
    #[verifier::when_used_as_spec(spec_rank)]
    pub fn rank(&self) -> (r: u8)
        ensures
            r == self.spec_rank(),
    {
        match self {
            WayType::Service => RANK_MINOR,
            WayType::Cycleway => RANK_MINOR,
            WayType::Path => RANK_MINOR,
            WayType::Footway => RANK_MINOR,
            WayType::Steps => RANK_MINOR,
            WayType::Bridleway => RANK_MINOR,
            WayType::MotorwayLink => RANK_MAJOR,
            WayType::PrimaryLink => RANK_MAJOR,
            WayType::TrunkLink => RANK_MAJOR,
            WayType::SecondaryLink => RANK_MAJOR,
            WayType::TertiaryLink => RANK_MAJOR,
            WayType::Residential => RANK_MAJOR,
            WayType::Track => RANK_MINOR,
            WayType::Unclassified => RANK_MAJOR,
            WayType::Tertiary => RANK_MAJOR,
            WayType::Secondary => RANK_MAJOR,
            WayType::Primary => RANK_MAJOR,
            WayType::LivingStreet => RANK_MAJOR,
            WayType::Trunk => RANK_MAJOR,
            WayType::Motorway => RANK_MAJOR,
            WayType::Pedestrian => RANK_MAJOR,
            WayType::Road => RANK_MAJOR,
            WayType::Construction => RANK_MAJOR,
            WayType::Unknown => RANK_UNKNOWN,
        }
    }
}

/// Every known road type ranks strictly above the unknown type.
pub proof fn lemma_unknown_ranks_last(t: WayType)
    ensures
        t != WayType::Unknown ==> t.spec_rank() < WayType::Unknown.spec_rank(),
        t.spec_rank() == RANK_MAJOR || t.spec_rank() == RANK_MINOR || t.spec_rank()
            == RANK_UNKNOWN,
{
}

} // verus!
