//! A reverse-geocoding index over road geometry.
//!
//! Ways are ingested with their tags and the positions of their nodes,
//! classified, and indexed segment by segment in an R-tree. The index
//! answers two queries: the stored record of a way id, and the nearest
//! qualifying roads around a position.
//!
//! All positions are fixed-point integers in units of 1e-7 degree, the
//! unit of the map extracts themselves, so that the geometry is exact.
//!
//! - [`kinds`]: the enumerations that classify a way, and the rank table.
//! - [`geometry`]: positions, the nearest point of a segment, boxes.
//! - [`tags`]: tag lookup, road type names, the tag classifier.
//! - [`record`]: the record kept for a way.
//! - [`model`]: the way table as a sequence, and its segments.
//! - [`tree`]: the R-tree over segment boxes.
//! - [`select`]: choosing the nearest ways among the hits of a query.
//! - [`answer`]: what the answer of a reverse query is.
//! - [`index`]: the index and its queries.
//! - [`ingest`]: building the index from the objects of an extract.
//! - [`laws`]: what holds of every index and every query.

pub mod answer;
pub mod geometry;
pub mod index;
pub mod ingest;
pub mod kinds;
pub mod laws;
pub mod model;
pub mod record;
pub mod select;
pub mod tags;
pub mod tree;

pub use geometry::Coord;
pub use index::GeoIndex;
pub use ingest::{BuildReport, IndexBuilder, OsmNode, OsmObject, OsmWay};
pub use kinds::{GeometryType, LocationCategory, LocationType, WayType};
pub use record::{AddressInfo, GeometryInfo, LocationExtraTask};
pub use tags::Tag;
