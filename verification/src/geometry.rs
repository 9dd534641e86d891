//! Fixed-point coordinates and the geometry of a single segment.
//!
//! A coordinate is a pair of integers in units of 1e-7 degree, so every
//! computation here is exact integer arithmetic.

use crate::kinds::GeometryType;
use vstd::prelude::*;

verus! {

/// A position: latitude and longitude, each in units of 1e-7 degree.
#[derive(Clone, Copy, Debug, PartialEq, Eq, Structural)]
pub struct Coord {
    pub lat: i32,
    pub lon: i32,
}

/// The shape that a point sequence describes: by its length, and for three
/// points or more by whether the first point is the last one too.
pub open spec fn classify_points(points: Seq<Coord>) -> GeometryType {
    if points.len() == 0 {
        GeometryType::Empty
    } else if points.len() == 1 {
        GeometryType::Point
    } else if points.len() >= 3 && points.first() == points.last() {
        GeometryType::Polygon
    } else {
        GeometryType::Line
    }
}

impl GeometryType {
    /// Classifies the resolved points of a way.
    pub fn from_points(points: &[Coord]) -> (kind: GeometryType)
        ensures
            kind == classify_points(points@),
            kind == GeometryType::Empty <==> points@.len() == 0,
            kind == GeometryType::Point <==> points@.len() == 1,
            kind == GeometryType::Polygon <==> points@.len() >= 3 && points@.first()
                == points@.last(),
            kind == GeometryType::Line <==> points@.len() >= 2 && !(points@.len() >= 3
                && points@.first() == points@.last()),
            kind != GeometryType::MultiPolygon,
    {
        let n = points.len();
        if n == 0 {
            GeometryType::Empty
        } else if n == 1 {
            GeometryType::Point
        } else if n == 2 {
            GeometryType::Line
        } else {
            let first = points[0];
            let last = points[n - 1];
            if first.lat == last.lat && first.lon == last.lon {
                GeometryType::Polygon
            } else {
                GeometryType::Line
            }
        }
    }
}

impl<'a> From<&'a [Coord]> for GeometryType {
    /// Classifies the resolved points of a way.
    fn from(points: &'a [Coord]) -> (kind: GeometryType) {
        GeometryType::from_points(points)
    }
}

impl<'a> vstd::std_specs::convert::FromSpecImpl<&'a [Coord]> for GeometryType {
    open spec fn obeys_from_spec() -> bool {
        true
    }

    open spec fn from_spec(points: &'a [Coord]) -> GeometryType {
        classify_points(points@)
    }
}

/// Squared distance between two positions.
pub open spec fn dist2(p: Coord, q: Coord) -> int {
    (p.lat - q.lat) * (p.lat - q.lat) + (p.lon - q.lon) * (p.lon - q.lon)
}

/// Squared length of the segment from `a` to `b`.
pub open spec fn seg_len2(a: Coord, b: Coord) -> int {
    dist2(a, b)
}

/// Scalar product of `q - a` with `b - a`.
pub open spec fn seg_dot(a: Coord, b: Coord, q: Coord) -> int {
    (q.lat - a.lat) * (b.lat - a.lat) + (q.lon - a.lon) * (b.lon - a.lon)
}

/// The scalar product clamped to the segment: 0 stands for `a`, the
/// segment's squared length for `b`.
pub open spec fn seg_param(a: Coord, b: Coord, q: Coord) -> int {
    let d = seg_dot(a, b, q);
    let l = seg_len2(a, b);
    if d <= 0 {
        0
    } else if d >= l {
        l
    } else {
        d
    }
}

/// The value `t / l` of the way from `from` to `to`, rounded toward `from`.
pub open spec fn lerp(from: int, to: int, t: int, l: int) -> int {
    if to >= from {
        from + ((to - from) * t) / l
    } else {
        from - ((from - to) * t) / l
    }
}

/// The grid point of the segment from `a` to `b` that is taken as nearest
/// to `q`: the orthogonal projection of `q`, clamped to the segment and
/// rounded, coordinate by coordinate, toward `a`.
pub open spec fn nearest_point(a: Coord, b: Coord, q: Coord) -> Coord {
    let l = seg_len2(a, b);
    if l == 0 {
        a
    } else {
        let t = seg_param(a, b, q);
        Coord {
            lat: lerp(a.lat as int, b.lat as int, t, l) as i32,
            lon: lerp(a.lon as int, b.lon as int, t, l) as i32,
        }
    }
}

/// Squared distance from `q` to the segment from `a` to `b`, measured at
/// the segment's nearest grid point.
pub open spec fn segment_dist2(a: Coord, b: Coord, q: Coord) -> int {
    dist2(nearest_point(a, b, q), q)
}

/// `lerp` stays between its two ends.
pub proof fn lemma_lerp_between(from: int, to: int, t: int, l: int)
    requires
        0 <= t <= l,
        0 < l,
    ensures
        from <= to ==> from <= lerp(from, to, t, l) <= to,
        to <= from ==> to <= lerp(from, to, t, l) <= from,
{
    if to >= from {
        let d = to - from;
        assert(0 <= (d * t) / l <= d) by (nonlinear_arith)
            requires
                0 <= t <= l,
                0 < l,
                0 <= d,
        ;
    } else {
        let d = from - to;
        assert(0 <= (d * t) / l <= d) by (nonlinear_arith)
            requires
                0 <= t <= l,
                0 < l,
                0 <= d,
        ;
    }
}

/// The nearest point lies in the bounding box of the segment.
pub proof fn lemma_nearest_in_box(a: Coord, b: Coord, q: Coord)
    ensures
        a.lat <= b.lat ==> a.lat <= nearest_point(a, b, q).lat <= b.lat,
        b.lat <= a.lat ==> b.lat <= nearest_point(a, b, q).lat <= a.lat,
        a.lon <= b.lon ==> a.lon <= nearest_point(a, b, q).lon <= b.lon,
        b.lon <= a.lon ==> b.lon <= nearest_point(a, b, q).lon <= a.lon,
        seg_len2(a, b) != 0 ==> nearest_point(a, b, q).lat == lerp(
            a.lat as int,
            b.lat as int,
            seg_param(a, b, q),
            seg_len2(a, b),
        ) && nearest_point(a, b, q).lon == lerp(
            a.lon as int,
            b.lon as int,
            seg_param(a, b, q),
            seg_len2(a, b),
        ),
{
    let l = seg_len2(a, b);
    assert(l >= 0) by (nonlinear_arith)
        requires
            l == (a.lat - b.lat) * (a.lat - b.lat) + (a.lon - b.lon) * (a.lon - b.lon),
    ;
    if l != 0 {
        let t = seg_param(a, b, q);
        lemma_lerp_between(a.lat as int, b.lat as int, t, l);
        lemma_lerp_between(a.lon as int, b.lon as int, t, l);
    }
}

/// Squared distance between two positions.
pub fn distance_squared(p: Coord, q: Coord) -> (d: u128)
    ensures
        d == dist2(p, q),
{
    let dlat: i128 = p.lat as i128 - q.lat as i128;
    let dlon: i128 = p.lon as i128 - q.lon as i128;
    assert(0 <= dlat * dlat <= 0x1_0000_0000_0000_0000) by (nonlinear_arith)
        requires
            -0x1_0000_0000 <= dlat <= 0x1_0000_0000,
    ;
    assert(0 <= dlon * dlon <= 0x1_0000_0000_0000_0000) by (nonlinear_arith)
        requires
            -0x1_0000_0000 <= dlon <= 0x1_0000_0000,
    ;
    (dlat * dlat + dlon * dlon) as u128
}

/// One coordinate of the nearest point: see `lerp`.
fn lerp_exec(from: i32, to: i32, t: u128, l: u128) -> (r: i32)
    requires
        0 <= t <= l,
        0 < l <= 0x2_0000_0000_0000_0000,
    ensures
        r == lerp(from as int, to as int, t as int, l as int),
{
    proof {
        lemma_lerp_between(from as int, to as int, t as int, l as int);
    }
    if to >= from {
        let d: u128 = (to as i128 - from as i128) as u128;
        assert(d * t <= 0x1_0000_0000 * 0x2_0000_0000_0000_0000) by (nonlinear_arith)
            requires
                0 <= d <= 0x1_0000_0000,
                0 <= t <= 0x2_0000_0000_0000_0000,
        ;
        let step: u128 = (d * t) / l;
        (from as i128 + step as i128) as i32
    } else {
        let d: u128 = (from as i128 - to as i128) as u128;
        assert(d * t <= 0x1_0000_0000 * 0x2_0000_0000_0000_0000) by (nonlinear_arith)
            requires
                0 <= d <= 0x1_0000_0000,
                0 <= t <= 0x2_0000_0000_0000_0000,
        ;
        let step: u128 = (d * t) / l;
        (from as i128 - step as i128) as i32
    }
}

/// The nearest grid point to `q` on the segment from `a` to `b`.
pub fn nearest_on_segment(a: Coord, b: Coord, q: Coord) -> (p: Coord)
    ensures
        p == nearest_point(a, b, q),
{
    let dlat: i128 = b.lat as i128 - a.lat as i128;
    let dlon: i128 = b.lon as i128 - a.lon as i128;
    let qlat: i128 = q.lat as i128 - a.lat as i128;
    let qlon: i128 = q.lon as i128 - a.lon as i128;
    assert(0 <= dlat * dlat <= 0x1_0000_0000_0000_0000) by (nonlinear_arith)
        requires
            -0x1_0000_0000 <= dlat <= 0x1_0000_0000,
    ;
    assert(0 <= dlon * dlon <= 0x1_0000_0000_0000_0000) by (nonlinear_arith)
        requires
            -0x1_0000_0000 <= dlon <= 0x1_0000_0000,
    ;
    assert(-0x1_0000_0000_0000_0000 <= qlat * dlat <= 0x1_0000_0000_0000_0000)
        by (nonlinear_arith)
        requires
            -0x1_0000_0000 <= dlat <= 0x1_0000_0000,
            -0x1_0000_0000 <= qlat <= 0x1_0000_0000,
    ;
    assert(-0x1_0000_0000_0000_0000 <= qlon * dlon <= 0x1_0000_0000_0000_0000)
        by (nonlinear_arith)
        requires
            -0x1_0000_0000 <= dlon <= 0x1_0000_0000,
            -0x1_0000_0000 <= qlon <= 0x1_0000_0000,
    ;
    let l: i128 = dlat * dlat + dlon * dlon;
    assert(l == seg_len2(a, b)) by (nonlinear_arith)
        requires
            l == dlat * dlat + dlon * dlon,
            dlat == b.lat - a.lat,
            dlon == b.lon - a.lon,
            seg_len2(a, b) == (a.lat - b.lat) * (a.lat - b.lat) + (a.lon - b.lon) * (a.lon
                - b.lon),
    ;
    if l == 0 {
        return a;
    }
    let d: i128 = qlat * dlat + qlon * dlon;
    let t: i128 = if d <= 0 {
        0
    } else if d >= l {
        l
    } else {
        d
    };
    Coord {
        lat: lerp_exec(a.lat, b.lat, t as u128, l as u128),
        lon: lerp_exec(a.lon, b.lon, t as u128, l as u128),
    }
}

/// How far from the query a road may lie: 0.006 degree.
pub const TOLERANCE: i32 = 60_000;

/// The square of `TOLERANCE`.
pub const TOLERANCE_SQUARED: u64 = 3_600_000_000;

/// An axis-aligned box, both corners included.
#[derive(Clone, Copy, Debug, PartialEq, Eq, Structural)]
pub struct Bounds {
    pub min_lat: i32,
    pub min_lon: i32,
    pub max_lat: i32,
    pub max_lon: i32,
}

impl Bounds {
    /// The lower corner is not above the upper one.
    pub open spec fn ordered(self) -> bool {
        self.min_lat <= self.max_lat && self.min_lon <= self.max_lon
    }

    /// The two boxes share a point; touching counts.
    pub open spec fn intersects(self, other: Bounds) -> bool {
        &&& self.min_lat <= other.max_lat
        &&& self.min_lon <= other.max_lon
        &&& self.max_lat >= other.min_lat
        &&& self.max_lon >= other.min_lon
    }

    /// The box holds the position.
    pub open spec fn holds(self, p: Coord) -> bool {
        self.min_lat <= p.lat <= self.max_lat && self.min_lon <= p.lon <= self.max_lon
    }
}

/// The bounding box of the segment from `a` to `b`.
pub open spec fn bounds_of(a: Coord, b: Coord) -> Bounds {
    Bounds {
        min_lat: if a.lat <= b.lat { a.lat } else { b.lat },
        min_lon: if a.lon <= b.lon { a.lon } else { b.lon },
        max_lat: if a.lat <= b.lat { b.lat } else { a.lat },
        max_lon: if a.lon <= b.lon { b.lon } else { a.lon },
    }
}

/// The bounding box of the segment from `a` to `b`.
pub fn segment_bounds(a: Coord, b: Coord) -> (r: Bounds)
    ensures
        r == bounds_of(a, b),
        r.ordered(),
{
    Bounds {
        min_lat: if a.lat <= b.lat { a.lat } else { b.lat },
        min_lon: if a.lon <= b.lon { a.lon } else { b.lon },
        max_lat: if a.lat <= b.lat { b.lat } else { a.lat },
        max_lon: if a.lon <= b.lon { b.lon } else { a.lon },
    }
}

/// `x - TOLERANCE`, held at the least coordinate.
pub open spec fn below(x: i32) -> i32 {
    if x < i32::MIN + TOLERANCE {
        i32::MIN
    } else {
        (x - TOLERANCE) as i32
    }
}

/// `x + TOLERANCE`, held at the greatest coordinate.
pub open spec fn above(x: i32) -> i32 {
    if x > i32::MAX - TOLERANCE {
        i32::MAX
    } else {
        (x + TOLERANCE) as i32
    }
}

/// The square of side twice `TOLERANCE` around `q`, cut to the coordinate
/// range.
pub open spec fn window_of(q: Coord) -> Bounds {
    Bounds {
        min_lat: below(q.lat),
        min_lon: below(q.lon),
        max_lat: above(q.lat),
        max_lon: above(q.lon),
    }
}

/// The search window around `q`.
pub fn query_window(q: Coord) -> (w: Bounds)
    ensures
        w == window_of(q),
        w.ordered(),
{
    Bounds {
        min_lat: if q.lat < i32::MIN + TOLERANCE { i32::MIN } else { q.lat - TOLERANCE },
        min_lon: if q.lon < i32::MIN + TOLERANCE { i32::MIN } else { q.lon - TOLERANCE },
        max_lat: if q.lat > i32::MAX - TOLERANCE { i32::MAX } else { q.lat + TOLERANCE },
        max_lon: if q.lon > i32::MAX - TOLERANCE { i32::MAX } else { q.lon + TOLERANCE },
    }
}

/// A position within `TOLERANCE` of `q` lies in the window around `q`.
pub proof fn lemma_near_in_window(p: Coord, q: Coord)
    requires
        dist2(p, q) <= TOLERANCE_SQUARED,
    ensures
        window_of(q).holds(p),
{
    let dlat = p.lat - q.lat;
    let dlon = p.lon - q.lon;
    assert(-60_000 <= dlat <= 60_000 && -60_000 <= dlon <= 60_000) by (nonlinear_arith)
        requires
            dlat * dlat + dlon * dlon <= 3_600_000_000,
    ;
}

/// A segment within `TOLERANCE` of `q` has a bounding box that meets the
/// window around `q`: a window search misses no such segment.
pub proof fn lemma_near_segment_meets_window(a: Coord, b: Coord, q: Coord)
    requires
        segment_dist2(a, b, q) <= TOLERANCE_SQUARED,
    ensures
        bounds_of(a, b).intersects(window_of(q)),
{
    let p = nearest_point(a, b, q);
    lemma_nearest_in_box(a, b, q);
    lemma_near_in_window(p, q);
}

} // verus!
