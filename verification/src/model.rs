//! The way table as a sequence of records, and what follows from it: which
//! record an id names, and the segments of the ways in their fixed order.

use crate::geometry::{bounds_of, Bounds, Coord};
use crate::record::AddressView;
use crate::tree::SegmentBox;
use vstd::prelude::*;

verus! {

/// The id under which a way is kept: the low 32 bits of its id in the
/// source.
pub open spec fn way_key(id: i64) -> u32 {
    id as u32
}

/// The id under which a way is kept.
pub fn key_of(id: i64) -> (key: u32)
    ensures
        key == way_key(id),
{
    id as u32
}

/// No two records have the same id.
pub open spec fn distinct_ids(ways: Seq<AddressView>) -> bool {
    forall|i: int, j: int|
        0 <= i < j < ways.len() ==> (#[trigger] ways[i]).osm_id != (#[trigger] ways[j]).osm_id
}

/// Some record has the id.
pub open spec fn has_id(ways: Seq<AddressView>, id: u32) -> bool {
    exists|i: int| 0 <= i < ways.len() && (#[trigger] ways[i]).osm_id == id
}

/// The position of a record with the id, where there is one.
pub open spec fn position_of(ways: Seq<AddressView>, id: u32) -> int {
    choose|i: int| 0 <= i < ways.len() && (#[trigger] ways[i]).osm_id == id
}

/// The record with the id.
pub open spec fn lookup(ways: Seq<AddressView>, id: u32) -> Option<AddressView> {
    if has_id(ways, id) {
        Some(ways[position_of(ways, id)])
    } else {
        None
    }
}

/// The table after a record is put in: it takes the place of the record
/// with its id, or the last place where no record has that id.
pub open spec fn upsert(ways: Seq<AddressView>, rec: AddressView) -> Seq<AddressView> {
    if has_id(ways, rec.osm_id) {
        ways.update(position_of(ways, rec.osm_id), rec)
    } else {
        ways.push(rec)
    }
}

/// In a table of distinct ids, the position of an id is the only one that
/// holds it.
pub proof fn lemma_position_unique(ways: Seq<AddressView>, i: int)
    requires
        distinct_ids(ways),
        0 <= i < ways.len(),
    ensures
        has_id(ways, ways[i].osm_id),
        position_of(ways, ways[i].osm_id) == i,
{
}

/// Putting a record in keeps the ids distinct; the record is then the one
/// under its id, and the records under other ids are as before.
pub proof fn lemma_upsert_distinct(ways: Seq<AddressView>, rec: AddressView)
    requires
        distinct_ids(ways),
    ensures
        distinct_ids(upsert(ways, rec)),
        lookup(upsert(ways, rec), rec.osm_id) == Some(rec),
        forall|id: u32| id != rec.osm_id ==> lookup(upsert(ways, rec), id) == lookup(ways, id),
{
    let after = upsert(ways, rec);
    let at: int = if has_id(ways, rec.osm_id) {
        position_of(ways, rec.osm_id)
    } else {
        ways.len() as int
    };
    assert(distinct_ids(after));
    lemma_position_unique(after, at);
    assert forall|id: u32| id != rec.osm_id implies lookup(after, id) == lookup(ways, id) by {
        if has_id(ways, id) {
            let p = position_of(ways, id);
            lemma_position_unique(ways, p);
            lemma_position_unique(after, p);
        }
    }
}

/// A segment: the way by its position in the table, and the position of
/// the segment's first point in the way.
#[derive(Clone, Copy, Debug, PartialEq, Eq, Structural)]
pub struct SegmentRef {
    pub way: usize,
    pub start: usize,
}

/// The number of segments of a way with `n` points.
pub open spec fn segment_count(n: nat) -> nat {
    if n >= 2 {
        (n - 1) as nat
    } else {
        0
    }
}

/// The segments of the way at position `w`, which has `n` points.
pub open spec fn way_segments(w: int, n: nat) -> Seq<SegmentRef> {
    Seq::new(segment_count(n), |k: int| SegmentRef { way: w as usize, start: k as usize })
}

/// The segments of all ways: way by way in table order, and in each way
/// in point order. A segment's id is its position in this sequence.
pub open spec fn segments_of(ways: Seq<AddressView>) -> Seq<SegmentRef>
    decreases ways.len(),
{
    if ways.len() == 0 {
        Seq::empty()
    } else {
        segments_of(ways.drop_last()) + way_segments(
            ways.len() - 1,
            ways.last().geometry.coordinates.len(),
        )
    }
}

/// The sum, over all ways, of the number of segments of each.
pub open spec fn total_segments(ways: Seq<AddressView>) -> nat
    decreases ways.len(),
{
    if ways.len() == 0 {
        0
    } else {
        total_segments(ways.drop_last()) + segment_count(ways.last().geometry.coordinates.len())
    }
}

/// `(w, k)` names a segment of the table.
pub open spec fn segment_at(ways: Seq<AddressView>, w: int, k: int) -> bool {
    0 <= w < ways.len() && 0 <= k && k + 1 < ways[w].geometry.coordinates.len()
}

/// The table is one that a machine can hold.
pub open spec fn fits(ways: Seq<AddressView>) -> bool {
    &&& ways.len() <= usize::MAX
    &&& forall|w: int|
        0 <= w < ways.len() ==> (#[trigger] ways[w]).geometry.coordinates.len() <= usize::MAX
}

/// There are as many segments as the ways have point pairs.
pub proof fn lemma_segments_len(ways: Seq<AddressView>)
    ensures
        segments_of(ways).len() == total_segments(ways),
    decreases ways.len(),
{
    if ways.len() > 0 {
        lemma_segments_len(ways.drop_last());
    }
}

/// A table that fits still fits without its last record.
proof fn lemma_fits_without_last(ways: Seq<AddressView>)
    requires
        fits(ways),
        ways.len() > 0,
    ensures
        fits(ways.drop_last()),
{
    assert forall|w: int| 0 <= w < ways.drop_last().len() implies (
    #[trigger] ways.drop_last()[w]).geometry.coordinates.len() <= usize::MAX by {
        assert(ways.drop_last()[w] == ways[w]);
    }
}

/// Every segment id names a segment of the table.
pub proof fn lemma_segments_valid(ways: Seq<AddressView>, s: int)
    requires
        0 <= s < segments_of(ways).len(),
        fits(ways),
    ensures
        segment_at(ways, segments_of(ways)[s].way as int, segments_of(ways)[s].start as int),
    decreases ways.len(),
{
    if ways.len() > 0 {
        if s < segments_of(ways.drop_last()).len() {
            lemma_fits_without_last(ways);
            lemma_segments_valid(ways.drop_last(), s);
        }
    }
}

/// Every segment of the table has an id.
pub proof fn lemma_segments_cover(ways: Seq<AddressView>, w: int, k: int) -> (s: int)
    requires
        segment_at(ways, w, k),
    ensures
        0 <= s < segments_of(ways).len(),
        segments_of(ways)[s] == (SegmentRef { way: w as usize, start: k as usize }),
    decreases ways.len(),
{
    if w == ways.len() - 1 {
        segments_of(ways.drop_last()).len() + k
    } else {
        lemma_segments_cover(ways.drop_last(), w, k)
    }
}

/// Different segment ids name different segments.
pub proof fn lemma_segments_distinct(ways: Seq<AddressView>, s: int, t: int)
    requires
        0 <= s < t < segments_of(ways).len(),
        fits(ways),
    ensures
        segments_of(ways)[s] != segments_of(ways)[t],
    decreases ways.len(),
{
    if ways.len() > 0 {
        let head = segments_of(ways.drop_last());
        lemma_fits_without_last(ways);
        if t < head.len() {
            lemma_segments_distinct(ways.drop_last(), s, t);
        } else if s < head.len() {
            lemma_segments_valid(ways.drop_last(), s);
        }
    }
}

/// The two end points of a segment.
pub open spec fn segment_ends(ways: Seq<AddressView>, w: int, k: int) -> (Coord, Coord) {
    (ways[w].geometry.coordinates[k], ways[w].geometry.coordinates[k + 1])
}

/// `(w, k)` names a segment of the table whose bounding box meets the
/// window, touching included.
pub open spec fn segment_meets(ways: Seq<AddressView>, w: int, k: int, window: Bounds) -> bool {
    segment_at(ways, w, k) && bounds_of(segment_ends(ways, w, k).0, segment_ends(ways, w, k).1)
        .intersects(window)
}

/// The bounding box of the segment with id `s`.
pub open spec fn box_of(ways: Seq<AddressView>, segments: Seq<SegmentRef>, s: int) -> SegmentBox {
    let (a, b) = segment_ends(ways, segments[s].way as int, segments[s].start as int);
    SegmentBox { bounds: bounds_of(a, b), segment: s as usize }
}

/// The bounding boxes of the given segments, each tagged with its id.
pub open spec fn boxes_of(ways: Seq<AddressView>, segments: Seq<SegmentRef>) -> Seq<SegmentBox> {
    Seq::new(segments.len(), |s: int| box_of(ways, segments, s))
}

} // verus!
