//! What the answer of a reverse query is, stated over the way table, and
//! what holds of every such answer.

use crate::geometry::{dist2, nearest_point, segment_dist2, Coord, TOLERANCE_SQUARED};
use crate::kinds::{GeometryType, LocationCategory};
use crate::model::{distinct_ids, segment_at, segment_ends};
use crate::record::AddressView;
use crate::select::{chosen_way, Hit, MAX_RESULTS};
use vstd::prelude::*;

verus! {

/// The rank cutoff of a query that names no zoom level.
pub const DEFAULT_MAX_RANK: u8 = 26;

/// The greatest rank that a zoom level admits.
pub open spec fn zoom_max_rank(zoom: u8) -> u8 {
    if zoom <= 2 {
        2
    } else if zoom <= 4 {
        4
    } else if zoom == 5 {
        8
    } else if zoom <= 7 {
        10
    } else if zoom <= 9 {
        12
    } else if zoom == 10 {
        16
    } else if zoom == 11 {
        17
    } else if zoom == 12 {
        18
    } else if zoom == 13 {
        19
    } else if zoom == 14 {
        22
    } else if zoom == 15 {
        25
    } else if zoom == 16 {
        26
    } else if zoom == 17 {
        27
    } else if zoom == 18 {
        30
    } else {
        27
    }
}

/// The rank cutoff of a query: that of its zoom level, or the default.
pub open spec fn rank_cutoff(zoom: Option<u8>) -> u8 {
    match zoom {
        Some(z) => zoom_max_rank(z),
        None => DEFAULT_MAX_RANK,
    }
}

/// The greatest rank that a zoom level admits.
pub fn max_rank_for_zoom(zoom: u8) -> (r: u8)
    ensures
        r == zoom_max_rank(zoom),
{
    match zoom {
        0 | 1 | 2 => 2,
        3 | 4 => 4,
        5 => 8,
        6 | 7 => 10,
        8 | 9 => 12,
        10 => 16,
        11 => 17,
        12 => 18,
        13 => 19,
        14 => 22,
        15 => 25,
        16 => 26,
        17 => 27,
        18 => 30,
        _ => 27,
    }
}

/// Up to zoom level 18 a finer zoom admits every rank that a coarser one
/// admits.
pub proof fn lemma_zoom_monotone(z1: u8, z2: u8)
    requires
        z1 <= z2 <= 18,
    ensures
        zoom_max_rank(z1) <= zoom_max_rank(z2),
{
}

/// A reverse query may return the way: it is a line or less, a highway,
/// and its rank is within the cutoff.
pub open spec fn admitted(rec: AddressView, max_rank: u8) -> bool {
    &&& rec.geometry.kind != GeometryType::Polygon
    &&& rec.geometry.kind != GeometryType::MultiPolygon
    &&& rec.category == LocationCategory::Highway
    &&& rec.way_type.spec_rank() <= max_rank
}

/// The segment `(w, k)` counts for the query: its way is admitted and it
/// lies within the tolerance of `q`.
pub open spec fn is_candidate(
    ways: Seq<AddressView>,
    q: Coord,
    max_rank: u8,
    w: int,
    k: int,
) -> bool {
    &&& segment_at(ways, w, k)
    &&& admitted(ways[w], max_rank)
    &&& segment_dist2(segment_ends(ways, w, k).0, segment_ends(ways, w, k).1, q)
        <= TOLERANCE_SQUARED
}

/// The hit that the segment `(w, k)` makes for the query point `q`.
pub open spec fn hit_of(ways: Seq<AddressView>, q: Coord, w: int, k: int) -> Hit {
    let (a, b) = segment_ends(ways, w, k);
    let p = nearest_point(a, b, q);
    Hit { way: w as usize, start: k as usize, dist2: dist2(p, q) as u64, point: p }
}

/// `out` answers the query at `q`: it holds, nearest first, the nearest
/// segment of each admitted way within the tolerance, for no more than
/// `MAX_RESULTS` ways; and where a way is left out, the answer is full and
/// all of it is nearer than that way.
pub open spec fn is_answer(ways: Seq<AddressView>, q: Coord, max_rank: u8, out: Seq<Hit>) -> bool {
    &&& out.len() <= MAX_RESULTS
    &&& forall|i: int|
        0 <= i < out.len() ==> is_candidate(
            ways,
            q,
            max_rank,
            (#[trigger] out[i]).way as int,
            out[i].start as int,
        ) && out[i] == hit_of(ways, q, out[i].way as int, out[i].start as int)
    &&& forall|i: int, j: int|
        0 <= i < j < out.len() ==> (#[trigger] out[i]).before(#[trigger] out[j])
    &&& forall|i: int, j: int|
        0 <= i < j < out.len() ==> (#[trigger] out[i]).way != (#[trigger] out[j]).way
    &&& forall|i: int, k: int|
        0 <= i < out.len() && #[trigger] is_candidate(ways, q, max_rank, out[i].way as int, k)
            ==> !hit_of(ways, q, out[i].way as int, k).before(out[i])
    &&& forall|w: int, k: int| #[trigger]
        is_candidate(ways, q, max_rank, w, k) ==> chosen_way(out, w as usize) || (out.len()
            == MAX_RESULTS && out.last().before(hit_of(ways, q, w, k)))
}

/// The records that an answer stands for: for each hit the record of its
/// way, with the hit's point noted in it.
pub open spec fn answer_records(ways: Seq<AddressView>, out: Seq<Hit>) -> Seq<AddressView> {
    Seq::new(out.len(), |i: int| ways[out[i].way as int].located_at(out[i].point))
}

/// `result` is what a reverse query at `q` returns.
pub open spec fn is_find_result(
    ways: Seq<AddressView>,
    q: Coord,
    max_rank: u8,
    result: Seq<AddressView>,
) -> bool {
    exists|out: Seq<Hit>| #[trigger]
        is_answer(ways, q, max_rank, out) && result == answer_records(ways, out)
}

/// Two hits of one table and query point that are level in the order of
/// hits are the same hit.
proof fn lemma_level_hits_equal(ways: Seq<AddressView>, q: Coord, a: Hit, b: Hit)
    requires
        a == hit_of(ways, q, a.way as int, a.start as int),
        b == hit_of(ways, q, b.way as int, b.start as int),
        !a.before(b),
        !b.before(a),
    ensures
        a == b,
{
}

/// The common part of two answers to one query agrees hit by hit.
proof fn lemma_answers_agree(
    ways: Seq<AddressView>,
    q: Coord,
    max_rank: u8,
    o1: Seq<Hit>,
    o2: Seq<Hit>,
    n: int,
)
    requires
        is_answer(ways, q, max_rank, o1),
        is_answer(ways, q, max_rank, o2),
        0 <= n <= o1.len(),
        n <= o2.len(),
    ensures
        forall|i: int| 0 <= i < n ==> o1[i] == o2[i],
    decreases n,
{
    if n > 0 {
        lemma_answers_agree(ways, q, max_rank, o1, o2, n - 1);
        let i = n - 1;
        let a = o1[i];
        let b = o2[i];
        lemma_misplaced(ways, q, max_rank, o1, o2, i);
        lemma_misplaced(ways, q, max_rank, o2, o1, i);
        lemma_level_hits_equal(ways, q, a, b);
    }
}

/// Where two answers agree before position `i`, the hit of the first at
/// `i` does not come before the hit of the second.
proof fn lemma_misplaced(
    ways: Seq<AddressView>,
    q: Coord,
    max_rank: u8,
    o1: Seq<Hit>,
    o2: Seq<Hit>,
    i: int,
)
    requires
        is_answer(ways, q, max_rank, o1),
        is_answer(ways, q, max_rank, o2),
        0 <= i < o1.len(),
        i < o2.len(),
        forall|j: int| 0 <= j < i ==> o1[j] == o2[j],
    ensures
        !o1[i].before(o2[i]),
{
    let a = o1[i];
    let w = a.way as int;
    let k = a.start as int;
    assert(is_candidate(ways, q, max_rank, w, k));
    if a.before(o2[i]) {
        // The second answer knows the way of `a`, or is full of nearer hits.
        if chosen_way(o2, w as usize) {
            let j = choose|j: int| 0 <= j < o2.len() && (#[trigger] o2[j]).way == w as usize;
            let c = o2[j];
            // `c` is the nearest hit of the way, so `a` is not before it.
            assert(is_candidate(ways, q, max_rank, o2[j].way as int, k));
            assert(!hit_of(ways, q, o2[j].way as int, k).before(o2[j]));
            if j >= i {
                if j > i {
                    assert(o2[i].before(o2[j]));
                }
            } else {
                assert(o1[j] == o2[j]);
                assert(o1[j].way != o1[i].way);
            }
        } else {
            assert(o2.last() == o2[o2.len() - 1]);
            if i < o2.len() - 1 {
                assert(o2[i].before(o2[o2.len() - 1]));
            }
        }
    }
}

/// Two answers to one query are the same.
pub proof fn lemma_answer_unique(
    ways: Seq<AddressView>,
    q: Coord,
    max_rank: u8,
    o1: Seq<Hit>,
    o2: Seq<Hit>,
)
    requires
        is_answer(ways, q, max_rank, o1),
        is_answer(ways, q, max_rank, o2),
    ensures
        o1 == o2,
{
    let n = if o1.len() <= o2.len() { o1.len() as int } else { o2.len() as int };
    lemma_answers_agree(ways, q, max_rank, o1, o2, n);
    if o1.len() <= o2.len() {
        lemma_same_length(ways, q, max_rank, o1, o2);
    } else {
        lemma_same_length(ways, q, max_rank, o2, o1);
    }
    assert(o1 =~= o2);
}

/// An answer does not go on where another one, equal so far, has ended.
proof fn lemma_same_length(
    ways: Seq<AddressView>,
    q: Coord,
    max_rank: u8,
    short: Seq<Hit>,
    long: Seq<Hit>,
)
    requires
        is_answer(ways, q, max_rank, short),
        is_answer(ways, q, max_rank, long),
        short.len() <= long.len(),
        forall|i: int| 0 <= i < short.len() ==> short[i] == long[i],
    ensures
        short.len() == long.len(),
{
    if short.len() < long.len() {
        let n = short.len() as int;
        let h = long[n];
        assert(is_candidate(ways, q, max_rank, h.way as int, h.start as int));
        assert(chosen_way(short, h.way));
        let j = choose|j: int| 0 <= j < short.len() && (#[trigger] short[j]).way == h.way;
        assert(long[j] == short[j]);
        assert(long[j].way != long[n].way);
    }
}

/// With a higher rank cutoff nothing is lost but to the limit on the
/// number of ways: each hit of the answer at the lower cutoff is a hit of
/// the answer at the higher one, unless that answer is full and all of it
/// is nearer than the hit.
pub proof fn lemma_answer_monotone(
    ways: Seq<AddressView>,
    q: Coord,
    low: u8,
    high: u8,
    o1: Seq<Hit>,
    o2: Seq<Hit>,
)
    requires
        is_answer(ways, q, low, o1),
        is_answer(ways, q, high, o2),
        low <= high,
    ensures
        forall|i: int|
            0 <= i < o1.len() ==> o2.contains(#[trigger] o1[i]) || (o2.len() == MAX_RESULTS
                && o2.last().before(o1[i])),
{
    assert forall|i: int| 0 <= i < o1.len() implies o2.contains(#[trigger] o1[i]) || (o2.len()
        == MAX_RESULTS && o2.last().before(o1[i])) by {
        let a = o1[i];
        let w = a.way as int;
        assert(is_candidate(ways, q, low, w, a.start as int));
        assert(is_candidate(ways, q, high, w, a.start as int));
        if chosen_way(o2, w as usize) {
            let j = choose|j: int| 0 <= j < o2.len() && (#[trigger] o2[j]).way == w as usize;
            let c = o2[j];
            assert(is_candidate(ways, q, high, o2[j].way as int, a.start as int));
            assert(!hit_of(ways, q, o2[j].way as int, a.start as int).before(o2[j]));
            assert(is_candidate(ways, q, high, c.way as int, c.start as int));
            assert(is_candidate(ways, q, low, o1[i].way as int, c.start as int));
            assert(!hit_of(ways, q, o1[i].way as int, c.start as int).before(o1[i]));
            lemma_level_hits_equal(ways, q, a, c);
        }
    }
}

/// The records of an answer have different ids, where the records of the
/// table have.
pub proof fn lemma_answer_distinct_ids(
    ways: Seq<AddressView>,
    q: Coord,
    max_rank: u8,
    out: Seq<Hit>,
)
    requires
        distinct_ids(ways),
        is_answer(ways, q, max_rank, out),
    ensures
        distinct_ids(answer_records(ways, out)),
{
    let recs = answer_records(ways, out);
    assert forall|i: int, j: int| 0 <= i < j < recs.len() implies (#[trigger] recs[i]).osm_id
        != (#[trigger] recs[j]).osm_id by {
        let wi = out[i].way as int;
        let wj = out[j].way as int;
        assert(out[i].way != out[j].way);
        assert(is_candidate(ways, q, max_rank, wi, out[i].start as int));
        assert(is_candidate(ways, q, max_rank, wj, out[j].start as int));
        if wi < wj {
            assert(ways[wi].osm_id != ways[wj].osm_id);
        } else {
            assert(ways[wj].osm_id != ways[wi].osm_id);
        }
    }
}

} // verus!
