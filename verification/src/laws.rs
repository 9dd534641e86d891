//! What holds of every index and every query.

use crate::answer::{
    admitted, answer_records, is_answer, is_candidate, is_find_result, lemma_answer_distinct_ids,
    lemma_answer_monotone, lemma_answer_unique, zoom_max_rank,
};
use crate::geometry::{dist2, Coord, TOLERANCE_SQUARED};
use crate::index::{loadable, GeoIndex};
use crate::kinds::GeometryType;
use crate::model::{distinct_ids, has_id, lookup, way_key};
use crate::record::{views, AddressInfo, AddressView};
use crate::select::{Hit, MAX_RESULTS};
use vstd::prelude::*;

verus! {

/// The geometry kind of a stored record with `n` points is `Empty` just
/// when `n` is 0, `Point` just when `n` is 1, `Polygon` just when `n` is 3
/// or more and the first point is the last one, and `Line` otherwise.
pub proof fn lemma_kind_by_points(rec: AddressView)
    requires
        rec.stored(),
    ensures
        rec.geometry.kind == GeometryType::Empty <==> rec.geometry.coordinates.len() == 0,
        rec.geometry.kind == GeometryType::Point <==> rec.geometry.coordinates.len() == 1,
        rec.geometry.kind == GeometryType::Polygon <==> rec.geometry.coordinates.len() >= 3
            && rec.geometry.coordinates.first() == rec.geometry.coordinates.last(),
        rec.geometry.kind == GeometryType::Line <==> rec.geometry.coordinates.len() >= 2 && !(
        rec.geometry.coordinates.len() >= 3 && rec.geometry.coordinates.first()
            == rec.geometry.coordinates.last()),
{
}

/// A lookup has one answer: two results of looking up the same id in the
/// same way table are equal.
pub proof fn lemma_get_repeatable(
    ways: Seq<AddressView>,
    id: i64,
    first: Option<AddressView>,
    second: Option<AddressView>,
)
    requires
        first == lookup(ways, way_key(id)),
        second == lookup(ways, way_key(id)),
    ensures
        first == second,
{
}

/// A reverse query has one answer: two results of the same query on the
/// same way table are equal, record by record.
pub proof fn lemma_find_repeatable(
    ways: Seq<AddressView>,
    q: Coord,
    max_rank: u8,
    first: Seq<AddressView>,
    second: Seq<AddressView>,
)
    requires
        is_find_result(ways, q, max_rank, first),
        is_find_result(ways, q, max_rank, second),
    ensures
        first == second,
{
    let o1 = choose|out: Seq<Hit>| #[trigger]
        is_answer(ways, q, max_rank, out) && first == answer_records(ways, out);
    let o2 = choose|out: Seq<Hit>| #[trigger]
        is_answer(ways, q, max_rank, out) && second == answer_records(ways, out);
    lemma_answer_unique(ways, q, max_rank, o1, o2);
}

/// A reverse query returns no more than `MAX_RESULTS` records, and no two
/// of them with the same id.
pub proof fn lemma_find_capped_and_distinct(
    ways: Seq<AddressView>,
    q: Coord,
    max_rank: u8,
    result: Seq<AddressView>,
)
    requires
        distinct_ids(ways),
        is_find_result(ways, q, max_rank, result),
    ensures
        result.len() <= MAX_RESULTS,
        distinct_ids(result),
{
    let out = choose|out: Seq<Hit>| #[trigger]
        is_answer(ways, q, max_rank, out) && result == answer_records(ways, out);
    lemma_answer_distinct_ids(ways, q, max_rank, out);
}

/// Each record of a reverse query is the record of an admitted way of the
/// table with the nearest point of that way noted in it: it is no polygon,
/// it is a highway, and its rank is within the cutoff. The noted point is
/// within the tolerance of the query point, and the records come nearest
/// first.
pub proof fn lemma_find_records(
    ways: Seq<AddressView>,
    q: Coord,
    max_rank: u8,
    result: Seq<AddressView>,
)
    requires
        is_find_result(ways, q, max_rank, result),
    ensures
        forall|i: int|
            0 <= i < result.len() ==> {
                &&& admitted(#[trigger] result[i], max_rank)
                &&& result[i].lat is Some
                &&& result[i].lon is Some
                &&& 0 <= noted_dist2(result[i], q) <= TOLERANCE_SQUARED
                &&& exists|w: int, p: Coord|
                    0 <= w < ways.len() && result[i] == (#[trigger] ways[w].located_at(p))
            },
        forall|i: int, j: int|
            0 <= i < j < result.len() ==> noted_dist2(#[trigger] result[i], q) <= noted_dist2(
                #[trigger] result[j],
                q,
            ),
{
    let out = choose|out: Seq<Hit>| #[trigger]
        is_answer(ways, q, max_rank, out) && result == answer_records(ways, out);
    assert forall|i: int| 0 <= i < result.len() implies {
        &&& admitted(#[trigger] result[i], max_rank)
        &&& result[i].lat is Some
        &&& result[i].lon is Some
        &&& 0 <= noted_dist2(result[i], q) <= TOLERANCE_SQUARED
        &&& exists|w: int, p: Coord|
            0 <= w < ways.len() && result[i] == (#[trigger] ways[w].located_at(p))
    } by {
        let w = out[i].way as int;
        assert(is_candidate(ways, q, max_rank, w, out[i].start as int));
        lemma_noted_dist2(ways, q, max_rank, out, i);
        assert(result[i] == ways[w].located_at(out[i].point));
    }
    assert forall|i: int, j: int| 0 <= i < j < result.len() implies noted_dist2(
        #[trigger] result[i],
        q,
    ) <= noted_dist2(#[trigger] result[j], q) by {
        lemma_noted_dist2(ways, q, max_rank, out, i);
        lemma_noted_dist2(ways, q, max_rank, out, j);
        assert(out[i].before(out[j]));
    }
}

/// Where a finer zoom level admits every rank that a coarser one admits,
/// each record returned at the coarser level is returned at the finer one
/// too, unless the answer at the finer level is full.
pub proof fn lemma_zoom_keeps_ways(
    ways: Seq<AddressView>,
    q: Coord,
    coarse: u8,
    fine: u8,
    at_coarse: Seq<AddressView>,
    at_fine: Seq<AddressView>,
)
    requires
        coarse < fine,
        zoom_max_rank(coarse) <= zoom_max_rank(fine),
        is_find_result(ways, q, zoom_max_rank(coarse), at_coarse),
        is_find_result(ways, q, zoom_max_rank(fine), at_fine),
        at_fine.len() < MAX_RESULTS,
    ensures
        forall|i: int| 0 <= i < at_coarse.len() ==> at_fine.contains(#[trigger] at_coarse[i]),
{
    lemma_cutoff_keeps_ways(
        ways,
        q,
        zoom_max_rank(coarse),
        zoom_max_rank(fine),
        at_coarse,
        at_fine,
    );
}

/// The squared distance from `q` to the point that a record of an answer
/// notes as the nearest one.
pub open spec fn noted_dist2(rec: AddressView, q: Coord) -> int {
    match (rec.lat, rec.lon) {
        (Some(lat), Some(lon)) => dist2(Coord { lat, lon }, q),
        _ => 0,
    }
}

/// With a higher rank cutoff a way is lost only to the limit on the number
/// of ways: each record of the answer at the lower cutoff is in the answer
/// at the higher one too, unless that answer is full and none of its
/// records is farther from the query point than the record in question.
pub proof fn lemma_cutoff_loses_only_far_ways(
    ways: Seq<AddressView>,
    q: Coord,
    low: u8,
    high: u8,
    at_low: Seq<AddressView>,
    at_high: Seq<AddressView>,
)
    requires
        low <= high,
        is_find_result(ways, q, low, at_low),
        is_find_result(ways, q, high, at_high),
    ensures
        forall|i: int|
            0 <= i < at_low.len() ==> at_high.contains(#[trigger] at_low[i]) || (at_high.len()
                == MAX_RESULTS && forall|j: int|
                0 <= j < at_high.len() ==> noted_dist2(#[trigger] at_high[j], q) <= noted_dist2(
                    at_low[i],
                    q,
                )),
{
    let o1 = choose|out: Seq<Hit>| #[trigger]
        is_answer(ways, q, low, out) && at_low == answer_records(ways, out);
    let o2 = choose|out: Seq<Hit>| #[trigger]
        is_answer(ways, q, high, out) && at_high == answer_records(ways, out);
    lemma_answer_monotone(ways, q, low, high, o1, o2);
    assert forall|i: int| 0 <= i < at_low.len() implies at_high.contains(#[trigger] at_low[i])
        || (at_high.len() == MAX_RESULTS && forall|j: int|
        0 <= j < at_high.len() ==> noted_dist2(#[trigger] at_high[j], q) <= noted_dist2(
            at_low[i],
            q,
        )) by {
        if o2.contains(o1[i]) {
            let j = choose|j: int| 0 <= j < o2.len() && o2[j] == o1[i];
            assert(at_high[j] == at_low[i]);
        } else {
            let last = o2.len() - 1;
            assert(o2.last() == o2[last]);
            lemma_noted_dist2(ways, q, low, o1, i);
            assert forall|j: int| 0 <= j < at_high.len() implies noted_dist2(
                #[trigger] at_high[j],
                q,
            ) <= noted_dist2(at_low[i], q) by {
                lemma_noted_dist2(ways, q, high, o2, j);
                if j < last {
                    assert(o2[j].before(o2[last]));
                }
            }
        }
    }
}

/// The distance that a record of an answer notes is that of its hit.
proof fn lemma_noted_dist2(ways: Seq<AddressView>, q: Coord, max_rank: u8, out: Seq<Hit>, i: int)
    requires
        is_answer(ways, q, max_rank, out),
        0 <= i < out.len(),
    ensures
        noted_dist2(answer_records(ways, out)[i], q) == out[i].dist2,
{
    assert(is_candidate(ways, q, max_rank, out[i].way as int, out[i].start as int));
    let h = out[i];
    let d = dist2(h.point, q);
    assert(0 <= d) by (nonlinear_arith)
        requires
            d == (h.point.lat - q.lat) * (h.point.lat - q.lat) + (h.point.lon - q.lon) * (
            h.point.lon - q.lon),
    ;
    assert(h == crate::answer::hit_of(ways, q, h.way as int, h.start as int));
}

/// With a higher rank cutoff each record of the answer at the lower cutoff
/// is in the answer too, unless the answer at the higher cutoff is full.
pub proof fn lemma_cutoff_keeps_ways(
    ways: Seq<AddressView>,
    q: Coord,
    low: u8,
    high: u8,
    at_low: Seq<AddressView>,
    at_high: Seq<AddressView>,
)
    requires
        low <= high,
        is_find_result(ways, q, low, at_low),
        is_find_result(ways, q, high, at_high),
        at_high.len() < MAX_RESULTS,
    ensures
        forall|i: int| 0 <= i < at_low.len() ==> at_high.contains(#[trigger] at_low[i]),
{
    lemma_cutoff_loses_only_far_ways(ways, q, low, high, at_low, at_high);
}

/// An index that is saved and loaded again answers as before: loading
/// succeeds, and the index it gives has the same way table, so that every
/// lookup and every reverse query has the same result on both.
pub proof fn lemma_round_trip(
    index: GeoIndex,
    saved: Seq<AddressInfo>,
    loaded: Option<GeoIndex>,
)
    requires
        index.wf(),
        index.is_built(),
        views(saved) == index.ways(),
        loaded is Some <==> loadable(views(saved)),
        loaded matches Some(again) ==> again.wf() && again.is_built() && again.ways() == views(
            saved,
        ),
    ensures
        loaded is Some,
        loaded->0.is_built() == index.is_built(),
        loaded->0.ways() == index.ways(),
        forall|id: u32| lookup(loaded->0.ways(), id) == lookup(index.ways(), id),
        forall|q: Coord, max_rank: u8, result: Seq<AddressView>|
            is_find_result(loaded->0.ways(), q, max_rank, result) <==> is_find_result(
                index.ways(),
                q,
                max_rank,
                result,
            ),
{
    index.lemma_table_loadable();
}

/// An id that no record has is looked up in vain, and on an empty way
/// table every lookup is in vain and every reverse query returns nothing.
pub proof fn lemma_absent(ways: Seq<AddressView>, id: u32, q: Coord, max_rank: u8, result: Seq<
    AddressView,
>)
    ensures
        !has_id(ways, id) ==> lookup(ways, id) is None,
        ways.len() == 0 ==> lookup(ways, id) is None,
        ways.len() == 0 && is_find_result(ways, q, max_rank, result) ==> result.len() == 0,
{
    if ways.len() == 0 && is_find_result(ways, q, max_rank, result) {
        let out = choose|out: Seq<Hit>| #[trigger]
            is_answer(ways, q, max_rank, out) && result == answer_records(ways, out);
        if out.len() > 0 {
            assert(is_candidate(
                ways,
                q,
                max_rank,
                out[0].way as int,
                out[0].start as int,
            ));
        }
    }
}

} // verus!
