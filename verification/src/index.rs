//! The index: the way table, and the spatial tree over its segments.

use crate::answer::{
    admitted, answer_records, hit_of, is_answer, is_candidate, is_find_result, max_rank_for_zoom,
    rank_cutoff, DEFAULT_MAX_RANK,
};
use crate::geometry::{
    bounds_of, distance_squared, lemma_near_segment_meets_window, nearest_on_segment,
    query_window, segment_bounds, window_of, Coord, TOLERANCE_SQUARED,
};
use crate::kinds::{GeometryType, LocationCategory};
use crate::model::{
    box_of, boxes_of, distinct_ids, fits, key_of, lemma_position_unique, lemma_segments_cover,
    lemma_segments_distinct, lemma_segments_len, lemma_segments_valid, lookup, segment_at,
    segment_count, segment_ends, segment_meets, segments_of, total_segments, way_key,
    way_segments, SegmentRef,
};
use crate::record::{view_of, views, AddressInfo, AddressView};
use crate::select::{chosen_way, select_nearest, Hit, MAX_RESULTS};
use crate::tree::{
    tree_boxes, tree_bulk_load, tree_locate_intersecting, SegmentBox, SegmentTree,
};
use std::collections::HashMap;
use vstd::prelude::*;

verus! {

broadcast use vstd::std_specs::hash::group_hash_axioms;

/// The map from ids to positions is that of the table.
pub open spec fn slots_match(slots: Map<u32, usize>, ways: Seq<AddressView>) -> bool {
    &&& forall|i: int|
        0 <= i < ways.len() ==> slots.contains_key((#[trigger] ways[i]).osm_id)
            && slots[ways[i].osm_id] == i
    &&& forall|id: u32| #[trigger]
        slots.contains_key(id) ==> slots[id] < ways.len() && ways[slots[id] as int].osm_id == id
}

/// A table with a map from its ids to their positions has distinct ids.
pub proof fn lemma_slots_distinct(slots: Map<u32, usize>, ways: Seq<AddressView>)
    requires
        slots_match(slots, ways),
    ensures
        distinct_ids(ways),
{
}

/// The table of a vector of records is one that a machine can hold.
pub proof fn lemma_table_fits(records: &Vec<AddressInfo>)
    ensures
        fits(views(records@)),
{
    let table = views(records@);
    assert(records.len() == records@.len());
    assert forall|w: int| 0 <= w < table.len() implies (
    #[trigger] table[w]).geometry.coordinates.len() <= usize::MAX by {
        assert(table[w].geometry.coordinates == records@[w].geometry.coordinates@);
        assert(records@[w].geometry.coordinates.len() == records@[w].geometry.coordinates@.len());
    }
}

/// The way table with its spatial tree.
pub struct GeoIndex {
    built: bool,
    ways: Vec<AddressInfo>,
    slots: HashMap<u32, usize>,
    segments: Vec<SegmentRef>,
    tree: SegmentTree,
}

/// The spatial tree over the segments of a way table, and the segments by
/// id.
pub fn build_tree(ways: &Vec<AddressInfo>) -> (r: (SegmentTree, Vec<SegmentRef>))
    ensures
        r.1@ == segments_of(views(ways@)),
        tree_boxes(r.0) == boxes_of(views(ways@), r.1@).to_multiset(),
{
    let ghost table = views(ways@);
    let mut segments: Vec<SegmentRef> = Vec::new();
    let mut boxes: Vec<SegmentBox> = Vec::new();
    let mut w: usize = 0;
    assert(table.take(0) =~= Seq::<AddressView>::empty());
    while w < ways.len()
        invariant
            w <= ways.len(),
            table == views(ways@),
            segments@ == segments_of(table.take(w as int)),
            boxes@ == boxes_of(table, segments@),
            forall|i: int| 0 <= i < boxes@.len() ==> (#[trigger] boxes@[i]).bounds.ordered(),
        decreases ways.len() - w,
    {
        let points = &ways[w].geometry.coordinates;
        let n = points.len();
        let ghost head = segments@;
        assert(table[w as int].geometry.coordinates == points@);
        let mut k: usize = 0;
        assert(way_segments(w as int, n as nat).take(0) =~= Seq::<SegmentRef>::empty());
        assert(head + Seq::<SegmentRef>::empty() =~= head);
        while k + 1 < n
            invariant
                w < ways.len(),
                n == points@.len(),
                points@ == table[w as int].geometry.coordinates,
                table == views(ways@),
                k <= segment_count(n as nat),
                segments@ == head + way_segments(w as int, n as nat).take(k as int),
                boxes@ == boxes_of(table, segments@),
                forall|i: int| 0 <= i < boxes@.len() ==> (#[trigger] boxes@[i]).bounds.ordered(),
            decreases n - k,
        {
            let bounds = segment_bounds(points[k], points[k + 1]);
            let ghost before = segments@;
            let ghost id = segments@.len() as int;
            boxes.push(SegmentBox { bounds, segment: segments.len() });
            segments.push(SegmentRef { way: w, start: k });
            proof {
                let tail = way_segments(w as int, n as nat);
                assert(tail[k as int] == SegmentRef { way: w, start: k });
                assert(tail.take(k + 1) =~= tail.take(k as int).push(tail[k as int]));
                assert(segments@ =~= head + tail.take(k + 1));
                assert(box_of(table, segments@, id) == SegmentBox { bounds, segment: id as usize });
                assert forall|s: int| 0 <= s < id implies box_of(table, segments@, s) == box_of(
                    table,
                    before,
                    s,
                ) by {
                    assert(segments@[s] == before[s]);
                }
                assert(boxes@ =~= boxes_of(table, segments@));
            }
            k += 1;
        }
        proof {
            let tail = way_segments(w as int, n as nat);
            assert(tail.take(k as int) =~= tail);
            assert(table.take(w + 1).drop_last() =~= table.take(w as int));
            assert(table.take(w + 1).last() == table[w as int]);
        }
        w += 1;
    }
    assert(table.take(w as int) =~= table);
    let tree = tree_bulk_load(boxes);
    (tree, segments)
}

impl GeoIndex {
    /// The way table: the records in the order in which their ids first
    /// came.
    pub closed spec fn ways(&self) -> Seq<AddressView> {
        views(self.ways@)
    }

    /// Whether a build has filled the index.
    pub closed spec fn is_built(&self) -> bool {
        self.built
    }

    /// The invariant of the index: the ids of the table are distinct and
    /// mapped to their positions, each record is as stored, and the tree
    /// holds the bounding boxes of exactly the segments of the table.
    pub closed spec fn wf(&self) -> bool {
        &&& slots_match(self.slots@, self.ways())
        &&& forall|i: int| 0 <= i < self.ways().len() ==> (#[trigger] self.ways()[i]).stored()
        &&& self.segments@ == segments_of(self.ways())
        &&& tree_boxes(self.tree) == boxes_of(self.ways(), self.segments@).to_multiset()
        &&& !self.built ==> self.ways().len() == 0
    }

    /// The built index over a way table.
    pub(crate) fn from_table(ways: Vec<AddressInfo>, slots: HashMap<u32, usize>) -> (index:
        GeoIndex)
        requires
            slots_match(slots@, views(ways@)),
            forall|i: int| 0 <= i < ways@.len() ==> (#[trigger] views(ways@)[i]).stored(),
        ensures
            index.wf(),
            index.is_built(),
            index.ways() == views(ways@),
    {
        let (tree, segments) = build_tree(&ways);
        GeoIndex { built: true, ways, slots, segments, tree }
    }

    /// An index that no build has filled yet.
    pub fn new() -> (index: GeoIndex)
        ensures
            index.wf(),
            !index.is_built(),
            index.ways() == Seq::<AddressView>::empty(),
    {
        let ways: Vec<AddressInfo> = Vec::new();
        let (tree, segments) = build_tree(&ways);
        let index = GeoIndex { built: false, ways, slots: HashMap::new(), segments, tree };
        assert(index.ways() =~= Seq::<AddressView>::empty());
        index
    }
}

/// Whether a reverse query with the given rank cutoff may return the way.
pub fn is_admitted(rec: &AddressInfo, max_rank: u8) -> (b: bool)
    ensures
        b == admitted(rec@, max_rank),
{
    let linear = match rec.geometry.kind {
        GeometryType::Polygon => false,
        GeometryType::MultiPolygon => false,
        _ => true,
    };
    let highway = match rec.category {
        LocationCategory::Highway => true,
        LocationCategory::Unknown => false,
    };
    linear && highway && rec.way_type.rank() <= max_rank
}

impl GeoIndex {
    /// The number of segments in the tree.
    pub fn segment_count(&self) -> (n: usize)
        requires
            self.wf(),
        ensures
            n == total_segments(self.ways()),
    {
        proof {
            lemma_segments_len(self.ways());
        }
        self.segments.len()
    }

    /// The number of ways in the table.
    pub fn way_count(&self) -> (n: usize)
        ensures
            n == self.ways().len(),
    {
        self.ways.len()
    }

    /// The record of the way with the given id, as it is stored.
    pub fn get_by_id(&self, id: i64) -> (r: Option<AddressInfo>)
        requires
            self.wf(),
        ensures
            view_of(r) == lookup(self.ways(), way_key(id)),
            r matches Some(rec) ==> rec@.stored(),
    {
        let key = key_of(id);
        proof {
            lemma_slots_distinct(self.slots@, self.ways());
        }
        match self.slots.get(&key) {
            Some(pos) => {
                proof {
                    lemma_position_unique(self.ways(), *pos as int);
                }
                Some(self.ways[*pos].clone())
            },
            None => None,
        }
    }

    /// The segments whose bounding boxes meet the box with the corners `a`
    /// and `b`, touching included: each of them once, in no stated order.
    pub fn segments_in(&self, a: Coord, b: Coord) -> (found: Vec<SegmentRef>)
        requires
            self.wf(),
        ensures
            found@.no_duplicates(),
            forall|i: int|
                0 <= i < found@.len() ==> segment_meets(
                    self.ways(),
                    (#[trigger] found@[i]).way as int,
                    found@[i].start as int,
                    bounds_of(a, b),
                ),
            forall|w: int, k: int| #[trigger]
                segment_meets(self.ways(), w, k, bounds_of(a, b)) ==> found@.contains(
                    SegmentRef { way: w as usize, start: k as usize },
                ),
    {
        let ghost table = self.ways();
        let ghost all = boxes_of(table, self.segments@);
        let window = segment_bounds(a, b);
        let boxes = tree_locate_intersecting(&self.tree, window);
        proof {
            broadcast use vstd::multiset::group_multiset_axioms;

            lemma_table_fits(&self.ways);
            assert(self.segments.len() == self.segments@.len());
            boxes@.to_multiset_ensures();
            all.to_multiset_ensures();
            let meets = |b: SegmentBox| b.bounds.intersects(window);
            assert forall|b: SegmentBox| boxes@.contains(b) <==> (all.contains(b) && meets(b)) by {
                assert(boxes@.to_multiset().count(b) == if meets(b) {
                    all.to_multiset().count(b)
                } else {
                    0
                });
            }
            assert(all.no_duplicates()) by {
                assert forall|s: int, t: int| 0 <= s < all.len() && 0 <= t < all.len() && s
                    != t implies all[s] != all[t] by {
                    assert(all[s].segment == s && all[t].segment == t);
                }
            }
            all.lemma_multiset_has_no_duplicates();
            assert forall|b: SegmentBox| boxes@.to_multiset().contains(b) implies boxes@
                .to_multiset().count(b) == 1 by {
                assert(boxes@.to_multiset().count(b) == if meets(b) {
                    all.to_multiset().count(b)
                } else {
                    0
                });
            }
            boxes@.lemma_multiset_has_no_duplicates_conv();
        }
        let mut found: Vec<SegmentRef> = Vec::new();
        let mut c: usize = 0;
        while c < boxes.len()
            invariant
                c <= boxes.len(),
                self.wf(),
                table == self.ways(),
                all == boxes_of(table, self.segments@),
                all.len() == self.segments@.len(),
                fits(table),
                forall|b: SegmentBox|
                    boxes@.contains(b) <==> (all.contains(b) && b.bounds.intersects(window)),
                found@.len() == c,
                forall|i: int|
                    0 <= i < c ==> (#[trigger] boxes@[i]).segment < self.segments@.len()
                        && boxes@[i] == all[boxes@[i].segment as int] && found@[i]
                        == self.segments@[boxes@[i].segment as int],
            decreases boxes.len() - c,
        {
            let s = boxes[c].segment;
            proof {
                assert(boxes@.contains(boxes@[c as int]));
                assert(all.contains(boxes@[c as int]));
                let at = choose|at: int| 0 <= at < all.len() && all[at] == boxes@[c as int];
                assert(all[at] == box_of(table, self.segments@, at));
                assert(self.segments.len() == self.segments@.len());
                assert(s == at);
            }
            found.push(self.segments[s]);
            c += 1;
        }
        proof {
            assert forall|i: int| 0 <= i < found@.len() implies segment_meets(
                table,
                (#[trigger] found@[i]).way as int,
                found@[i].start as int,
                window,
            ) by {
                let s = boxes@[i].segment as int;
                lemma_segments_valid(table, s);
                assert(boxes@.contains(boxes@[i]));
                assert(all.contains(boxes@[i]));
                assert(boxes@[i].bounds.intersects(window));
                assert(all[s] == box_of(table, self.segments@, s));
                assert(found@[i] == self.segments@[s]);
            }
            assert forall|w: int, k: int| #[trigger]
                segment_meets(table, w, k, window) implies found@.contains(
                SegmentRef { way: w as usize, start: k as usize },
            ) by {
                let s = lemma_segments_cover(table, w, k);
                assert(all[s] == box_of(table, self.segments@, s));
                assert(all.contains(all[s]));
                assert(boxes@.contains(all[s]));
                let j = choose|j: int| 0 <= j < boxes@.len() && boxes@[j] == all[s];
                assert(boxes@[j].segment == s);
                assert(found@[j] == self.segments@[s]);
            }
            assert forall|i: int, j: int|
                0 <= i < found@.len() && 0 <= j < found@.len() && i != j implies found@[i]
                != found@[j] by {
                let s = boxes@[i].segment as int;
                let t = boxes@[j].segment as int;
                assert(boxes@[i] != boxes@[j]);
                if s < t {
                    lemma_segments_distinct(table, s, t);
                } else if t < s {
                    lemma_segments_distinct(table, t, s);
                }
            }
        }
        found
    }

    /// The hits of the query at `q`: one for each segment that counts.
    fn collect_hits(&self, q: Coord, max_rank: u8) -> (hits: Vec<Hit>)
        requires
            self.wf(),
        ensures
            forall|i: int|
                0 <= i < hits@.len() ==> is_candidate(
                    self.ways(),
                    q,
                    max_rank,
                    (#[trigger] hits@[i]).way as int,
                    hits@[i].start as int,
                ) && hits@[i] == hit_of(self.ways(), q, hits@[i].way as int, hits@[i].start as int),
            forall|w: int, k: int| #[trigger]
                is_candidate(self.ways(), q, max_rank, w, k) ==> hits@.contains(
                    hit_of(self.ways(), q, w, k),
                ),
    {
        let ghost table = self.ways();
        let window = query_window(q);
        let low = Coord { lat: window.min_lat, lon: window.min_lon };
        let high = Coord { lat: window.max_lat, lon: window.max_lon };
        let found = self.segments_in(low, high);
        proof {
            lemma_table_fits(&self.ways);
            assert(bounds_of(low, high) == window);
        }
        let mut hits: Vec<Hit> = Vec::new();
        let mut c: usize = 0;
        while c < found.len()
            invariant
                c <= found.len(),
                self.wf(),
                table == self.ways(),
                fits(table),
                window == window_of(q),
                forall|i: int|
                    0 <= i < found@.len() ==> segment_at(
                        table,
                        (#[trigger] found@[i]).way as int,
                        found@[i].start as int,
                    ),
                forall|w: int, k: int| #[trigger]
                    segment_meets(table, w, k, window) ==> found@.contains(
                        SegmentRef { way: w as usize, start: k as usize },
                    ),
                forall|i: int|
                    0 <= i < hits@.len() ==> is_candidate(
                        table,
                        q,
                        max_rank,
                        (#[trigger] hits@[i]).way as int,
                        hits@[i].start as int,
                    ) && hits@[i] == hit_of(table, q, hits@[i].way as int, hits@[i].start as int),
                forall|j: int|
                    0 <= j < c && is_candidate(
                        table,
                        q,
                        max_rank,
                        (#[trigger] found@[j]).way as int,
                        found@[j].start as int,
                    ) ==> hits@.contains(
                        hit_of(table, q, found@[j].way as int, found@[j].start as int),
                    ),
            decreases found.len() - c,
        {
            let seg = found[c];
            assert(segment_at(table, seg.way as int, seg.start as int));
            let rec = &self.ways[seg.way];
            let ghost prev = hits@;
            if is_admitted(rec, max_rank) {
                let a = rec.geometry.coordinates[seg.start];
                let b = rec.geometry.coordinates[seg.start + 1];
                let p = nearest_on_segment(a, b, q);
                let d = distance_squared(p, q);
                if d <= TOLERANCE_SQUARED as u128 {
                    hits.push(Hit { way: seg.way, start: seg.start, dist2: d as u64, point: p });
                    assert(hits@.last() == hit_of(table, q, seg.way as int, seg.start as int));
                }
            }
            proof {
                assert forall|h: Hit| prev.contains(h) implies hits@.contains(h) by {
                    let i = choose|i: int| 0 <= i < prev.len() && prev[i] == h;
                    assert(hits@[i] == h);
                }
                if is_candidate(table, q, max_rank, seg.way as int, seg.start as int) {
                    assert(hits@[hits@.len() - 1] == hit_of(
                        table,
                        q,
                        seg.way as int,
                        seg.start as int,
                    ));
                }
            }
            c += 1;
        }
        proof {
            assert forall|w: int, k: int| #[trigger]
                is_candidate(table, q, max_rank, w, k) implies hits@.contains(
                hit_of(table, q, w, k),
            ) by {
                let (a, b) = segment_ends(table, w, k);
                lemma_near_segment_meets_window(a, b, q);
                assert(segment_meets(table, w, k, window));
                let seg = SegmentRef { way: w as usize, start: k as usize };
                assert(found@.contains(seg));
                let j = choose|j: int| 0 <= j < found@.len() && found@[j] == seg;
                assert(found@[j].way as int == w && found@[j].start as int == k);
            }
        }
        hits
    }
}

impl GeoIndex {
    /// The ways nearest to `q` among those of rank `max_rank` or better:
    /// see `is_answer`.
    pub fn find_within(&self, q: Coord, max_rank: u8) -> (found: Vec<AddressInfo>)
        requires
            self.wf(),
        ensures
            is_find_result(self.ways(), q, max_rank, views(found@)),
            found@.len() <= MAX_RESULTS,
            distinct_ids(views(found@)),
    {
        let ghost table = self.ways();
        let hits = self.collect_hits(q, max_rank);
        let out = select_nearest(&hits);
        proof {
            assert forall|i: int| 0 <= i < out@.len() implies is_candidate(
                table,
                q,
                max_rank,
                (#[trigger] out@[i]).way as int,
                out@[i].start as int,
            ) && out@[i] == hit_of(table, q, out@[i].way as int, out@[i].start as int) by {
                assert(hits@.contains(out@[i]));
                let j = choose|j: int| 0 <= j < hits@.len() && hits@[j] == out@[i];
                assert(hits@[j] == out@[i]);
            }
            assert forall|i: int, k: int|
                0 <= i < out@.len() && #[trigger] is_candidate(
                    table,
                    q,
                    max_rank,
                    out@[i].way as int,
                    k,
                ) implies !hit_of(table, q, out@[i].way as int, k).before(out@[i]) by {
                let h = hit_of(table, q, out@[i].way as int, k);
                assert(hits@.contains(h));
                let j = choose|j: int| 0 <= j < hits@.len() && hits@[j] == h;
                assert(hits@[j].way == out@[i].way);
            }
            assert forall|w: int, k: int| #[trigger]
                is_candidate(table, q, max_rank, w, k) implies chosen_way(out@, w as usize) || (
            out@.len() == MAX_RESULTS && out@.last().before(hit_of(table, q, w, k))) by {
                let h = hit_of(table, q, w, k);
                assert(hits@.contains(h));
                let j = choose|j: int| 0 <= j < hits@.len() && hits@[j] == h;
                assert(hits@[j].way == w as usize);
            }
            assert(is_answer(table, q, max_rank, out@));
        }
        let mut found: Vec<AddressInfo> = Vec::new();
        let mut i: usize = 0;
        while i < out.len()
            invariant
                i <= out.len(),
                self.wf(),
                table == self.ways(),
                is_answer(table, q, max_rank, out@),
                found@.len() == i,
                forall|j: int|
                    0 <= j < i ==> (#[trigger] found@[j])@ == table[out@[j].way as int].located_at(
                        out@[j].point,
                    ),
            decreases out.len() - i,
        {
            let h = out[i];
            assert(is_candidate(table, q, max_rank, h.way as int, h.start as int));
            found.push(self.ways[h.way].located_at(h.point));
            i += 1;
        }
        proof {
            assert(views(found@) =~= answer_records(table, out@));
            lemma_slots_distinct(self.slots@, table);
            crate::answer::lemma_answer_distinct_ids(table, q, max_rank, out@);
        }
        found
    }

    /// The ways nearest to the position, for the given zoom level or, with
    /// none given, for the default rank cutoff. `None` where no build has
    /// filled the index.
    pub fn find(&self, lat: i32, lon: i32, zoom: Option<u8>) -> (r: Option<Vec<AddressInfo>>)
        requires
            self.wf(),
        ensures
            r is Some <==> self.is_built(),
            match r {
                Some(found) => is_find_result(
                    self.ways(),
                    Coord { lat, lon },
                    rank_cutoff(zoom),
                    views(found@),
                ) && found@.len() <= MAX_RESULTS && distinct_ids(views(found@)),
                None => true,
            },
    {
        if !self.built {
            return None;
        }
        let max_rank = match zoom {
            Some(z) => max_rank_for_zoom(z),
            None => DEFAULT_MAX_RANK,
        };
        Some(self.find_within(Coord { lat, lon }, max_rank))
    }
}

/// The records can be the way table of an index: their ids are distinct
/// and each is as stored.
pub open spec fn loadable(ways: Seq<AddressView>) -> bool {
    &&& distinct_ids(ways)
    &&& forall|i: int| 0 <= i < ways.len() ==> (#[trigger] ways[i]).stored()
}

impl GeoIndex {
    /// The way table of an index can be loaded.
    pub proof fn lemma_table_loadable(&self)
        requires
            self.wf(),
        ensures
            loadable(self.ways()),
            !self.is_built() ==> self.ways().len() == 0,
    {
        lemma_slots_distinct(self.slots@, self.ways());
    }

    /// The way table, record by record: what is to be kept of the index
    /// to have it again without a build.
    pub fn save(&self) -> (records: Vec<AddressInfo>)
        ensures
            views(records@) == self.ways(),
    {
        let mut records: Vec<AddressInfo> = Vec::new();
        let mut i: usize = 0;
        while i < self.ways.len()
            invariant
                i <= self.ways.len(),
                records@.len() == i,
                forall|j: int| 0 <= j < i ==> (#[trigger] records@[j])@ == self.ways@[j]@,
            decreases self.ways.len() - i,
        {
            records.push(self.ways[i].clone());
            i += 1;
        }
        assert(views(records@) =~= views(self.ways@));
        records
    }

    /// The index over a way table that was saved. `None` where the records
    /// are not the way table of any index.
    pub fn load(records: Vec<AddressInfo>) -> (r: Option<GeoIndex>)
        ensures
            r is Some <==> loadable(views(records@)),
            match r {
                Some(index) => index.wf() && index.is_built() && index.ways() == views(records@),
                None => true,
            },
    {
        let ghost table = views(records@);
        let mut slots: HashMap<u32, usize> = HashMap::new();
        let mut i: usize = 0;
        assert(table.take(0) =~= Seq::<AddressView>::empty());
        while i < records.len()
            invariant
                i <= records.len(),
                table == views(records@),
                slots_match(slots@, table.take(i as int)),
                forall|j: int| 0 <= j < i ==> (#[trigger] table[j]).stored(),
            decreases records.len() - i,
        {
            let ghost head = table.take(i as int);
            if !records[i].is_stored() {
                assert(!table[i as int].stored());
                return None;
            }
            let key = records[i].osm_id;
            if slots.get(&key).is_some() {
                proof {
                    let j = slots@[key] as int;
                    assert(head[j].osm_id == key);
                    assert(table[j].osm_id == table[i as int].osm_id);
                }
                return None;
            }
            slots.insert(key, i);
            proof {
                let next = table.take(i + 1);
                assert forall|j: int| 0 <= j < next.len() implies slots@.contains_key(
                    (#[trigger] next[j]).osm_id,
                ) && slots@[next[j].osm_id] == j by {
                    if j < i {
                        assert(head[j] == next[j]);
                    }
                }
                assert forall|id: u32| #[trigger] slots@.contains_key(id) implies slots@[id]
                    < next.len() && next[slots@[id] as int].osm_id == id by {
                    if id != key {
                        assert(head[slots@[id] as int] == next[slots@[id] as int]);
                    }
                }
            }
            i += 1;
        }
        assert(table.take(i as int) =~= table);
        proof {
            lemma_slots_distinct(slots@, table);
        }
        Some(GeoIndex::from_table(records, slots))
    }
}

} // verus!
