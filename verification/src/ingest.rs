//! Ingestion: from the objects of a map extract, in the order in which
//! they come, to the way table.

use crate::geometry::{classify_points, Coord};
use crate::index::{loadable, slots_match, GeoIndex};
use crate::kinds::LocationType;
use crate::model::{
    distinct_ids, has_id, key_of, lemma_position_unique, lemma_upsert_distinct, lookup,
    position_of, total_segments, upsert, way_key,
};
use crate::record::{
    text_of, views, AddressInfo, AddressView, ExtraTagsView, GeometryInfo, GeometryView,
    LocationExtraTask,
};
use crate::tags::{
    classify_tags, find_tag, lemma_warned_once, no_repeats, parse_lanes, parse_u8, tag_value, texts,
    unrecognised_value, Tag, TagClassifier,
};
use std::collections::HashMap;
use vstd::prelude::*;

verus! {

broadcast use vstd::std_specs::hash::group_hash_axioms;

/// A node of the extract: an id and a position.
#[derive(Clone, Copy, Debug, PartialEq, Eq)]
pub struct OsmNode {
    pub id: i64,
    pub lat: i32,
    pub lon: i32,
}

/// A way of the extract: an id, the ids of its nodes in order, and tags.
#[derive(Debug, PartialEq, Eq)]
pub struct OsmWay {
    pub id: i64,
    pub nodes: Vec<i64>,
    pub tags: Vec<Tag>,
}

/// An object of the extract. Of a relation nothing is read.
#[derive(Debug, PartialEq, Eq)]
pub enum OsmObject {
    Node(OsmNode),
    Way(OsmWay),
    Relation,
}

/// The positions of the node ids that the node table knows, in order; an
/// id that it does not know is passed over.
pub open spec fn resolve(node_ids: Seq<i64>, nodes: Map<i64, Coord>) -> Seq<Coord>
    decreases node_ids.len(),
{
    if node_ids.len() == 0 {
        Seq::empty()
    } else if nodes.contains_key(node_ids.last()) {
        resolve(node_ids.drop_last(), nodes).push(nodes[node_ids.last()])
    } else {
        resolve(node_ids.drop_last(), nodes)
    }
}

/// The tags that a record keeps beside its classification.
pub open spec fn extra_tags_of(tags: Seq<Tag>) -> ExtraTagsView {
    ExtraTagsView {
        oneway: tag_value(tags, "oneway"@),
        max_speed: tag_value(tags, "maxspeed"@),
        lanes: match tag_value(tags, "lanes"@) {
            Some(v) => parse_u8(v),
            None => None,
        },
        turn_lanes: tag_value(tags, "turn:lanes"@),
    }
}

/// The record that a way gives, with the node table as it stands when the
/// way comes.
pub open spec fn way_record(way: OsmWay, nodes: Map<i64, Coord>) -> AddressView {
    let points = resolve(way.nodes@, nodes);
    AddressView {
        place_id: None,
        osm_id: way_key(way.id),
        osm_type: LocationType::Way,
        name: match tag_value(way.tags@, "name"@) {
            Some(n) => n,
            None => Seq::empty(),
        },
        lat: None,
        lon: None,
        category: classify_tags(way.tags@).0,
        way_type: classify_tags(way.tags@).1,
        extra_tags: extra_tags_of(way.tags@),
        geometry: GeometryView { kind: classify_points(points), coordinates: points },
    }
}

/// A count that stops at the greatest number it can hold.
pub open spec fn bump(c: u64) -> u64 {
    if c == u64::MAX {
        c
    } else {
        (c + 1) as u64
    }
}

/// What has been ingested so far.
pub struct Ingested {
    /// The node table.
    pub nodes: Map<i64, Coord>,
    /// The way table.
    pub ways: Seq<AddressView>,
    /// The unrecognised `highway` values met, each once.
    pub warned: Seq<Seq<char>>,
    pub node_count: u64,
    pub way_count: u64,
    pub relation_count: u64,
}

/// Nothing ingested.
pub open spec fn nothing() -> Ingested {
    Ingested {
        nodes: Map::empty(),
        ways: Seq::empty(),
        warned: Seq::empty(),
        node_count: 0,
        way_count: 0,
        relation_count: 0,
    }
}

/// The unrecognised `highway` value that an object brings for the first
/// time.
pub open spec fn warning_of(st: Ingested, obj: OsmObject) -> Option<Seq<char>> {
    match obj {
        OsmObject::Way(way) => match unrecognised_value(way.tags@) {
            Some(v) => if st.warned.contains(v) {
                None
            } else {
                Some(v)
            },
            None => None,
        },
        _ => None,
    }
}

/// One step of ingestion. A node enters the node table. A way is resolved
/// against the node table, classified, and put in the way table under its
/// id. A relation is counted.
pub open spec fn step(st: Ingested, obj: OsmObject) -> Ingested {
    match obj {
        OsmObject::Node(node) => Ingested {
            nodes: st.nodes.insert(node.id, Coord { lat: node.lat, lon: node.lon }),
            node_count: bump(st.node_count),
            ..st
        },
        OsmObject::Way(way) => Ingested {
            ways: upsert(st.ways, way_record(way, st.nodes)),
            warned: match warning_of(st, obj) {
                Some(v) => st.warned.push(v),
                None => st.warned,
            },
            way_count: bump(st.way_count),
            ..st
        },
        OsmObject::Relation => Ingested { relation_count: bump(st.relation_count), ..st },
    }
}

/// The ingestion of a sequence of objects, first to last.
pub open spec fn ingest(objects: Seq<OsmObject>) -> Ingested
    decreases objects.len(),
{
    if objects.len() == 0 {
        nothing()
    } else {
        step(ingest(objects.drop_last()), objects.last())
    }
}

/// Adds one to a count, unless it is at its greatest.
fn bumped(c: u64) -> (r: u64)
    ensures
        r == bump(c),
{
    if c == u64::MAX {
        c
    } else {
        c + 1
    }
}

/// The keys of the tags that a record keeps.
pub struct TagKeys {
    name: String,
    oneway: String,
    maxspeed: String,
    lanes: String,
    turn_lanes: String,
}

impl TagKeys {
    /// Each key is the one it stands for.
    pub closed spec fn wf(&self) -> bool {
        &&& self.name@ == "name"@
        &&& self.oneway@ == "oneway"@
        &&& self.maxspeed@ == "maxspeed"@
        &&& self.lanes@ == "lanes"@
        &&& self.turn_lanes@ == "turn:lanes"@
    }

    /// The keys.
    pub fn new() -> (keys: TagKeys)
        ensures
            keys.wf(),
    {
        TagKeys {
            name: "name".to_owned(),
            oneway: "oneway".to_owned(),
            maxspeed: "maxspeed".to_owned(),
            lanes: "lanes".to_owned(),
            turn_lanes: "turn:lanes".to_owned(),
        }
    }

    /// A copy of the value of the first tag with the key.
    fn copy_of(tags: &Vec<Tag>, key: &String) -> (r: Option<String>)
        ensures
            text_of(r) == tag_value(tags@, key@),
    {
        match find_tag(tags, key) {
            Some(v) => Some(v.clone()),
            None => None,
        }
    }

    /// The name of a way: its `name` tag, or the empty text.
    pub fn name_of(&self, tags: &Vec<Tag>) -> (name: String)
        requires
            self.wf(),
        ensures
            name@ == match tag_value(tags@, "name"@) {
                Some(n) => n,
                None => Seq::empty(),
            },
    {
        match find_tag(tags, &self.name) {
            Some(v) => v.clone(),
            None => String::new(),
        }
    }

    /// The tags that a record keeps beside its classification.
    pub fn extra_tags(&self, tags: &Vec<Tag>) -> (extra: LocationExtraTask)
        requires
            self.wf(),
        ensures
            extra@ == extra_tags_of(tags@),
    {
        let lanes = match find_tag(tags, &self.lanes) {
            Some(v) => parse_lanes(v),
            None => None,
        };
        LocationExtraTask {
            oneway: Self::copy_of(tags, &self.oneway),
            max_speed: Self::copy_of(tags, &self.maxspeed),
            lanes,
            turn_lanes: Self::copy_of(tags, &self.turn_lanes),
        }
    }
}

/// The positions of the node ids that the node table knows, in order.
pub fn resolve_nodes(node_ids: &Vec<i64>, nodes: &HashMap<i64, Coord>) -> (points: Vec<Coord>)
    ensures
        points@ == resolve(node_ids@, nodes@),
{
    let mut points: Vec<Coord> = Vec::new();
    let mut i: usize = 0;
    while i < node_ids.len()
        invariant
            i <= node_ids.len(),
            points@ == resolve(node_ids@.take(i as int), nodes@),
        decreases node_ids.len() - i,
    {
        assert(node_ids@.take(i + 1).drop_last() =~= node_ids@.take(i as int));
        let id = node_ids[i];
        match nodes.get(&id) {
            Some(p) => {
                points.push(*p);
            },
            None => {},
        }
        i += 1;
    }
    assert(node_ids@.take(i as int) =~= node_ids@);
    points
}

/// The state of a build in progress. Objects are handed to it one by
/// one; `finish` turns what it holds into the index.
pub struct IndexBuilder {
    nodes: HashMap<i64, Coord>,
    ways: Vec<AddressInfo>,
    slots: HashMap<u32, usize>,
    classifier: TagClassifier,
    keys: TagKeys,
    node_count: u64,
    way_count: u64,
    relation_count: u64,
}

impl IndexBuilder {
    /// What has been ingested so far.
    pub closed spec fn state(&self) -> Ingested {
        Ingested {
            nodes: self.nodes@,
            ways: views(self.ways@),
            warned: self.classifier.warned(),
            node_count: self.node_count,
            way_count: self.way_count,
            relation_count: self.relation_count,
        }
    }

    /// The invariant of the builder.
    pub closed spec fn wf(&self) -> bool {
        &&& self.classifier.wf()
        &&& self.keys.wf()
        &&& slots_match(self.slots@, views(self.ways@))
        &&& forall|i: int|
            0 <= i < self.ways@.len() ==> (#[trigger] views(self.ways@)[i]).stored()
    }

    /// No unrecognised value is noted twice.
    pub proof fn lemma_warned_distinct(&self)
        requires
            self.wf(),
        ensures
            no_repeats(self.state().warned),
    {
        self.classifier.lemma_warned_distinct();
    }

    /// A builder that has ingested nothing.
    pub fn new() -> (builder: IndexBuilder)
        ensures
            builder.wf(),
            builder.state() == nothing(),
    {
        let builder = IndexBuilder {
            nodes: HashMap::new(),
            ways: Vec::new(),
            slots: HashMap::new(),
            classifier: TagClassifier::new(),
            keys: TagKeys::new(),
            node_count: 0,
            way_count: 0,
            relation_count: 0,
        };
        assert(builder.state().ways =~= Seq::<AddressView>::empty());
        builder
    }

    /// Ingests a node.
    pub fn add_node(&mut self, node: &OsmNode)
        requires
            old(self).wf(),
        ensures
            final(self).wf(),
            final(self).state() == step(old(self).state(), OsmObject::Node(*node)),
    {
        self.nodes.insert(node.id, Coord { lat: node.lat, lon: node.lon });
        self.node_count = bumped(self.node_count);
    }

    /// Ingests a relation: it is counted.
    pub fn add_relation(&mut self)
        requires
            old(self).wf(),
        ensures
            final(self).wf(),
            final(self).state() == step(old(self).state(), OsmObject::Relation),
    {
        self.relation_count = bumped(self.relation_count);
    }

    /// Puts a record in the way table.
    fn put(&mut self, rec: AddressInfo)
        requires
            old(self).wf(),
            rec@.stored(),
        ensures
            final(self).wf(),
            final(self).state() == (Ingested {
                ways: upsert(old(self).state().ways, rec@),
                ..old(self).state()
            }),
    {
        let ghost before = views(self.ways@);
        let ghost view = rec@;
        let key = rec.osm_id;
        proof {
            crate::index::lemma_slots_distinct(self.slots@, before);
        }
        let known = match self.slots.get(&key) {
            Some(pos) => Some(*pos),
            None => None,
        };
        match known {
            Some(pos) => {
                proof {
                    lemma_position_unique(before, pos as int);
                }
                self.ways.set(pos, rec);
            },
            None => {
                assert(!has_id(before, key));
                self.slots.insert(key, self.ways.len());
                self.ways.push(rec);
            },
        }
        assert(views(self.ways@) == upsert(before, view));
    }

    /// Ingests a way. Returns its `highway` value where that names no road
    /// type and was not met before: the caller reports it.
    pub fn add_way(&mut self, way: &OsmWay) -> (warning: Option<String>)
        requires
            old(self).wf(),
        ensures
            final(self).wf(),
            final(self).state() == step(old(self).state(), OsmObject::Way(*way)),
            text_of(warning) == warning_of(old(self).state(), OsmObject::Way(*way)),
    {
        let coordinates = resolve_nodes(&way.nodes, &self.nodes);
        let class = self.classifier.classify(&way.tags);
        let rec = AddressInfo {
            place_id: None,
            osm_id: key_of(way.id),
            osm_type: LocationType::Way,
            name: self.keys.name_of(&way.tags),
            lat: None,
            lon: None,
            category: class.category,
            way_type: class.way_type,
            extra_tags: self.keys.extra_tags(&way.tags),
            geometry: GeometryInfo::new(coordinates),
        };
        self.put(rec);
        self.way_count = bumped(self.way_count);
        class.warning
    }

    /// Ingests an object: see `step`.
    pub fn add(&mut self, obj: &OsmObject) -> (warning: Option<String>)
        requires
            old(self).wf(),
        ensures
            final(self).wf(),
            final(self).state() == step(old(self).state(), *obj),
            text_of(warning) == warning_of(old(self).state(), *obj),
    {
        match obj {
            OsmObject::Node(node) => {
                self.add_node(node);
                None
            },
            OsmObject::Way(way) => self.add_way(way),
            OsmObject::Relation => {
                self.add_relation();
                None
            },
        }
    }

    /// The number of nodes ingested.
    pub fn node_count(&self) -> (n: u64)
        ensures
            n == self.state().node_count,
    {
        self.node_count
    }

    /// The number of ways ingested.
    pub fn way_count(&self) -> (n: u64)
        ensures
            n == self.state().way_count,
    {
        self.way_count
    }

    /// The number of relations ingested.
    pub fn relation_count(&self) -> (n: u64)
        ensures
            n == self.state().relation_count,
    {
        self.relation_count
    }

    /// The index over the ways ingested. The node table is dropped.
    pub fn finish(self) -> (index: GeoIndex)
        requires
            self.wf(),
        ensures
            index.wf(),
            index.is_built(),
            index.ways() == self.state().ways,
    {
        GeoIndex::from_table(self.ways, self.slots)
    }
}

/// What a build has counted and met.
#[derive(Debug, PartialEq, Eq)]
pub struct BuildReport {
    /// The nodes ingested.
    pub nodes: u64,
    /// The ways ingested.
    pub ways: u64,
    /// The segments in the tree.
    pub segments: usize,
    /// The relations passed over.
    pub relations: u64,
    /// The `highway` values that name no road type, each once, in the
    /// order in which they were met.
    pub warnings: Vec<String>,
}

impl GeoIndex {
    /// Builds the index from the objects of an extract, in their order.
    /// What the index held before is dropped.
    pub fn build(&mut self, objects: &Vec<OsmObject>) -> (report: BuildReport)
        ensures
            final(self).wf(),
            final(self).is_built(),
            final(self).ways() == ingest(objects@).ways,
            report.nodes == ingest(objects@).node_count,
            report.ways == ingest(objects@).way_count,
            report.relations == ingest(objects@).relation_count,
            report.segments == total_segments(ingest(objects@).ways),
            texts(report.warnings@) == ingest(objects@).warned,
            no_repeats(texts(report.warnings@)),
    {
        let mut builder = IndexBuilder::new();
        let mut warnings: Vec<String> = Vec::new();
        let mut i: usize = 0;
        while i < objects.len()
            invariant
                i <= objects.len(),
                builder.wf(),
                builder.state() == ingest(objects@.take(i as int)),
                texts(warnings@) == builder.state().warned,
            decreases objects.len() - i,
        {
            assert(objects@.take(i + 1).drop_last() =~= objects@.take(i as int));
            match builder.add(&objects[i]) {
                Some(value) => {
                    warnings.push(value);
                },
                None => {},
            }
            i += 1;
        }
        assert(objects@.take(i as int) =~= objects@);
        let nodes = builder.node_count();
        let ways = builder.way_count();
        let relations = builder.relation_count();
        proof {
            builder.lemma_warned_distinct();
        }
        *self = builder.finish();
        let segments = self.segment_count();
        BuildReport { nodes, ways, segments, relations, warnings }
    }
}

/// A way that is ingested is then found under its id, with the record
/// that it gives; the records under other ids stay as they are.
pub proof fn lemma_way_is_kept(st: Ingested, way: OsmWay)
    requires
        distinct_ids(st.ways),
    ensures
        lookup(step(st, OsmObject::Way(way)).ways, way_key(way.id)) == Some(
            way_record(way, st.nodes),
        ),
        forall|id: u32|
            id != way_key(way.id) ==> lookup(step(st, OsmObject::Way(way)).ways, id) == lookup(
                st.ways,
                id,
            ),
{
    lemma_upsert_distinct(st.ways, way_record(way, st.nodes));
}

/// Whatever is ingested, the way table has distinct ids and each of its
/// records is as stored, no unrecognised value is noted twice; and an
/// extract without objects gives an empty way table.
pub proof fn lemma_ingest_table(objects: Seq<OsmObject>)
    ensures
        loadable(ingest(objects).ways),
        no_repeats(ingest(objects).warned),
        objects.len() == 0 ==> ingest(objects).ways.len() == 0,
    decreases objects.len(),
{
    if objects.len() > 0 {
        let st = ingest(objects.drop_last());
        lemma_ingest_table(objects.drop_last());
        match objects.last() {
            OsmObject::Way(way) => {
                let rec = way_record(way, st.nodes);
                lemma_upsert_distinct(st.ways, rec);
                match warning_of(st, objects.last()) {
                    Some(v) => {
                        lemma_warned_once(st.warned, v);
                    },
                    None => {},
                }
            },
            _ => {},
        }
    }
}

} // verus!
