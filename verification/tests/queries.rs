use geo_index::model::SegmentRef;
use geo_index::{
    AddressInfo, Coord, GeoIndex, GeometryType, LocationCategory, LocationType, OsmNode, OsmObject,
    OsmWay, Tag, WayType,
};

/// One degree in coordinate units.
const DEG: i32 = 10_000_000;

fn node(id: i64, lat: i32, lon: i32) -> OsmObject {
    OsmObject::Node(OsmNode { id, lat, lon })
}

fn tag(key: &str, value: &str) -> Tag {
    Tag { key: key.to_string(), value: value.to_string() }
}

fn way(id: i64, nodes: &[i64], tags: Vec<Tag>) -> OsmObject {
    OsmObject::Way(OsmWay { id, nodes: nodes.to_vec(), tags })
}

fn built(objects: Vec<OsmObject>) -> GeoIndex {
    let mut index = GeoIndex::new();
    index.build(&objects);
    index
}

fn ids(found: &[AddressInfo]) -> Vec<u32> {
    found.iter().map(|r| r.osm_id).collect()
}

/// A road along the parallel `lat`, from longitude 0 to one degree.
fn parallel(id: i64, first_node: i64, lat: i32, highway: &str) -> Vec<OsmObject> {
    vec![
        node(first_node, lat, 0),
        node(first_node + 1, lat, DEG),
        way(id, &[first_node, first_node + 1], vec![tag("highway", highway)]),
    ]
}

#[test]
fn primary_line_is_ingested_and_found() {
    let index = built(vec![
        node(1, 0, 0),
        node(2, 0, DEG),
        node(3, 0, 2 * DEG),
        way(10, &[1, 2, 3], vec![tag("highway", "primary")]),
    ]);
    let record = index.get_by_id(10).unwrap();
    assert_eq!(record.geometry.kind, GeometryType::Line);
    assert_eq!(record.category, LocationCategory::Highway);
    assert_eq!(record.way_type, WayType::Primary);
    assert_eq!(record.osm_type, LocationType::Way);
    assert_eq!(record.lat, None);
    assert_eq!(record.lon, None);

    let found = index.find(5_000, 5_000, None).unwrap();
    assert_eq!(found.len(), 1);
    assert_eq!(found[0].osm_id, 10);
    assert_eq!(found[0].lat, Some(0));
    assert_eq!(found[0].lon, Some(5_000));
    assert!(found[0].lat.unwrap().abs() <= 10_000);
    assert!(found[0].lon.unwrap().abs() <= 10_000);
    assert_eq!(found[0].geometry, record.geometry);
}

#[test]
fn made_up_highway_value_is_unknown_and_not_found() {
    let mut index = GeoIndex::new();
    let report = index.build(&vec![
        node(1, 0, 0),
        node(2, 0, DEG),
        way(10, &[1, 2], vec![tag("highway", "made_up_value")]),
    ]);
    assert_eq!(report.warnings, vec!["made_up_value".to_string()]);
    let record = index.get_by_id(10).unwrap();
    assert_eq!(record.way_type, WayType::Unknown);
    assert_eq!(record.category, LocationCategory::Highway);
    assert_eq!(record.way_type.rank(), 28);
    assert_eq!(index.find(5_000, 5_000, None), Some(vec![]));
    assert_eq!(index.find(5_000, 5_000, Some(16)), Some(vec![]));
    // Only the zoom level that admits every rank returns it.
    assert_eq!(ids(&index.find(5_000, 5_000, Some(18)).unwrap()), vec![10]);
}

#[test]
fn closed_way_is_a_polygon_and_not_found() {
    let index = built(vec![
        node(1, 0, 0),
        node(2, 0, DEG),
        node(3, DEG, DEG),
        way(10, &[1, 2, 3, 1], vec![tag("highway", "primary")]),
    ]);
    let record = index.get_by_id(10).unwrap();
    assert_eq!(record.geometry.kind, GeometryType::Polygon);
    assert_eq!(record.geometry.coordinates.len(), 4);
    assert_eq!(index.find(0, 5_000, None), Some(vec![]));
    assert_eq!(index.find(0, 5_000, Some(18)), Some(vec![]));
}

#[test]
fn unseen_id_is_absent() {
    let index = built(parallel(10, 1, 0, "primary"));
    assert!(index.get_by_id(10).is_some());
    assert_eq!(index.get_by_id(11), None);
    assert_eq!(index.get_by_id(0), None);
    assert_eq!(index.get_by_id(-1), None);
}

#[test]
fn empty_source_gives_an_empty_index() {
    let mut index = GeoIndex::new();
    let report = index.build(&vec![]);
    assert_eq!(report.nodes, 0);
    assert_eq!(report.ways, 0);
    assert_eq!(report.relations, 0);
    assert_eq!(report.segments, 0);
    assert!(report.warnings.is_empty());
    assert_eq!(index.find(0, 0, None), Some(vec![]));
    assert_eq!(index.find(123, -456, Some(18)), Some(vec![]));
    assert_eq!(index.get_by_id(0), None);
    assert_eq!(index.get_by_id(42), None);
    assert_eq!(index.way_count(), 0);
}

#[test]
fn index_without_build_answers_nothing() {
    let index = GeoIndex::new();
    assert_eq!(index.find(0, 0, None), None);
    assert_eq!(index.find(0, 0, Some(18)), None);
    assert_eq!(index.get_by_id(1), None);
    assert_eq!(index.segment_count(), 0);
}

#[test]
fn segment_count_is_the_sum_over_ways() {
    let mut index = GeoIndex::new();
    let report = index.build(&vec![
        node(1, 0, 0),
        node(2, 0, 10),
        node(3, 0, 20),
        node(4, 0, 30),
        way(10, &[1, 2, 3, 4], vec![]),
        way(11, &[1], vec![]),
        way(12, &[], vec![]),
        way(13, &[2, 3], vec![]),
        way(14, &[1, 2, 3, 1], vec![]),
        OsmObject::Relation,
        OsmObject::Relation,
    ]);
    assert_eq!(report.nodes, 4);
    assert_eq!(report.ways, 5);
    assert_eq!(report.relations, 2);
    assert_eq!(report.segments, 3 + 0 + 0 + 1 + 3);
    assert_eq!(index.segment_count(), 7);
    assert_eq!(index.way_count(), 5);
}

#[test]
fn answer_has_each_way_once() {
    // One way with many segments near the query point.
    let mut objects = Vec::new();
    let mut nodes = Vec::new();
    for i in 0..20 {
        objects.push(node(i, 0, (i as i32) * 1_000));
        nodes.push(i);
    }
    objects.push(way(10, &nodes, vec![tag("highway", "residential")]));
    let index = built(objects);
    assert_eq!(index.segment_count(), 19);
    let found = index.find(100, 9_500, None).unwrap();
    assert_eq!(ids(&found), vec![10]);
    assert_eq!(found[0].lat, Some(0));
    assert_eq!(found[0].lon, Some(9_500));
}

#[test]
fn answer_holds_the_five_nearest_ways_in_order() {
    let mut objects = Vec::new();
    // Seven parallel roads, 1000 units apart, north of the query point;
    // they come in no particular order.
    for (k, step) in [4i32, 1, 6, 3, 7, 2, 5].iter().enumerate() {
        objects.extend(parallel(100 + *step as i64, 10 * (k as i64 + 1), step * 1_000, "primary"));
    }
    let index = built(objects);
    let found = index.find(0, 500_000, None).unwrap();
    assert_eq!(ids(&found), vec![101, 102, 103, 104, 105]);
    for (k, record) in found.iter().enumerate() {
        assert_eq!(record.lat, Some((k as i32 + 1) * 1_000));
        assert_eq!(record.lon, Some(500_000));
    }
    // From the other side the order is the other way round.
    let found = index.find(8_000, 500_000, None).unwrap();
    assert_eq!(ids(&found), vec![107, 106, 105, 104, 103]);
}

#[test]
fn ties_go_to_the_way_that_came_first() {
    let mut objects = parallel(20, 1, 1_000, "primary");
    objects.extend(parallel(10, 3, -1_000, "primary"));
    let index = built(objects);
    let found = index.find(0, 500_000, None).unwrap();
    assert_eq!(ids(&found), vec![20, 10]);
}

#[test]
fn roads_beyond_the_tolerance_are_left_out() {
    let mut objects = parallel(1, 1, 60_000, "primary");
    objects.extend(parallel(2, 3, -60_001, "primary"));
    let index = built(objects);
    let found = index.find(0, 500_000, None).unwrap();
    assert_eq!(ids(&found), vec![1]);
    assert_eq!(found[0].lat, Some(60_000));
    assert_eq!(index.find(-1, 500_000, None).unwrap().len(), 1);
    assert_eq!(ids(&index.find(-1, 500_000, None).unwrap()), vec![2]);
    // Diagonal distance counts, not the distance along one axis.
    let index = built(parallel(1, 1, 0, "primary"));
    assert_eq!(ids(&index.find(36_000, -48_000, None).unwrap()), vec![1]);
    assert_eq!(index.find(36_000, -48_001, None), Some(vec![]));
    assert_eq!(index.find(36_001, -48_000, None), Some(vec![]));
}

#[test]
fn nearest_point_is_clamped_to_the_segment() {
    let index = built(parallel(1, 1, 0, "primary"));
    let found = index.find(10_000, -20_000, None).unwrap();
    assert_eq!((found[0].lat, found[0].lon), (Some(0), Some(0)));
    let found = index.find(-10_000, DEG + 20_000, None).unwrap();
    assert_eq!((found[0].lat, found[0].lon), (Some(0), Some(DEG)));
}

#[test]
fn category_and_rank_filter() {
    let mut objects = Vec::new();
    objects.push(node(1, 0, 0));
    objects.push(node(2, 0, DEG));
    objects.push(way(1, &[1, 2], vec![tag("highway", "footway")]));
    objects.push(way(2, &[1, 2], vec![tag("railway", "rail")]));
    objects.push(way(3, &[1, 2], vec![tag("highway", "motorway")]));
    objects.push(way(4, &[1, 2], vec![]));
    let index = built(objects);
    assert_eq!(index.get_by_id(2).unwrap().category, LocationCategory::Unknown);
    assert_eq!(index.get_by_id(2).unwrap().way_type, WayType::Unknown);
    assert_eq!(ids(&index.find(0, 5, None).unwrap()), vec![3]);
    assert_eq!(ids(&index.find(0, 5, Some(16)).unwrap()), vec![3]);
    assert_eq!(ids(&index.find(0, 5, Some(17)).unwrap()), vec![1, 3]);
    assert_eq!(ids(&index.find(0, 5, Some(18)).unwrap()), vec![1, 3]);
    assert_eq!(ids(&index.find(0, 5, Some(19)).unwrap()), vec![1, 3]);
    assert_eq!(ids(&index.find(0, 5, Some(15)).unwrap()), Vec::<u32>::new());
    assert_eq!(ids(&index.find(0, 5, Some(0)).unwrap()), Vec::<u32>::new());
}

#[test]
fn finer_zoom_returns_what_coarser_zoom_returns() {
    let mut objects = parallel(1, 1, 1_000, "footway");
    objects.extend(parallel(2, 3, 2_000, "primary"));
    objects.extend(parallel(3, 5, 3_000, "track"));
    objects.extend(parallel(4, 7, 4_000, "secondary"));
    let index = built(objects);
    let mut previous: Vec<u32> = Vec::new();
    for zoom in 0..=18u8 {
        let found = ids(&index.find(0, 500_000, Some(zoom)).unwrap());
        assert!(found.len() < 5);
        for id in &previous {
            assert!(found.contains(id));
        }
        previous = found;
    }
    assert_eq!(previous, vec![1, 2, 3, 4]);
    assert_eq!(ids(&index.find(0, 500_000, Some(16)).unwrap()), vec![2, 4]);
}

#[test]
fn full_answer_at_finer_zoom_may_drop_a_far_way() {
    // Five minor roads nearer than one major road.
    let mut objects = Vec::new();
    for k in 1..=5i64 {
        objects.extend(parallel(k, 10 * k, (k as i32) * 1_000, "footway"));
    }
    objects.extend(parallel(6, 60, 6_000, "primary"));
    let index = built(objects);
    assert_eq!(ids(&index.find(0, 500_000, Some(16)).unwrap()), vec![6]);
    assert_eq!(ids(&index.find(0, 500_000, Some(17)).unwrap()), vec![1, 2, 3, 4, 5]);
}

#[test]
fn repeated_queries_return_the_same() {
    let mut objects = parallel(1, 1, 1_000, "primary");
    objects.extend(parallel(2, 3, 2_000, "primary"));
    let index = built(objects);
    let first = index.find(0, 500_000, None);
    let second = index.find(0, 500_000, None);
    assert_eq!(first, second);
    assert_eq!(first.unwrap().len(), 2);
    assert_eq!(index.get_by_id(1), index.get_by_id(1));
    assert!(index.get_by_id(1).is_some());
}

#[test]
fn saved_and_loaded_index_answers_the_same() {
    let mut objects = parallel(1, 1, 1_000, "primary");
    objects.extend(parallel(2, 3, 2_000, "footway"));
    objects.push(way(3, &[1, 2, 3, 4, 1], vec![tag("highway", "primary"), tag("name", "Ring")]));
    let index = built(objects);
    let saved = index.save();
    assert_eq!(saved.len(), 3);
    let again = GeoIndex::load(saved).unwrap();
    assert_eq!(again.segment_count(), index.segment_count());
    for id in [-1i64, 0, 1, 2, 3, 4] {
        assert_eq!(again.get_by_id(id), index.get_by_id(id));
    }
    for zoom in [None, Some(0u8), Some(16), Some(17), Some(18), Some(30)] {
        for (lat, lon) in [(0, 0), (0, 500_000), (1_500, 700_000), (2_000, DEG), (90_000, 0)] {
            assert_eq!(again.find(lat, lon, zoom), index.find(lat, lon, zoom));
        }
    }
    assert_eq!(ids(&again.find(0, 500_000, Some(17)).unwrap()), vec![1, 2]);
}

#[test]
fn load_refuses_what_is_no_way_table() {
    let index = built(parallel(1, 1, 0, "primary"));
    let mut twice = index.save();
    twice.extend(index.save());
    assert!(GeoIndex::load(twice).is_none());

    let mut wrong_kind = index.save();
    wrong_kind[0].geometry.kind = GeometryType::Polygon;
    assert!(GeoIndex::load(wrong_kind).is_none());

    let mut located = index.save();
    located[0].lat = Some(1);
    assert!(GeoIndex::load(located).is_none());

    assert!(GeoIndex::load(Vec::new()).is_some());
    assert_eq!(GeoIndex::load(Vec::new()).unwrap().find(0, 0, None), Some(vec![]));
}

#[test]
fn unresolved_nodes_are_dropped() {
    let index = built(vec![
        node(1, 5, 6),
        node(3, 7, 8),
        way(10, &[1, 2, 3, 4], vec![tag("highway", "primary")]),
        way(11, &[2, 4], vec![tag("highway", "primary")]),
        way(12, &[9, 1], vec![]),
        node(9, 1, 1),
    ]);
    let record = index.get_by_id(10).unwrap();
    assert_eq!(record.geometry.kind, GeometryType::Line);
    assert_eq!(record.geometry.coordinates.len(), 2);
    assert_eq!((record.geometry.coordinates[0].lat, record.geometry.coordinates[0].lon), (5, 6));
    assert_eq!((record.geometry.coordinates[1].lat, record.geometry.coordinates[1].lon), (7, 8));
    let record = index.get_by_id(11).unwrap();
    assert_eq!(record.geometry.kind, GeometryType::Empty);
    assert!(record.geometry.coordinates.is_empty());
    // A node that comes after the way does not count for it.
    let record = index.get_by_id(12).unwrap();
    assert_eq!(record.geometry.kind, GeometryType::Point);
    assert_eq!(index.segment_count(), 1);
}

#[test]
fn later_way_with_the_same_id_takes_the_place() {
    let mut objects = parallel(1, 1, 0, "primary");
    objects.extend(parallel(2, 3, 1_000, "primary"));
    objects.push(node(5, 50 * DEG, 0));
    objects.push(node(6, 50 * DEG, 10));
    objects.push(node(7, 50 * DEG, 20));
    objects.push(way(1, &[5, 6, 7], vec![tag("highway", "service"), tag("name", "New")]));
    let mut index = GeoIndex::new();
    let report = index.build(&objects);
    assert_eq!(report.ways, 3);
    assert_eq!(index.way_count(), 2);
    assert_eq!(report.segments, 1 + 2);
    let record = index.get_by_id(1).unwrap();
    assert_eq!(record.name, "New");
    assert_eq!(record.way_type, WayType::Service);
    // The segments of the first version are gone from the tree.
    assert_eq!(ids(&index.find(0, 500_000, None).unwrap()), vec![2]);
    assert_eq!(ids(&index.find(50 * DEG, 5, Some(17)).unwrap()), vec![1]);
    // The record keeps the place of the first version in the table.
    assert_eq!(ids(&index.save()), vec![1, 2]);
}

#[test]
fn way_id_is_kept_by_its_low_32_bits() {
    let mut objects = vec![node(1, 0, 0), node(2, 0, 10)];
    objects.push(way((1i64 << 32) + 7, &[1, 2], vec![tag("highway", "primary")]));
    let index = built(objects);
    assert_eq!(index.get_by_id(7).unwrap().osm_id, 7);
    assert_eq!(index.get_by_id((1i64 << 32) + 7).unwrap().osm_id, 7);
    assert_eq!(index.get_by_id((5i64 << 32) + 7).unwrap().osm_id, 7);
    assert_eq!(index.get_by_id(8), None);
    let index = built(vec![way(-1, &[], vec![])]);
    assert_eq!(index.get_by_id(-1).unwrap().osm_id, u32::MAX);
    assert_eq!(index.get_by_id(u32::MAX as i64).unwrap().osm_id, u32::MAX);
}

#[test]
fn build_drops_what_the_index_held() {
    let mut index = GeoIndex::new();
    index.build(&parallel(1, 1, 0, "primary"));
    index.build(&parallel(2, 1, 0, "primary"));
    assert_eq!(index.get_by_id(1), None);
    assert_eq!(ids(&index.find(0, 5, None).unwrap()), vec![2]);
}

#[test]
fn far_corners_of_the_coordinate_range() {
    let index = built(vec![
        node(1, i32::MIN, i32::MIN),
        node(2, i32::MAX, i32::MAX),
        node(3, i32::MAX, i32::MIN),
        way(1, &[1, 2], vec![tag("highway", "primary")]),
        way(2, &[2, 3], vec![tag("highway", "primary")]),
    ]);
    let found = index.find(i32::MAX, i32::MAX, None).unwrap();
    assert_eq!(ids(&found), vec![1, 2]);
    assert_eq!((found[0].lat, found[0].lon), (Some(i32::MAX), Some(i32::MAX)));
    let found = index.find(i32::MIN, i32::MIN, None).unwrap();
    assert_eq!(ids(&found), vec![1]);
    assert_eq!((found[0].lat, found[0].lon), (Some(i32::MIN), Some(i32::MIN)));
    let found = index.find(0, 0, None).unwrap();
    assert_eq!(ids(&found), vec![1]);
    assert_eq!((found[0].lat, found[0].lon), (Some(0), Some(0)));
    let found = index.find(i32::MAX, 0, None).unwrap();
    assert_eq!(ids(&found), vec![2]);
    assert_eq!((found[0].lat, found[0].lon), (Some(i32::MAX), Some(0)));
}

fn segments(index: &GeoIndex, a: (i32, i32), b: (i32, i32)) -> Vec<(usize, usize)> {
    let found: Vec<SegmentRef> =
        index.segments_in(Coord { lat: a.0, lon: a.1 }, Coord { lat: b.0, lon: b.1 });
    let mut found: Vec<(usize, usize)> = found.iter().map(|s| (s.way, s.start)).collect();
    found.sort();
    found
}

#[test]
fn window_search_returns_the_segments_whose_boxes_meet_it() {
    let index = built(vec![
        node(1, 0, 0),
        node(2, 0, 10),
        node(3, 10, 10),
        node(4, 10, 30),
        node(5, 100, 100),
        node(6, 120, 90),
        way(7, &[1, 2, 3, 4], vec![]),
        way(8, &[1], vec![]),
        way(9, &[6, 5], vec![]),
        // A diagonal: its box is met where the segment itself is not.
        way(10, &[1, 5], vec![]),
    ]);
    let all = vec![(0, 0), (0, 1), (0, 2), (2, 0), (3, 0)];
    assert_eq!(segments(&index, (i32::MIN, i32::MIN), (i32::MAX, i32::MAX)), all);
    // The corners may come in any order.
    assert_eq!(segments(&index, (i32::MAX, i32::MIN), (i32::MIN, i32::MAX)), all);
    assert_eq!(segments(&index, (0, 0), (0, 0)), vec![(0, 0), (3, 0)]);
    assert_eq!(segments(&index, (10, 10), (10, 10)), vec![(0, 1), (0, 2), (3, 0)]);
    assert_eq!(segments(&index, (0, 10), (0, 10)), vec![(0, 0), (0, 1), (3, 0)]);
    assert_eq!(segments(&index, (5, 11), (9, 40)), vec![(3, 0)]);
    assert_eq!(segments(&index, (90, 5), (95, 6)), vec![(3, 0)]);
    // Touching counts.
    assert_eq!(segments(&index, (120, 101), (200, 200)), vec![]);
    assert_eq!(segments(&index, (120, 100), (200, 200)), vec![(2, 0)]);
    assert_eq!(segments(&index, (121, 100), (200, 200)), vec![]);
    assert_eq!(segments(&index, (-5, -5), (-1, 50)), vec![]);
    assert_eq!(segments(&index, (-5, -5), (0, -1)), vec![]);
    assert_eq!(segments(&index, (100, 90), (120, 100)), vec![(2, 0), (3, 0)]);
    assert_eq!(segments(&GeoIndex::new(), (i32::MIN, i32::MIN), (i32::MAX, i32::MAX)), vec![]);
}

#[test]
fn window_search_in_a_large_index() {
    // A grid of short roads; enough of them for a tree of several levels.
    let mut objects = Vec::new();
    let mut id = 0i64;
    for row in 0..40i32 {
        for col in 0..40i32 {
            objects.push(node(2 * id, row * 1_000, col * 1_000));
            objects.push(node(2 * id + 1, row * 1_000 + 100, col * 1_000 + 100));
            objects.push(way(id, &[2 * id, 2 * id + 1], vec![tag("highway", "road")]));
            id += 1;
        }
    }
    let index = built(objects);
    assert_eq!(index.segment_count(), 1_600);
    let found = segments(&index, (4_950, 9_950), (7_000, 12_000));
    let mut expected = Vec::new();
    for row in 5..=7usize {
        for col in 10..=12usize {
            expected.push((row * 40 + col, 0));
        }
    }
    assert_eq!(found, expected);
    // The five nearest roads to a point between four of them.
    let near = ids(&index.find(5_450, 10_450, None).unwrap());
    assert_eq!(near.len(), 5);
    assert_eq!(near[0], 5 * 40 + 10);
    for id in &near {
        let (row, col) = (id / 40, id % 40);
        assert!((4..=7).contains(&row) && (9..=12).contains(&col));
    }
}
