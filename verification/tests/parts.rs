use geo_index::answer::{max_rank_for_zoom, DEFAULT_MAX_RANK};
use geo_index::geometry::{
    distance_squared, nearest_on_segment, query_window, segment_bounds, Bounds, TOLERANCE,
    TOLERANCE_SQUARED,
};
use geo_index::index::is_admitted;
use geo_index::ingest::{resolve_nodes, TagKeys};
use geo_index::select::{select_nearest, Hit, MAX_RESULTS};
use geo_index::tags::{find_tag, parse_lanes, TagClassifier, WAY_TYPES};
use geo_index::{
    AddressInfo, Coord, GeometryInfo, GeometryType, IndexBuilder, LocationCategory,
    LocationExtraTask, LocationType, OsmNode, OsmObject, OsmWay, Tag, WayType,
};
use std::collections::HashMap;

fn at(lat: i32, lon: i32) -> Coord {
    Coord { lat, lon }
}

fn tag(key: &str, value: &str) -> Tag {
    Tag { key: key.to_string(), value: value.to_string() }
}

fn hit(way: usize, start: usize, dist2: u64) -> Hit {
    Hit { way, start, dist2, point: at(0, 0) }
}

fn record(kind: GeometryType, category: LocationCategory, way_type: WayType) -> AddressInfo {
    AddressInfo {
        place_id: None,
        osm_id: 1,
        osm_type: LocationType::Way,
        name: String::new(),
        lat: None,
        lon: None,
        category,
        way_type,
        extra_tags: LocationExtraTask { oneway: None, max_speed: None, lanes: None, turn_lanes: None },
        geometry: GeometryInfo { kind, coordinates: Vec::new() },
    }
}

#[test]
fn geometry_kind_by_point_count_and_closure() {
    assert_eq!(GeometryType::from_points(&[]), GeometryType::Empty);
    assert_eq!(GeometryType::from_points(&[at(1, 1)]), GeometryType::Point);
    assert_eq!(GeometryType::from_points(&[at(1, 1), at(2, 2)]), GeometryType::Line);
    // Two equal points are a line: a polygon needs three.
    assert_eq!(GeometryType::from_points(&[at(1, 1), at(1, 1)]), GeometryType::Line);
    assert_eq!(GeometryType::from_points(&[at(1, 1), at(2, 2), at(3, 3)]), GeometryType::Line);
    assert_eq!(GeometryType::from_points(&[at(1, 1), at(2, 2), at(1, 1)]), GeometryType::Polygon);
    assert_eq!(GeometryType::from_points(&[at(1, 1), at(2, 2), at(1, 2)]), GeometryType::Line);
    assert_eq!(GeometryType::from_points(&[at(1, 1), at(2, 2), at(2, 1)]), GeometryType::Line);
    assert_eq!(
        GeometryType::from_points(&[at(0, 0), at(0, 1), at(1, 1), at(0, 0)]),
        GeometryType::Polygon
    );
    let points = [at(0, 0), at(0, 1), at(0, 2)];
    assert_eq!(GeometryType::from(&points[..]), GeometryType::Line);
    assert_eq!(GeometryInfo::new(points.to_vec()).kind, GeometryType::Line);
    assert_eq!(GeometryInfo::new(points.to_vec()).coordinates, points.to_vec());
}

#[test]
fn rank_table() {
    let minor = [
        WayType::Service,
        WayType::Cycleway,
        WayType::Path,
        WayType::Footway,
        WayType::Steps,
        WayType::Bridleway,
        WayType::Track,
    ];
    let major = [
        WayType::MotorwayLink,
        WayType::PrimaryLink,
        WayType::TrunkLink,
        WayType::SecondaryLink,
        WayType::TertiaryLink,
        WayType::Residential,
        WayType::Unclassified,
        WayType::Tertiary,
        WayType::Secondary,
        WayType::Primary,
        WayType::LivingStreet,
        WayType::Trunk,
        WayType::Motorway,
        WayType::Pedestrian,
        WayType::Road,
        WayType::Construction,
    ];
    for t in minor {
        assert_eq!(t.rank(), 27);
    }
    for t in major {
        assert_eq!(t.rank(), 26);
    }
    assert_eq!(WayType::Unknown.rank(), 28);
    assert_eq!(minor.len() + major.len() + 1, WAY_TYPES);
    for i in 0..WAY_TYPES - 1 {
        assert!(WayType::at(i).rank() < WayType::Unknown.rank());
    }
}

#[test]
fn zoom_table() {
    let expected: [u8; 20] =
        [2, 2, 2, 4, 4, 8, 10, 10, 12, 12, 16, 17, 18, 19, 22, 25, 26, 27, 30, 27];
    for (zoom, rank) in expected.iter().enumerate() {
        assert_eq!(max_rank_for_zoom(zoom as u8), *rank);
    }
    assert_eq!(max_rank_for_zoom(200), 27);
    assert_eq!(max_rank_for_zoom(255), 27);
    assert_eq!(DEFAULT_MAX_RANK, 26);
}

#[test]
fn admission_by_kind_category_and_rank() {
    let highway = LocationCategory::Highway;
    assert!(is_admitted(&record(GeometryType::Line, highway, WayType::Primary), 26));
    assert!(!is_admitted(&record(GeometryType::Line, highway, WayType::Primary), 25));
    assert!(!is_admitted(&record(GeometryType::Line, highway, WayType::Footway), 26));
    assert!(is_admitted(&record(GeometryType::Line, highway, WayType::Footway), 27));
    assert!(!is_admitted(&record(GeometryType::Line, highway, WayType::Unknown), 27));
    assert!(is_admitted(&record(GeometryType::Line, highway, WayType::Unknown), 28));
    assert!(is_admitted(&record(GeometryType::Point, highway, WayType::Primary), 26));
    assert!(is_admitted(&record(GeometryType::Empty, highway, WayType::Primary), 26));
    assert!(!is_admitted(&record(GeometryType::Polygon, highway, WayType::Primary), 255));
    assert!(!is_admitted(&record(GeometryType::MultiPolygon, highway, WayType::Primary), 255));
    assert!(!is_admitted(
        &record(GeometryType::Line, LocationCategory::Unknown, WayType::Primary),
        255
    ));
}

#[test]
fn way_type_names_parse_back() {
    let classifier = TagClassifier::new();
    let names = [
        "service",
        "cycleway",
        "path",
        "footway",
        "steps",
        "bridleway",
        "motorway_link",
        "primary_link",
        "trunk_link",
        "secondary_link",
        "tertiary_link",
        "residential",
        "track",
        "unclassified",
        "tertiary",
        "secondary",
        "primary",
        "living_street",
        "trunk",
        "motorway",
        "pedestrian",
        "road",
        "construction",
        "unknown",
    ];
    assert_eq!(names.len(), WAY_TYPES);
    for (i, name) in names.iter().enumerate() {
        let t = WayType::at(i);
        assert_eq!(t.index(), i);
        assert_eq!(t.name(), *name);
        assert_eq!(classifier.parse(&name.to_string()), Some(t));
    }
    assert_eq!(WayType::at(0), WayType::Service);
    assert_eq!(WayType::at(16), WayType::Primary);
    assert_eq!(WayType::at(23), WayType::Unknown);
    assert_eq!(WayType::at(24), WayType::Unknown);
    assert_eq!(WayType::at(usize::MAX), WayType::Unknown);
    assert_eq!(WayType::Primary.index(), 16);
    for wrong in ["", "Primary", "PRIMARY", "primary ", " primary", "motorwaylink", "LivingStreet",
        "living street", "made_up_value", "primary_"]
    {
        assert_eq!(classifier.parse(&wrong.to_string()), None);
    }
}

#[test]
fn first_tag_with_the_key_counts() {
    let tags = vec![tag("a", "1"), tag("b", "2"), tag("a", "3"), tag("", "4")];
    assert_eq!(find_tag(&tags, &"a".to_string()), Some(&"1".to_string()));
    assert_eq!(find_tag(&tags, &"b".to_string()), Some(&"2".to_string()));
    assert_eq!(find_tag(&tags, &"".to_string()), Some(&"4".to_string()));
    assert_eq!(find_tag(&tags, &"c".to_string()), None);
    assert_eq!(find_tag(&tags, &"A".to_string()), None);
    assert_eq!(find_tag(&Vec::new(), &"a".to_string()), None);
}

#[test]
fn classifier_reports_each_value_once() {
    let mut classifier = TagClassifier::new();
    let odd = vec![tag("name", "x"), tag("highway", "odd")];
    let c = classifier.classify(&odd);
    assert_eq!(c.category, LocationCategory::Highway);
    assert_eq!(c.way_type, WayType::Unknown);
    assert_eq!(c.warning, Some("odd".to_string()));
    let c = classifier.classify(&odd);
    assert_eq!(c.way_type, WayType::Unknown);
    assert_eq!(c.warning, None);
    let c = classifier.classify(&vec![tag("highway", "other")]);
    assert_eq!(c.warning, Some("other".to_string()));
    let c = classifier.classify(&vec![tag("highway", "odd")]);
    assert_eq!(c.warning, None);
    let c = classifier.classify(&vec![tag("highway", "trunk_link")]);
    assert_eq!(c.category, LocationCategory::Highway);
    assert_eq!(c.way_type, WayType::TrunkLink);
    assert_eq!(c.warning, None);
    // The name of the unknown type is a name like the others.
    let c = classifier.classify(&vec![tag("highway", "unknown")]);
    assert_eq!(c.way_type, WayType::Unknown);
    assert_eq!(c.warning, None);
    let c = classifier.classify(&vec![tag("railway", "rail")]);
    assert_eq!(c.category, LocationCategory::Unknown);
    assert_eq!(c.way_type, WayType::Unknown);
    assert_eq!(c.warning, None);
    let c = classifier.classify(&vec![]);
    assert_eq!(c.category, LocationCategory::Unknown);
    assert_eq!(c.warning, None);
    // A new classifier has met nothing.
    let mut fresh = TagClassifier::new();
    assert_eq!(fresh.classify(&odd).warning, Some("odd".to_string()));
}

#[test]
fn lanes_are_read_as_std_reads_a_u8() {
    for text in ["0", "1", "2", "9", "10", "255", "256", "999", "007", "000255", "0000256", "+3",
        "+", "", "-1", "-0", "+-1", "++1", "1+", " 1", "1 ", "2;3", "1.5", "two", "1e2", "0x10",
        "4294967296", "99999999999999999999999999", "٣", "１"]
    {
        assert_eq!(parse_lanes(&text.to_string()), text.parse::<u8>().ok(), "{:?}", text);
    }
    assert_eq!(parse_lanes(&"2".to_string()), Some(2));
    assert_eq!(parse_lanes(&"+255".to_string()), Some(255));
    assert_eq!(parse_lanes(&"256".to_string()), None);
}

#[test]
fn name_and_extra_tags_are_kept() {
    let keys = TagKeys::new();
    let tags = vec![
        tag("highway", "primary"),
        tag("name", "High Street"),
        tag("oneway", "yes"),
        tag("maxspeed", "50"),
        tag("lanes", "2"),
        tag("turn:lanes", "left|through"),
    ];
    assert_eq!(keys.name_of(&tags), "High Street");
    assert_eq!(
        keys.extra_tags(&tags),
        LocationExtraTask {
            oneway: Some("yes".to_string()),
            max_speed: Some("50".to_string()),
            lanes: Some(2),
            turn_lanes: Some("left|through".to_string()),
        }
    );
    let bare = vec![tag("highway", "primary"), tag("lanes", "many")];
    assert_eq!(keys.name_of(&bare), "");
    assert_eq!(
        keys.extra_tags(&bare),
        LocationExtraTask { oneway: None, max_speed: None, lanes: None, turn_lanes: None }
    );
}

#[test]
fn nodes_resolve_in_order() {
    let mut table = HashMap::new();
    table.insert(1i64, at(10, 11));
    table.insert(2i64, at(20, 21));
    assert_eq!(resolve_nodes(&vec![2, 1, 3, 2], &table), vec![at(20, 21), at(10, 11), at(20, 21)]);
    assert_eq!(resolve_nodes(&vec![3, 4], &table), vec![]);
    assert_eq!(resolve_nodes(&vec![], &table), vec![]);
}

#[test]
fn squared_distance() {
    assert_eq!(distance_squared(at(0, 0), at(3, 4)), 25);
    assert_eq!(distance_squared(at(-3, 4), at(0, 0)), 25);
    assert_eq!(distance_squared(at(7, 7), at(7, 7)), 0);
    assert_eq!(distance_squared(at(0, 0), at(36_000, 48_000)), TOLERANCE_SQUARED as u128);
    assert_eq!(TOLERANCE_SQUARED, (TOLERANCE as u64) * (TOLERANCE as u64));
    let span = (i32::MAX as i128 - i32::MIN as i128) as u128;
    assert_eq!(
        distance_squared(at(i32::MIN, i32::MIN), at(i32::MAX, i32::MAX)),
        2 * span * span
    );
}

#[test]
fn nearest_point_on_a_segment() {
    let a = at(0, 0);
    let b = at(0, 100);
    assert_eq!(nearest_on_segment(a, b, at(5, 50)), at(0, 50));
    assert_eq!(nearest_on_segment(a, b, at(-5, 0)), at(0, 0));
    assert_eq!(nearest_on_segment(a, b, at(5, -1)), at(0, 0));
    assert_eq!(nearest_on_segment(a, b, at(5, 100)), at(0, 100));
    assert_eq!(nearest_on_segment(a, b, at(5, 1_000)), at(0, 100));
    assert_eq!(nearest_on_segment(b, a, at(5, 30)), at(0, 30));
    // A segment of one point.
    assert_eq!(nearest_on_segment(at(3, 4), at(3, 4), at(100, 100)), at(3, 4));
    // The projection is rounded toward the first end.
    let c = at(10, 10);
    assert_eq!(nearest_on_segment(a, c, at(0, 10)), at(5, 5));
    assert_eq!(nearest_on_segment(a, c, at(0, 9)), at(4, 4));
    assert_eq!(nearest_on_segment(c, a, at(0, 9)), at(5, 5));
    assert_eq!(nearest_on_segment(a, at(3, 1), at(1, 0)), at(0, 0));
    assert_eq!(nearest_on_segment(at(3, 1), a, at(1, 0)), at(1, 1));
    assert_eq!(nearest_on_segment(a, at(-10, 10), at(-3, 4)), at(-3, 3));
    // The whole coordinate range.
    let low = at(i32::MIN, i32::MIN);
    let high = at(i32::MAX, i32::MAX);
    assert_eq!(nearest_on_segment(low, high, at(0, 0)), at(0, 0));
    assert_eq!(nearest_on_segment(low, high, high), high);
    assert_eq!(nearest_on_segment(low, high, low), low);
    assert_eq!(nearest_on_segment(high, low, at(i32::MAX, i32::MIN)), at(0, 0));
    assert_eq!(nearest_on_segment(low, high, at(i32::MAX, i32::MIN)), at(-1, -1));
}

#[test]
fn bounds_and_window() {
    assert_eq!(
        segment_bounds(at(5, -2), at(-3, 7)),
        Bounds { min_lat: -3, min_lon: -2, max_lat: 5, max_lon: 7 }
    );
    assert_eq!(
        segment_bounds(at(1, 2), at(1, 2)),
        Bounds { min_lat: 1, min_lon: 2, max_lat: 1, max_lon: 2 }
    );
    assert_eq!(
        query_window(at(100, -100)),
        Bounds { min_lat: -59_900, min_lon: -60_100, max_lat: 60_100, max_lon: 59_900 }
    );
    assert_eq!(
        query_window(at(i32::MIN, i32::MAX)),
        Bounds {
            min_lat: i32::MIN,
            min_lon: i32::MAX - 60_000,
            max_lat: i32::MIN + 60_000,
            max_lon: i32::MAX,
        }
    );
    assert_eq!(
        query_window(at(i32::MIN + 59_999, i32::MAX - 59_999)).min_lat,
        i32::MIN
    );
    assert_eq!(query_window(at(i32::MIN + 60_000, 0)).min_lat, i32::MIN);
    assert_eq!(query_window(at(i32::MIN + 60_001, 0)).min_lat, i32::MIN + 1);
    assert_eq!(query_window(at(0, i32::MAX - 60_001)).max_lon, i32::MAX - 1);
}

#[test]
fn selection_of_hits() {
    assert_eq!(select_nearest(&vec![]), vec![]);
    let hits = vec![
        hit(3, 0, 50),
        hit(1, 4, 20),
        hit(1, 2, 10),
        hit(2, 0, 10),
        hit(1, 3, 10),
        hit(3, 1, 5),
        hit(1, 2, 10),
    ];
    assert_eq!(select_nearest(&hits), vec![hit(3, 1, 5), hit(1, 2, 10), hit(2, 0, 10)]);
    let many: Vec<Hit> = (0..9).map(|w| hit(w, 0, 100 - w as u64)).collect();
    let out = select_nearest(&many);
    assert_eq!(out.len(), MAX_RESULTS);
    assert_eq!(out, vec![hit(8, 0, 92), hit(7, 0, 93), hit(6, 0, 94), hit(5, 0, 95), hit(4, 0, 96)]);
    let one_way: Vec<Hit> = (0..9).map(|k| hit(7, k, 30)).collect();
    assert_eq!(select_nearest(&one_way), vec![hit(7, 0, 30)]);
}

#[test]
fn builder_takes_objects_one_by_one() {
    let mut builder = IndexBuilder::new();
    builder.add_node(&OsmNode { id: 1, lat: 0, lon: 0 });
    assert_eq!(builder.add(&OsmObject::Node(OsmNode { id: 2, lat: 0, lon: 1_000 })), None);
    let odd = OsmWay { id: 5, nodes: vec![1, 2], tags: vec![tag("highway", "odd")] };
    assert_eq!(builder.add_way(&odd), Some("odd".to_string()));
    assert_eq!(builder.add_way(&odd), None);
    let good = OsmWay { id: 6, nodes: vec![2, 1], tags: vec![tag("highway", "road")] };
    assert_eq!(builder.add(&OsmObject::Way(good)), None);
    builder.add_relation();
    assert_eq!(builder.add(&OsmObject::Relation), None);
    assert_eq!(builder.node_count(), 2);
    assert_eq!(builder.way_count(), 3);
    assert_eq!(builder.relation_count(), 2);
    let index = builder.finish();
    assert_eq!(index.way_count(), 2);
    assert_eq!(index.segment_count(), 2);
    let found = index.find(10, 400, None).unwrap();
    assert_eq!(found.len(), 1);
    assert_eq!(found[0].osm_id, 6);
    assert_eq!((found[0].lat, found[0].lon), (Some(0), Some(400)));
    assert_eq!(found[0].geometry.coordinates, vec![at(0, 1_000), at(0, 0)]);
}

#[test]
fn record_copy_with_a_point_noted() {
    let plain = record(GeometryType::Empty, LocationCategory::Highway, WayType::Road);
    assert!(plain.is_stored());
    let noted = plain.located_at(at(3, -4));
    assert_eq!(noted.lat, Some(3));
    assert_eq!(noted.lon, Some(-4));
    assert!(!noted.is_stored());
    assert_eq!(noted.way_type, WayType::Road);
    assert_eq!(plain.clone(), plain);
    assert!(!record(GeometryType::Line, LocationCategory::Highway, WayType::Road).is_stored());
    assert!(!record(GeometryType::Empty, LocationCategory::Unknown, WayType::Road).is_stored());
    assert!(record(GeometryType::Empty, LocationCategory::Unknown, WayType::Unknown).is_stored());
}
