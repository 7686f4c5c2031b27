//! OpenStreetMap documents, from their text to roads and buildings.
use std::collections::HashMap;
use trka::geometry::Vec3;
use trka::osm::{
    assemble, nearest_point_on_segments, parse_osm, resolve_survey, segment_pieces, survey_events, OsmData, OsmMap,
    OsmSurvey, Projection, RoadSegment, WayTag, DEFAULT_BUILDING_HEIGHT_M, METERS_PER_LEVEL,
};
use trka::single::Single;
use trka::xml::{read_xml, tell, RawEvent, XmlAttribute, XmlEvent};

fn s(x: f32) -> Single {
    Single { bits: x.to_bits() }
}

fn p(x: f32, z: f32) -> Vec3 {
    Vec3 { x: s(x), y: s(0.0), z: s(z) }
}

fn coordinates(survey: &OsmSurvey) -> Vec<Option<(u64, u64)>> {
    survey
        .nodes
        .iter()
        .map(|node| match (node.lat.parse::<f64>(), node.lon.parse::<f64>()) {
            (Ok(lat), Ok(lon)) => Some((lat.to_bits(), lon.to_bits())),
            _ => None,
        })
        .collect()
}

fn heights(survey: &OsmSurvey) -> Vec<Vec<Option<Single>>> {
    let number = |tag: &WayTag| match tag {
        WayTag::Highway | WayTag::Building => None,
        WayTag::Height(text) => text.parse::<f32>().ok().map(s),
        WayTag::Levels(text) => {
            text.parse::<f32>().ok().map(|levels| s(levels * f32::from_bits(METERS_PER_LEVEL)))
        }
    };
    survey.ways.iter().map(|way| way.tags.iter().map(number).collect()).collect()
}

fn resolved(xml: &str) -> Result<OsmMap, String> {
    let survey = parse_osm(xml)?;
    Ok(resolve_survey(&survey, &coordinates(&survey), &heights(&survey)))
}

/// Places a node at its longitude and latitude, degree for unit.
fn load(xml: &str) -> Result<OsmData, String> {
    let map = resolved(xml)?;
    let positions: HashMap<i64, Vec3> = map
        .nodes
        .iter()
        .map(|(id, (lat, lon))| (*id, p(f64::from_bits(*lon) as f32, f64::from_bits(*lat) as f32)))
        .collect();
    Ok(assemble(&map, &positions))
}

const SAMPLE: &str = r#"<?xml version="1.0" encoding="UTF-8"?>
<osm version="0.6">
  <!-- a crossing and a house -->
  <node id="1" lat="40.7480" lon="-73.9850"/>
  <node id="2" lat="40.7490" lon="-73.9840"/>
  <node id="3" lat="40.7500" lon="-73.9830"/>
  <node id="4" lat="40.7510" lon="-73.9820"/>
  <node id="5" lat="40.7485" lon="-73.9835"></node>
  <node id="6" lat="40.7487" lon="-73.9835"/>
  <node id="7" lat="40.7487" lon="-73.9832"/>
  <node id="8" lat="40.7485" lon="-73.9832"/>
  <way id="100">
    <nd ref="1"/>
    <nd ref="2"/>
    <nd ref="3"/>
    <nd ref="4"/>
    <tag k="highway" v="residential"/>
    <tag k="name" v="First &amp; Main"/>
  </way>
  <way id="101">
    <nd ref="5"/>
    <nd ref="6"/>
    <nd ref="7"/>
    <nd ref="8"/>
    <nd ref="5"/>
    <tag k="building" v="yes"/>
    <tag k="height" v="12.5 m"/>
  </way>
</osm>
"#;

#[test]
fn parse_sample_osm() {
    let data = load(SAMPLE).expect("failed to parse sample.osm");
    assert!(!data.roads.is_empty(), "expected at least one road segment");
    let total_points: usize = data.roads.iter().map(|s| s.points.len()).sum();
    assert!(total_points >= 4, "expected at least 4 road points");
    assert!(!data.buildings.is_empty(), "expected at least one building");
}

#[test]
fn sample_is_laid_out_point_by_point() {
    let data = load(SAMPLE).unwrap();
    assert_eq!(data.roads.len(), 1);
    assert_eq!(
        data.roads[0].points,
        vec![p(-73.985, 40.748), p(-73.984, 40.749), p(-73.983, 40.75), p(-73.982, 40.751)]
    );
    assert_eq!(data.buildings.len(), 1);
    assert_eq!(
        data.buildings[0].footprint,
        vec![p(-73.9835, 40.7485), p(-73.9835, 40.7487), p(-73.9832, 40.7487), p(-73.9832, 40.7485)]
    );
    assert_eq!(data.buildings[0].height, s(12.5));
}

#[test]
fn xml_is_read_event_by_event() {
    let events = read_xml(r#"<a x="1 &lt; 2" y='&bogus;'>text<b/></a>"#);
    let kinds: Vec<&str> = events
        .iter()
        .map(|event| match event {
            XmlEvent::Open { .. } => "open",
            XmlEvent::Close { .. } => "close",
            XmlEvent::Eof => "end",
            XmlEvent::Other => "other",
            XmlEvent::Failed { .. } => "failed",
        })
        .collect();
    assert_eq!(kinds, vec!["open", "other", "open", "close", "end"]);
    match &events[0] {
        XmlEvent::Open { name, attributes } => {
            assert_eq!(name, b"a");
            assert_eq!(attributes.len(), 2);
            let x = attributes[0].as_ref().unwrap();
            assert_eq!(x.0, b"x");
            assert_eq!(x.1.as_deref(), Some("1 < 2"));
            let y = attributes[1].as_ref().unwrap();
            assert_eq!(y.0, b"y");
            assert_eq!(y.1, None);
        }
        _ => panic!("expected a start tag"),
    }
    assert!(matches!(&events[3], XmlEvent::Close { name } if name == b"a"));
}

#[test]
fn repeated_attributes_are_skipped() {
    let events = read_xml(r#"<node id="1" id="2" lat="3"/>"#);
    match &events[0] {
        XmlEvent::Open { attributes, .. } => {
            assert_eq!(attributes.len(), 3);
            assert!(attributes[1].is_none());
        }
        _ => panic!("expected a tag"),
    }
    let survey = parse_osm(r#"<node id="1" id="2" lat="3" lon="4"/>"#).unwrap();
    assert_eq!(survey.nodes[0].id, 1);
}

#[test]
fn broken_xml_is_an_error() {
    let error = parse_osm("<osm><way></osm>").unwrap_err();
    assert!(error.starts_with("XML parse error: "), "{error}");
    assert!(error.len() > "XML parse error: ".len());
    assert!(load("<osm><node id=\"1\"").is_err());
}

#[test]
fn empty_document_is_an_empty_map() {
    let data = load("").unwrap();
    assert!(data.roads.is_empty());
    assert!(data.buildings.is_empty());
}

#[test]
fn events_after_the_end_are_not_read() {
    let events = vec![
        XmlEvent::Open { name: b"way".to_vec(), attributes: Vec::new() },
        XmlEvent::Close { name: b"way".to_vec() },
        XmlEvent::Eof,
        XmlEvent::Failed { message: "late".to_string() },
    ];
    let survey = survey_events(&events).unwrap();
    assert_eq!(survey.ways.len(), 1);
    assert_eq!(survey.ways[0].id, 0);
    let failing = vec![XmlEvent::Other, XmlEvent::Failed { message: "early".to_string() }, XmlEvent::Eof];
    assert_eq!(survey_events(&failing).unwrap_err(), "XML parse error: early");
}

#[test]
fn nodes_may_follow_the_ways_that_use_them() {
    let nodes = r#"<node id="1" lat="0" lon="0"/><node id="2" lat="0" lon="1"/><node id="3" lat="1" lon="1"/>"#;
    let turned = r#"<node id="3" lat="1" lon="1"/><node id="1" lat="0" lon="0"/><node id="2" lat="0" lon="1"/>"#;
    let road = r#"<way id="1"><nd ref="1"/><nd ref="3"/><tag k="highway" v="x"/></way>"#;
    let house = r#"<way id="2"><nd ref="1"/><nd ref="2"/><nd ref="3"/><tag k="building" v="x"/></way>"#;
    let first = load(&format!("<osm>{nodes}{road}{house}</osm>")).unwrap();
    for text in [
        format!("<osm>{road}{house}{nodes}</osm>"),
        format!("<osm>{road}{turned}{house}</osm>"),
        format!("<osm>{turned}{road}{house}</osm>"),
    ] {
        let other = load(&text).unwrap();
        assert_eq!(other.roads.len(), 1);
        assert_eq!(other.roads[0].points, first.roads[0].points);
        assert_eq!(other.buildings.len(), 1);
        assert_eq!(other.buildings[0].footprint, first.buildings[0].footprint);
        assert_eq!(other.buildings[0].height, first.buildings[0].height);
    }
}

#[test]
fn node_elements_move_with_what_is_inside() {
    let plain = r#"<node id="1" lat="0" lon="0"/><node id="2" lat="0" lon="1"/>"#;
    let tagged = r#"<node id="3" lat="1" lon="1"><tag k="highway" v="crossing"/><nd ref="7"/></node>"#;
    let road = r#"<way id="1"><nd ref="1"/><nd ref="3"/><tag k="highway" v="x"/></way>"#;
    let first = load(&format!("<osm>{plain}{tagged}{road}</osm>")).unwrap();
    let second = load(&format!("<osm>{plain}{road}{tagged}</osm>")).unwrap();
    let third = load(&format!("<osm>{tagged}{road}{plain}</osm>")).unwrap();
    for data in [&first, &second, &third] {
        assert_eq!(data.roads.len(), 1);
        assert_eq!(data.roads[0].points, vec![p(0.0, 0.0), p(1.0, 1.0)]);
        assert!(data.buildings.is_empty());
    }
}

#[test]
fn empty_elements_open_as_start_tags_do() {
    let tag = || (b"nd".to_vec(), vec![None, Some(XmlAttribute(b"ref".to_vec(), Some("5".to_string())))]);
    for event in [RawEvent::Opening(tag()), RawEvent::Alone(tag())] {
        match tell(Ok(event)) {
            XmlEvent::Open { name, attributes } => {
                assert_eq!(name, b"nd");
                assert_eq!(attributes.len(), 2);
                assert!(attributes[0].is_none());
            }
            _ => panic!("expected an opening"),
        }
    }
    assert!(matches!(tell(Ok(RawEvent::Closing(b"way".to_vec()))), XmlEvent::Close { name } if name == b"way"));
    assert!(matches!(tell(Ok(RawEvent::Finish)), XmlEvent::Eof));
    assert!(matches!(tell(Err("bad".to_string())), XmlEvent::Failed { message } if message == "bad"));
}

#[test]
fn what_stands_between_tags_is_of_no_account() {
    for event in [
        RawEvent::Words,
        RawEvent::Verbatim,
        RawEvent::Remark,
        RawEvent::Declaration,
        RawEvent::Instruction,
        RawEvent::Definition,
        RawEvent::Reference,
    ] {
        assert!(matches!(tell(Ok(event)), XmlEvent::Other));
    }
    let text = "<?xml version='1.0'?><!DOCTYPE a><a>x&amp;<![CDATA[y]]><!-- z --><?p q?></a>";
    let events = read_xml(text);
    assert!(matches!(events.last(), Some(XmlEvent::Eof)));
    let others = events.iter().filter(|event| matches!(event, XmlEvent::Other)).count();
    assert_eq!((others, events.len()), (7, 10));
}

#[test]
fn reading_stops_at_the_first_error() {
    let events = read_xml("</b><c/>");
    assert_eq!(events.len(), 1);
    assert!(matches!(&events[0], XmlEvent::Failed { message } if !message.is_empty()));
    let text = read_xml("a");
    assert!(matches!(&text[..], [XmlEvent::Other, XmlEvent::Eof]));
}

#[test]
fn incomplete_nodes_are_left_out() {
    let map = resolved(
        r#"<osm>
        <node lat="1" lon="2"/>
        <node id="x" lat="1" lon="2"/>
        <node id="1" lat="1"/>
        <node id="2" lat="one" lon="2"/>
        <node id="3" lat="1.5" lon="-2.5"/>
        </osm>"#,
    )
    .unwrap();
    assert_eq!(map.nodes.len(), 1);
    assert_eq!(map.nodes.get(&3), Some(&(1.5f64.to_bits(), (-2.5f64).to_bits())));
}

#[test]
fn last_node_of_an_id_counts() {
    let map = resolved(
        r#"<osm>
        <node id="1" lat="1" lon="1"/>
        <node id="1" lat="2" lon="2"/>
        <node id="1" lat="x" lon="3"/>
        </osm>"#,
    )
    .unwrap();
    assert_eq!(map.nodes.get(&1), Some(&(2f64.to_bits(), 2f64.to_bits())));
}

#[test]
fn way_runs_through_its_references_in_order() {
    let survey = parse_osm(r#"<way id="9"><nd ref="3"/><nd ref="1"/><nd ref="oops"/><nd ref="2"/></way>"#).unwrap();
    assert_eq!(survey.ways.len(), 1);
    assert_eq!(survey.ways[0].id, 9);
    assert_eq!(survey.ways[0].refs, vec![3, 1, 2]);
    assert!(survey.open_way.is_none());
}

#[test]
fn way_keeps_its_references_and_tags_apart() {
    let survey = parse_osm(
        r#"<way id="9"><nd ref="3"/><tag k="building" v="x"/><node id="5" lat="1" lon="2"/><nd ref="1"/>
        <tag k="height" v="4 m"/><tag k="building:levels" v="2"/></way>"#,
    )
    .unwrap();
    assert_eq!(survey.ways[0].refs, vec![3, 1]);
    assert_eq!(survey.nodes.len(), 1);
    let tags = &survey.ways[0].tags;
    assert_eq!(tags.len(), 3);
    assert!(matches!(&tags[0], WayTag::Building));
    assert!(matches!(&tags[1], WayTag::Height(text) if text == "4"));
    assert!(matches!(&tags[2], WayTag::Levels(text) if text == "2"));
}

#[test]
fn references_and_tags_outside_ways_are_ignored() {
    let survey = parse_osm(r#"<osm><nd ref="1"/><tag k="highway" v="x"/><way id="1"></way></osm>"#).unwrap();
    assert_eq!(survey.ways.len(), 1);
    assert!(survey.ways[0].refs.is_empty());
    assert!(survey.ways[0].tags.is_empty());
}

#[test]
fn unclosed_empty_way_element_stays_open() {
    let survey = parse_osm(r#"<osm><way id="1"/><nd ref="5"/></osm>"#).unwrap();
    assert!(survey.ways.is_empty());
    assert_eq!(survey.open_way.unwrap().refs, vec![5]);
}

fn tagged(tags: &str) -> OsmMap {
    let mut xml = String::from(r#"<way id="1"><nd ref="1"/><nd ref="2"/><nd ref="3"/>"#);
    xml.push_str(tags);
    xml.push_str("</way>");
    resolved(&xml).unwrap()
}

#[test]
fn tags_tell_roads_from_buildings() {
    assert_eq!(tagged(r#"<tag k="highway" v="x"/>"#).roads, vec![vec![1, 2, 3]]);
    assert_eq!(tagged(r#"<tag k="name" v="x"/>"#).roads.len(), 0);
    assert_eq!(tagged(r#"<tag v="x"/>"#).buildings.len(), 0);
    let building = tagged(r#"<tag k="building" v="yes"/>"#);
    assert_eq!(building.roads.len(), 0);
    assert_eq!(building.buildings[0].refs, vec![1, 2, 3]);
    assert_eq!(building.buildings[0].height, s(8.0));
    assert_eq!(f32::from_bits(DEFAULT_BUILDING_HEIGHT_M), 8.0);
    assert_eq!(tagged(r#"<tag k="building" v="x"/><tag k="highway" v="x"/>"#).roads.len(), 1);
}

#[test]
fn height_refines_buildings_only() {
    let building = r#"<tag k="building" v="yes"/>"#;
    let height = r#"<tag k="height" v=" 12.5m "/>"#;
    let after = tagged(&format!("{building}{height}"));
    assert_eq!(after.buildings[0].height, s(12.5));
    let before = tagged(&format!("{height}{building}"));
    assert_eq!(before.buildings[0].height, s(8.0));
    let unreadable = tagged(&format!("{building}<tag k=\"height\" v=\"tall\"/>"));
    assert_eq!(unreadable.buildings[0].height, s(8.0));
    let road = tagged(&format!("<tag k=\"highway\" v=\"x\"/>{height}"));
    assert_eq!(road.roads.len(), 1);
    assert_eq!(tagged(height).buildings.len(), 0);
}

#[test]
fn levels_make_a_building() {
    let levels = r#"<tag k="building:levels" v="4"/>"#;
    assert_eq!(tagged(levels).buildings[0].height, s(12.0));
    let road = tagged(&format!("<tag k=\"highway\" v=\"x\"/>{levels}"));
    assert_eq!(road.roads.len(), 0);
    assert_eq!(road.buildings.len(), 1);
    assert_eq!(tagged(r#"<tag k="building:levels" v="4 or 5"/>"#).buildings.len(), 0);
}

#[test]
fn short_ways_are_left_out() {
    let map = resolved(
        r#"<osm>
        <way id="1"><nd ref="1"/><tag k="highway" v="x"/></way>
        <way id="2"><nd ref="1"/><nd ref="2"/><tag k="building" v="x"/></way>
        <way id="3"><nd ref="1"/><nd ref="2"/><tag k="highway" v="x"/></way>
        </osm>"#,
    )
    .unwrap();
    assert_eq!(map.roads, vec![vec![1, 2]]);
    assert!(map.buildings.is_empty());
}

#[test]
fn nodes_without_a_place_are_left_out_of_shapes() {
    let data = load(
        r#"<osm>
        <node id="1" lat="0" lon="0"/><node id="2" lat="0" lon="1"/><node id="3" lat="1" lon="1"/>
        <way id="1"><nd ref="1"/><nd ref="9"/><nd ref="2"/><tag k="highway" v="x"/></way>
        <way id="2"><nd ref="1"/><nd ref="9"/><tag k="highway" v="x"/></way>
        <way id="3"><nd ref="1"/><nd ref="2"/><nd ref="3"/><nd ref="1"/><tag k="building" v="x"/></way>
        <way id="4"><nd ref="1"/><nd ref="2"/><nd ref="9"/><tag k="building" v="x"/></way>
        </osm>"#,
    )
    .unwrap();
    assert_eq!(data.roads.len(), 1);
    assert_eq!(data.roads[0].points, vec![p(0.0, 0.0), p(1.0, 0.0)]);
    assert_eq!(data.buildings.len(), 1);
    assert_eq!(data.buildings[0].footprint, vec![p(0.0, 0.0), p(1.0, 0.0), p(1.0, 1.0)]);
}

fn roads() -> Vec<RoadSegment> {
    vec![
        RoadSegment { points: vec![p(0.0, 0.0), p(1.0, 0.0), p(2.0, 0.0)] },
        RoadSegment { points: vec![p(0.0, 5.0), p(2.0, 5.0)] },
    ]
}

fn projection(x: f32, z: f32, distance_squared: f32) -> Projection {
    Projection { point: p(x, z), distance_squared: s(distance_squared) }
}

#[test]
fn pieces_come_road_by_road() {
    assert_eq!(
        segment_pieces(&roads()),
        vec![(p(0.0, 0.0), p(1.0, 0.0)), (p(1.0, 0.0), p(2.0, 0.0)), (p(0.0, 5.0), p(2.0, 5.0))]
    );
}

#[test]
fn nearest_piece_is_found() {
    let projections = vec![projection(1.0, 0.0, 4.0), projection(1.5, 0.0, 2.0), projection(1.5, 5.0, 9.0)];
    assert_eq!(nearest_point_on_segments(&roads(), &projections), p(1.5, 0.0));
}

#[test]
fn first_of_the_nearest_pieces_is_found() {
    let projections = vec![projection(1.0, 0.0, 4.0), projection(1.5, 0.0, 4.0), projection(1.5, 5.0, f32::NAN)];
    assert_eq!(nearest_point_on_segments(&roads(), &projections), p(1.0, 0.0));
}

#[test]
fn unreachable_pieces_leave_the_origin() {
    let nan = f32::NAN;
    let infinity = f32::INFINITY;
    let projections = vec![projection(1.0, 1.0, nan), projection(1.5, 1.0, infinity), projection(1.5, 5.0, nan)];
    assert_eq!(nearest_point_on_segments(&roads(), &projections), p(0.0, 0.0));
    assert_eq!(nearest_point_on_segments(&Vec::new(), &Vec::new()), p(0.0, 0.0));
}
