//! The world map: reading areas, drawing and moving over them.
use trka::geojson_text::GeoShape;
use trka::geometry::{Bounds, Vec3};
use trka::single::Single;
use trka::world::{extract_polygons_from_geometry, parse_land_geojson, ring_to_polygon, ContinentPolygon, LonLat};
use trka::world_map::{
    drag_moves_map, map_outlines, map_select_zoom, marker_radius, overview_height, receive_urban_areas,
    urban_areas_visible, world_map_report, world_map_zoom, Cursor, DragInput, UrbanNotice, WorldMapDragState,
    MAX_CAMERA_HEIGHT, MIN_EDITOR_HEIGHT, MIN_MARKER_RADIUS, MIN_WORLD_MAP_HEIGHT,
};

fn s(x: f32) -> Single {
    Single { bits: x.to_bits() }
}

fn p(x: f32, z: f32) -> Vec3 {
    Vec3 { x: s(x), y: s(0.0), z: s(z) }
}

fn at(lon: f64, lat: f64) -> LonLat {
    Some((lon.to_bits(), lat.to_bits()))
}

fn project(position: &LonLat) -> Vec3 {
    match position {
        Some((lon, lat)) => {
            p((f64::from_bits(*lon) * 5.56) as f32, -(f64::from_bits(*lat) * 5.56) as f32)
        }
        None => p(0.0, 0.0),
    }
}

fn polygons(text: &str) -> Result<Vec<ContinentPolygon>, String> {
    let rings = parse_land_geojson(text)?;
    Ok(rings.iter().map(|ring| ring_to_polygon(ring, &ring.iter().map(project).collect())).collect())
}

fn area(points: Vec<Vec3>) -> ContinentPolygon {
    ContinentPolygon { points }
}

/// A round island of so many points, and a square one.
fn islands(corners: usize) -> String {
    let mut ring = String::new();
    for i in 0..corners {
        let angle = i as f64 / corners as f64 * std::f64::consts::TAU;
        ring.push_str(&format!("[{},{}],", 30.0 * angle.cos(), 30.0 * angle.sin()));
    }
    ring.push_str("[30.0,0.0]");
    let square = "[[50,50],[60,50],[60,60],[50,60],[50,50]]";
    format!(
        "{{\"type\":\"FeatureCollection\",\"features\":[\
         {{\"type\":\"Feature\",\"properties\":{{}},\"geometry\":{{\"type\":\"Polygon\",\"coordinates\":[[{ring}]]}}}},\
         {{\"type\":\"Feature\",\"properties\":{{}},\"geometry\":{{\"type\":\"Polygon\",\"coordinates\":[{square}]}}}}]}}"
    )
}

#[test]
fn parse_cached_natural_earth() {
    let polygons = polygons(&islands(120)).expect("failed to load cached world data");
    assert!(!polygons.is_empty(), "expected at least one continent polygon");
    let total_points: usize = polygons.iter().map(|p| p.points.len()).sum();
    assert!(total_points > 100, "expected many continent points");
}

#[test]
fn outer_rings_are_read() {
    let text = r#"{"type":"Polygon","coordinates":[
        [[0,0],[10,0],[10,20.5],[0,0]],
        [[1,1],[2,1],[2,2],[1,1]]]}"#;
    assert_eq!(
        parse_land_geojson(text).unwrap(),
        vec![vec![at(0.0, 0.0), at(10.0, 0.0), at(10.0, 20.5), at(0.0, 0.0)]]
    );
}

#[test]
fn every_polygon_of_every_feature_is_read_in_order() {
    let text = r#"{"type":"FeatureCollection","features":[
        {"type":"Feature","properties":null,"geometry":{"type":"MultiPolygon","coordinates":[
            [[[1,1],[2,1],[2,2],[1,1]]],
            [[[3,1],[4,1],[4,2],[3,1]]]]}},
        {"type":"Feature","properties":null,"geometry":null},
        {"type":"Feature","properties":null,"geometry":{"type":"Point","coordinates":[7,7]}},
        {"type":"Feature","properties":null,"geometry":{"type":"Polygon","coordinates":[
            [[5,1],[6,1],[6,2],[5,1]]]}}]}"#;
    let rings = parse_land_geojson(text).unwrap();
    assert_eq!(rings.len(), 3);
    assert_eq!(rings[0][0], at(1.0, 1.0));
    assert_eq!(rings[1][0], at(3.0, 1.0));
    assert_eq!(rings[2][0], at(5.0, 1.0));
}

#[test]
fn other_geometries_have_no_polygons() {
    for (kind, coordinates) in [
        ("Point", "[1,2]"),
        ("MultiPoint", "[[1,2],[3,4]]"),
        ("LineString", "[[1,2],[3,4]]"),
        ("MultiLineString", "[[[1,2],[3,4]]]"),
    ] {
        let text = format!("{{\"type\":\"{kind}\",\"coordinates\":{coordinates}}}");
        assert_eq!(parse_land_geojson(&text), Ok(Vec::new()));
    }
    let collection = r#"{"type":"GeometryCollection","geometries":[
        {"type":"Polygon","coordinates":[[[0,0],[1,0],[1,1],[0,0]]]}]}"#;
    assert_eq!(parse_land_geojson(collection), Ok(Vec::new()));
}

#[test]
fn single_feature_is_read() {
    let text = r#"{"type":"Feature","properties":null,"geometry":{"type":"Polygon","coordinates":[
        [[5,1],[6,1],[6,2],[5,1]]]}}"#;
    assert_eq!(parse_land_geojson(text).unwrap().len(), 1);
    let bare = r#"{"type":"Feature","properties":null,"geometry":null}"#;
    assert!(parse_land_geojson(bare).unwrap().is_empty());
}

#[test]
fn text_that_is_no_geojson_is_an_error() {
    for text in ["", "{", "[]", r#"{"type":"Nothing"}"#] {
        let error = parse_land_geojson(text).unwrap_err();
        assert_eq!(error, text.parse::<geojson::GeoJson>().unwrap_err().to_string());
        assert!(!error.is_empty());
    }
}

#[test]
fn shapes_append_their_outer_rings() {
    let ring = |x: f64| vec![vec![x, 0.0], vec![x], Vec::new()];
    let mut out = vec![vec![at(9.0, 9.0)]];
    extract_polygons_from_geometry(&GeoShape::Polygon(vec![ring(1.0), ring(2.0)]), &mut out);
    extract_polygons_from_geometry(&GeoShape::Polygon(Vec::new()), &mut out);
    for shape in [
        GeoShape::Point,
        GeoShape::MultiPoint,
        GeoShape::LineString,
        GeoShape::MultiLineString,
        GeoShape::GeometryCollection,
    ] {
        extract_polygons_from_geometry(&shape, &mut out);
    }
    extract_polygons_from_geometry(&GeoShape::MultiPolygon(vec![Vec::new(), vec![ring(3.0)]]), &mut out);
    assert_eq!(
        out,
        vec![vec![at(9.0, 9.0)], vec![at(1.0, 0.0), None, None], vec![at(3.0, 0.0), None, None]]
    );
}

#[test]
fn closing_position_is_dropped_from_a_polygon() {
    let ring = vec![at(0.0, 0.0), at(1.0, 0.0), at(1.0, 1.0), at(0.0, 0.0)];
    let polygon = ring_to_polygon(&ring, &vec![p(0.0, 0.0), p(5.0, 0.0), p(5.0, -5.0), p(0.0, -0.0)]);
    assert_eq!(polygon.points, vec![p(0.0, 0.0), p(5.0, 0.0), p(5.0, -5.0)]);
}

#[test]
fn incomplete_position_is_at_the_origin() {
    let ring = vec![at(1.0, 1.0), None];
    let polygon = ring_to_polygon(&ring, &vec![p(5.0, 5.0), p(7.0, 7.0)]);
    assert_eq!(polygon.points, vec![p(5.0, 5.0), p(0.0, 0.0)]);
}

#[test]
fn report_counts_areas_of_three_points() {
    let areas = vec![
        area(vec![p(0.0, 0.0), p(1.0, 0.0), p(1.0, 1.0)]),
        area(vec![p(100.0, 100.0), p(200.0, 200.0)]),
        area(vec![p(-3.0, 0.0), p(1.0, 0.0), p(1.0, 4.0), p(0.0, 0.0)]),
    ];
    let report = world_map_report(&Ok(areas));
    assert_eq!(report.drawn, vec![0, 2]);
    assert_eq!(report.bounds, Bounds { min: p(-3.0, 0.0), max: p(1.0, 4.0) });
    assert_eq!(
        report.help_text,
        "World Map\nContinents: 2\nClick anywhere to select a region\nScroll: zoom in/out"
    );
}

#[test]
fn report_tells_what_went_wrong() {
    let report = world_map_report(&Err("no network".to_string()));
    assert!(report.drawn.is_empty());
    assert_eq!(report.bounds, Bounds::empty());
    assert_eq!(
        report.help_text,
        "World Map\nFailed to load continents.\nno network\nDownload ne_110m_land.geojson manually or check network."
    );
}

#[test]
fn outlines_are_closed() {
    let areas = vec![area(vec![p(0.0, 0.0), p(1.0, 0.0)]), area(Vec::new()), area(vec![p(4.0, 4.0)])];
    assert_eq!(
        map_outlines(&areas),
        vec![(p(0.0, 0.0), p(1.0, 0.0)), (p(1.0, 0.0), p(0.0, 0.0)), (p(4.0, 4.0), p(4.0, 4.0))]
    );
}

#[test]
fn urban_areas_are_replaced_when_loaded() {
    let old = vec![area(vec![p(1.0, 1.0)])];
    assert_eq!(receive_urban_areas(old, Ok(Vec::new())).len(), 0);
    let old = vec![area(vec![p(1.0, 1.0)])];
    assert_eq!(receive_urban_areas(old, Err("lost".to_string())).len(), 1);
}

#[test]
fn urban_areas_are_reported_once() {
    let mut notice = UrbanNotice { shown: false };
    assert_eq!(notice.report(&Vec::new()), None);
    let areas = vec![area(vec![p(1.0, -1.0)]), area(vec![p(0.0, 2.0)])];
    assert_eq!(notice.report(&areas), Some(Bounds { min: p(0.0, -1.0), max: p(1.0, 2.0) }));
    assert_eq!(notice.report(&areas), None);
}

#[test]
fn camera_height_is_limited() {
    assert_eq!(world_map_zoom(s(20.0)), s(50.0));
    assert_eq!(world_map_zoom(s(700.0)), s(700.0));
    assert_eq!(world_map_zoom(s(1500.5)), s(1500.0));
    assert_eq!(map_select_zoom(s(9.5)), s(10.0));
    assert_eq!(map_select_zoom(s(20.0)), s(20.0));
    assert_eq!(map_select_zoom(s(9000.0)), s(1500.0));
    assert_eq!(overview_height(s(200.0)), s(200.0));
    assert_eq!(overview_height(s(2000.0)), s(1500.0));
    assert_eq!(overview_height(s(f32::NAN)), s(1500.0));
    assert_eq!(f32::from_bits(MIN_WORLD_MAP_HEIGHT), 50.0);
    assert_eq!(f32::from_bits(MIN_EDITOR_HEIGHT), 10.0);
    assert_eq!(f32::from_bits(MAX_CAMERA_HEIGHT), 1500.0);
}

#[test]
fn markers_are_never_too_small() {
    assert_eq!(marker_radius(s(4.0)), s(5.0));
    assert_eq!(marker_radius(s(34.0)), s(34.0));
    assert_eq!(f32::from_bits(MIN_MARKER_RADIUS), 5.0);
}

#[test]
fn urban_areas_show_from_below() {
    assert!(urban_areas_visible(s(1500.0)));
    assert!(!urban_areas_visible(s(1500.5)));
    assert!(urban_areas_visible(world_map_zoom(s(90000.0))));
}

fn mouse(x: f32, pressed: bool) -> DragInput {
    DragInput {
        cursor: Some(Cursor { x: s(x), y: s(0.0) }),
        just_released: false,
        pressed,
        has_camera: true,
    }
}

#[test]
fn drag_goes_from_cursor_to_cursor() {
    let mut state = WorldMapDragState::default();
    assert_eq!(state.drag(mouse(1.0, true)), None);
    let (from, to) = state.drag(mouse(3.0, true)).unwrap();
    assert_eq!((from.x, to.x), (s(1.0), s(3.0)));
    let (from, to) = state.drag(mouse(4.0, true)).unwrap();
    assert_eq!((from.x, to.x), (s(3.0), s(4.0)));
}

#[test]
fn release_ends_a_drag() {
    let mut state = WorldMapDragState::default();
    state.drag(mouse(1.0, true));
    assert_eq!(state.drag(mouse(2.0, false)), None);
    assert_eq!(state.drag(mouse(3.0, true)), None);
    let released = DragInput { just_released: true, ..mouse(4.0, true) };
    assert_eq!(state.drag(released), None);
    assert_eq!(state.last_cursor, None);
    state.drag(mouse(5.0, true));
    let outside = DragInput { cursor: None, ..mouse(6.0, true) };
    assert_eq!(state.drag(outside), None);
    assert_eq!(state.last_cursor, None);
}

#[test]
fn nothing_is_dragged_without_a_camera() {
    let mut state = WorldMapDragState::default();
    state.drag(mouse(1.0, true));
    let blind = DragInput { has_camera: false, ..mouse(2.0, true) };
    assert_eq!(state.drag(blind), None);
    assert_eq!(state.last_cursor, mouse(1.0, true).cursor);
}

#[test]
fn map_moves_where_both_rays_meet_the_ground() {
    assert!(drag_moves_map(s(1.0), s(2.0)));
    assert!(!drag_moves_map(s(0.0), s(2.0)));
    assert!(!drag_moves_map(s(1.0), s(-2.0)));
    assert!(!drag_moves_map(s(f32::INFINITY), s(2.0)));
    assert!(!drag_moves_map(s(1.0), s(f32::NAN)));
}
