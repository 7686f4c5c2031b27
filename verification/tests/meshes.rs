//! Meshes of land, buildings and the track.
use trka::geometry::Vec3;
use trka::mesh::{build_building_mesh, build_continent_mesh, building_edges, MeshData, LAND_HEIGHT, MIN_BUILDING_HEIGHT};
use trka::osm::Building;
use trka::single::Single;
use trka::track::{
    build_fences, build_track_mesh, fence_segments, loop_place, spline_span, track_samples, CrossSection, FencePlace,
    Rotation, SplineSpan, Track, DEFAULT_FENCE_HEIGHT, DEFAULT_FENCE_THICKNESS, DEFAULT_TRACK_WIDTH, LAST_PLACE,
};
use trka::world::ContinentPolygon;

fn s(x: f32) -> Single {
    Single { bits: x.to_bits() }
}

fn p(x: f32, y: f32, z: f32) -> Vec3 {
    Vec3 { x: s(x), y: s(y), z: s(z) }
}

fn triangulate(points: &[Vec3]) -> Vec<usize> {
    let flat: Vec<f64> = points
        .iter()
        .flat_map(|p| [f32::from_bits(p.x.bits) as f64, f32::from_bits(p.z.bits) as f64])
        .collect();
    earcutr::earcut(&flat, &[], 2).unwrap_or_default()
}

fn signed_area(building: &Building) -> f32 {
    let number = |x: Single| f32::from_bits(x.bits);
    building_edges(building)
        .iter()
        .map(|(a, b)| number(a.x) * number(b.z) - number(b.x) * number(a.z))
        .sum()
}

fn wall_normals(building: &Building) -> Vec<Vec3> {
    let number = |x: Single| f32::from_bits(x.bits);
    building_edges(building)
        .iter()
        .map(|(a, b)| {
            let (dx, dz) = (number(b.x) - number(a.x), number(b.z) - number(a.z));
            let length = (dx * dx + dz * dz).sqrt();
            p(dz / length, 0.0, -dx / length)
        })
        .collect()
}

fn building_mesh(building: &Building) -> MeshData {
    let triangles = triangulate(&building.footprint);
    let area = signed_area(building);
    build_building_mesh(building, &triangles, &wall_normals(building), s(area))
}

fn check_drawable(mesh: &MeshData) {
    assert_eq!(mesh.normals.len(), mesh.positions.len());
    assert_eq!(mesh.indices.len() % 3, 0);
    assert!(mesh.indices.iter().all(|index| (*index as usize) < mesh.positions.len()));
}

#[test]
fn continent_mesh_has_triangles() {
    let polygon = ContinentPolygon {
        points: vec![
            p(0.0, 0.0, 0.0),
            p(100.0, 0.0, 0.0),
            p(100.0, 0.0, 50.0),
            p(0.0, 0.0, 50.0),
        ],
    };
    let mesh = build_continent_mesh(&polygon, &triangulate(&polygon.points));
    assert!(mesh.indices.len() >= 6, "expected at least two triangles for a continent rectangle");
    assert_eq!(mesh.indices.len(), 12);
    check_drawable(&mesh);
}

#[test]
fn land_is_drawn_with_both_faces() {
    let polygon = ContinentPolygon { points: vec![p(1.0, 9.0, 2.0), p(3.0, 9.0, 4.0), p(5.0, 9.0, 6.0)] };
    let mesh = build_continent_mesh(&polygon, &vec![2, 0, 1]);
    assert_eq!(mesh.positions, vec![p(1.0, 0.5, 2.0), p(3.0, 0.5, 4.0), p(5.0, 0.5, 6.0)]);
    assert_eq!(mesh.normals, vec![p(0.0, 1.0, 0.0); 3]);
    assert_eq!(mesh.uvs, vec![(s(0.0), s(0.0)); 3]);
    assert_eq!(mesh.indices, vec![2, 0, 1, 2, 1, 0]);
    assert_eq!(f32::from_bits(LAND_HEIGHT), 0.5);
}

#[test]
fn land_without_triangles_has_corners_only() {
    let polygon = ContinentPolygon { points: vec![p(1.0, 0.0, 2.0)] };
    let mesh = build_continent_mesh(&polygon, &Vec::new());
    assert_eq!(mesh.positions.len(), 1);
    assert!(mesh.indices.is_empty());
}

fn block(height: f32) -> Building {
    Building {
        footprint: vec![
            p(0.0, 0.0, 0.0),
            p(10.0, 0.0, 0.0),
            p(10.0, 0.0, 5.0),
            p(0.0, 0.0, 5.0),
        ],
        height: s(height),
    }
}

#[test]
fn build_simple_building_mesh() {
    let mesh = building_mesh(&block(5.0));
    assert!(mesh.indices.len() >= 6, "expected at least two triangles for a rectangle");
    assert_eq!(mesh.positions.len(), 24);
    assert_eq!(mesh.indices.len(), 36);
    assert!(mesh.uvs.is_empty());
    check_drawable(&mesh);
}

#[test]
fn building_stands_corner_by_corner() {
    let building = Building {
        footprint: vec![p(0.0, 0.0, 0.0), p(4.0, 0.0, 0.0), p(0.0, 0.0, 3.0)],
        height: s(7.0),
    };
    let normals = vec![p(1.0, 0.0, 0.0), p(2.0, 0.0, 0.0), p(3.0, 0.0, 0.0)];
    let mesh = build_building_mesh(&building, &vec![0, 1, 2], &normals, s(1.0));
    assert_eq!(mesh.positions[0..3], building.footprint[..]);
    assert_eq!(mesh.positions[3..6], [p(0.0, 7.0, 0.0), p(4.0, 7.0, 0.0), p(0.0, 7.0, 3.0)]);
    assert_eq!(
        mesh.positions[6..10],
        [p(0.0, 0.0, 0.0), p(4.0, 0.0, 0.0), p(4.0, 7.0, 0.0), p(0.0, 7.0, 0.0)]
    );
    assert_eq!(
        mesh.positions[14..18],
        [p(0.0, 0.0, 3.0), p(0.0, 0.0, 0.0), p(0.0, 7.0, 0.0), p(0.0, 7.0, 3.0)]
    );
    assert_eq!(mesh.normals[0], p(0.0, -1.0, 0.0));
    assert_eq!(mesh.normals[3], p(0.0, 1.0, 0.0));
    assert_eq!(mesh.normals[6..10], [normals[0]; 4]);
    assert_eq!(mesh.normals[14..18], [normals[2]; 4]);
    assert_eq!(mesh.indices[0..6], [0, 2, 1, 3, 4, 5]);
    assert_eq!(mesh.indices[6..12], [6, 7, 8, 6, 9, 8]);
    assert_eq!(mesh.indices[18..24], [14, 15, 16, 14, 17, 16]);
}

#[test]
fn winding_turns_the_walls() {
    let building = block(5.0);
    let normals = wall_normals(&building);
    let triangles = triangulate(&building.footprint);
    let outward = build_building_mesh(&building, &triangles, &normals, s(1.0));
    for area in [-1.0, 0.0, f32::NAN] {
        let turned = build_building_mesh(&building, &triangles, &normals, s(area));
        assert_eq!(turned.normals[8], outward.normals[8].reverse());
        assert_eq!(turned.normals[0], outward.normals[0]);
    }
}

#[test]
fn walls_face_outward_wherever_a_building_stands() {
    let number = |x: Single| f32::from_bits(x.bits);
    let mut around = vec![p(-30.0, 0.0, 0.0), p(-20.0, 0.0, 0.0), p(-20.0, 0.0, 5.0), p(-30.0, 0.0, 5.0)];
    for _ in 0..2 {
        let building = Building { footprint: around.clone(), height: s(3.0) };
        let mesh = building_mesh(&building);
        for (i, (a, b)) in building_edges(&building).iter().enumerate() {
            let (x, z) = ((number(a.x) + number(b.x)) * 0.5, (number(a.z) + number(b.z)) * 0.5);
            let normal = mesh.normals[8 + 4 * i];
            let outward = number(normal.x) * (x + 25.0) + number(normal.z) * (z - 2.5);
            assert!(outward > 0.0, "wall {i} faces inward");
        }
        around.reverse();
    }
}

#[test]
fn low_buildings_are_raised() {
    let flat = building_mesh(&block(-3.0));
    assert_eq!(flat.positions[4], p(0.0, 0.1, 0.0));
    let unknown = building_mesh(&block(f32::NAN));
    assert_eq!(unknown.positions[4], p(0.0, 0.1, 0.0));
    assert_eq!(f32::from_bits(MIN_BUILDING_HEIGHT), 0.1);
}

#[test]
fn walls_go_around() {
    let building = block(5.0);
    let edges = building_edges(&building);
    assert_eq!(edges.len(), 4);
    for i in 0..4 {
        assert_eq!(edges[i].1, edges[(i + 1) % 4].0);
    }
}

fn loop_track(n: usize) -> Track {
    Track::new((0..n).map(|i| p(i as f32, 0.0, 0.0)).collect())
}

#[test]
fn three_points_make_a_track() {
    assert!(!loop_track(0).is_valid());
    assert!(!loop_track(2).is_valid());
    assert!(loop_track(3).is_valid());
    assert_eq!(loop_track(3).width, s(7.0));
    assert_eq!(f32::from_bits(DEFAULT_TRACK_WIDTH), 7.0);
}

#[test]
fn spline_runs_around_the_loop() {
    let points = loop_track(4).control_points;
    let x = |i: f32| p(i, 0.0, 0.0);
    assert_eq!(
        spline_span(&points, 0),
        SplineSpan::Between { p0: x(3.0), p1: x(0.0), p2: x(1.0), p3: x(2.0) }
    );
    assert_eq!(
        spline_span(&points, 3),
        SplineSpan::Between { p0: x(2.0), p1: x(3.0), p2: x(0.0), p3: x(1.0) }
    );
    assert_eq!(spline_span(&points, 7), spline_span(&points, 3));
    let two = loop_track(2).control_points;
    assert_eq!(
        spline_span(&two, 1),
        SplineSpan::Between { p0: x(0.0), p1: x(1.0), p2: x(0.0), p3: x(1.0) }
    );
}

#[test]
fn short_splines_are_settled() {
    let none = spline_span(&Vec::new(), 5);
    assert_eq!(none, SplineSpan::Nowhere);
    assert_eq!(none.settled_point(), Some(p(0.0, 0.0, 0.0)));
    assert_eq!(none.settled_tangent(), Some(p(0.0, 0.0, 1.0)));
    let one = spline_span(&vec![p(1.0, 2.0, 3.0)], 5);
    assert_eq!(one.settled_point(), Some(p(1.0, 2.0, 3.0)));
    assert_eq!(one.settled_tangent(), Some(p(0.0, 0.0, 1.0)));
    let curve = spline_span(&loop_track(3).control_points, 0);
    assert_eq!(curve.settled_point(), None);
    assert_eq!(curve.settled_tangent(), None);
}

#[test]
fn pieces_follow_control_points() {
    assert_eq!(track_samples(&loop_track(5)), 100);
    assert_eq!(track_samples(&loop_track(0)), 60);
    assert_eq!(fence_segments(&loop_track(5)), 50);
    assert_eq!(fence_segments(&loop_track(1)), 30);
}

#[test]
fn road_surface_joins_its_sections() {
    let track = loop_track(3);
    let sections: Vec<CrossSection> = (0..=60)
        .map(|i| CrossSection { left: p(0.0, 0.0, i as f32), right: p(7.0, 0.0, i as f32), v: s(i as f32 * 0.5) })
        .collect();
    let mesh = build_track_mesh(&track, &sections);
    check_drawable(&mesh);
    assert_eq!(mesh.positions.len(), 122);
    assert_eq!(mesh.positions[2..4], [p(0.0, 0.0, 1.0), p(7.0, 0.0, 1.0)]);
    assert_eq!(mesh.normals, vec![p(0.0, 1.0, 0.0); 122]);
    assert_eq!(mesh.uvs[4..6], [(s(0.0), s(1.0)), (s(1.0), s(1.0))]);
    assert_eq!(mesh.indices.len(), 360);
    assert_eq!(mesh.indices[0..6], [0, 1, 2, 2, 1, 3]);
    assert_eq!(mesh.indices[354..360], [118, 119, 120, 120, 119, 121]);
}

#[test]
fn fences_stand_on_both_sides() {
    let rotation = Rotation { x: s(0.0), y: s(0.6), z: s(0.0), w: s(0.8) };
    let place = FencePlace { left: p(1.0, 0.5, 2.0), right: p(8.0, 0.5, 2.0), rotation, depth: s(3.0) };
    let (left, right) = build_fences(&vec![place, place]);
    assert_eq!((left.len(), right.len()), (2, 2));
    assert_eq!(left[1].transform.translation, place.left);
    assert_eq!(right[1].transform.translation, place.right);
    assert_eq!(left[0].transform.rotation, rotation);
    assert_eq!(left[0].size, p(0.5, 1.0, 3.0));
    assert_eq!(left[0].transform.scale, left[0].size);
    assert_eq!(f32::from_bits(DEFAULT_FENCE_THICKNESS), 0.5);
    assert_eq!(f32::from_bits(DEFAULT_FENCE_HEIGHT), 1.0);
}

#[test]
fn places_stay_on_the_loop() {
    assert_eq!(f32::from_bits(LAST_PLACE), 1.0 - f32::EPSILON);
    assert_eq!(loop_place(s(0.25)), s(0.25));
    assert_eq!(loop_place(s(-0.25)), s(0.0));
    assert_eq!(loop_place(s(1.0)), s(1.0 - f32::EPSILON));
}

#[test]
fn default_track_has_no_points_and_no_width() {
    let track = Track::default();
    assert!(track.control_points.is_empty());
    assert_eq!(track.width, s(0.0));
    let copy = loop_track(4).clone();
    assert_eq!(copy.control_points, loop_track(4).control_points);
    assert_eq!(block(5.0).clone().footprint, block(5.0).footprint);
}
