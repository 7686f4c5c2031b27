//! The map editor and driving.
use trka::drive::{
    drawn_buildings, drive_direction, drive_input, drive_plan, DriveKeys, SteeringSums, ThrottleSums,
    VehicleController, MAX_REVERSE_SPEED, MAX_SPEED,
};
use trka::editor::{
    data_bounds, editor_help, finish_loading, visible_pieces, AppState, EditorAction, EditorInput, Route,
    MIN_PIECE_LENGTH,
};
use trka::geometry::{Bounds, Vec3};
use trka::osm::{Building, OsmData, Projection, RoadSegment};
use trka::single::Single;

fn s(x: f32) -> Single {
    Single { bits: x.to_bits() }
}

fn p(x: f32, z: f32) -> Vec3 {
    Vec3 { x: s(x), y: s(0.0), z: s(z) }
}

fn idle() -> EditorInput {
    EditorInput {
        enter: false,
        numpad_enter: false,
        home: false,
        m: false,
        backspace: false,
        c: false,
        left_click: false,
    }
}

fn route(n: usize) -> Route {
    Route { points: (0..n).map(|i| p(i as f32, 0.0)).collect() }
}

#[test]
fn game_begins_on_the_world_map() {
    assert_eq!(AppState::default(), AppState::WorldMap);
}

#[test]
fn loading_always_leads_to_the_editor() {
    let data = OsmData { roads: vec![RoadSegment { points: vec![p(0.0, 0.0), p(1.0, 0.0)] }], buildings: Vec::new() };
    let (loaded, next) = finish_loading(Ok(data));
    assert_eq!(loaded.roads.len(), 1);
    assert_eq!(next, AppState::MapSelect);
    let (nothing, next) = finish_loading(Err("lost".to_string()));
    assert!(nothing.roads.is_empty() && nothing.buildings.is_empty());
    assert_eq!(next, AppState::MapSelect);
}

#[test]
fn driving_takes_three_markers() {
    let mut short = route(2);
    assert!(matches!(short.handle(EditorInput { enter: true, ..idle() }), EditorAction::Stay));
    let mut long = route(3);
    match long.handle(EditorInput { numpad_enter: true, ..idle() }) {
        EditorAction::Drive(track) => assert_eq!(track.control_points, route(3).points),
        _ => panic!("expected to drive"),
    }
    assert_eq!(long.points.len(), 3);
}

#[test]
fn keys_count_in_order() {
    let all = EditorInput {
        enter: true,
        numpad_enter: true,
        home: true,
        m: true,
        backspace: true,
        c: true,
        left_click: true,
    };
    let mut r = route(2);
    assert!(matches!(r.handle(all), EditorAction::Stay));
    let keys = EditorInput { enter: false, numpad_enter: false, ..all };
    assert!(matches!(r.handle(keys), EditorAction::ResetView));
    let keys = EditorInput { home: false, ..keys };
    assert!(matches!(r.handle(keys), EditorAction::OpenWorldMap));
    assert_eq!(r.points.len(), 2);
    let keys = EditorInput { m: false, ..keys };
    assert!(matches!(r.handle(keys), EditorAction::Redraw));
    assert_eq!(r.points, route(1).points);
    let keys = EditorInput { backspace: false, ..keys };
    r.points.push(p(9.0, 9.0));
    assert!(matches!(r.handle(keys), EditorAction::Redraw));
    assert!(r.points.is_empty());
    let keys = EditorInput { c: false, ..keys };
    assert!(matches!(r.handle(keys), EditorAction::Pick));
    assert!(matches!(r.handle(idle()), EditorAction::Stay));
}

#[test]
fn backspace_on_an_empty_route_leaves_it_empty() {
    let mut r = Route::new();
    assert!(matches!(r.handle(EditorInput { backspace: true, ..idle() }), EditorAction::Redraw));
    assert!(r.points.is_empty());
}

#[test]
fn backspace_undoes_a_marker() {
    let mut r = route(2);
    assert!(r.place_marker(s(1.0), p(7.0, 7.0), &Vec::new(), &Vec::new()));
    assert_eq!(r.points.len(), 3);
    r.handle(EditorInput { backspace: true, ..idle() });
    assert_eq!(r.points, route(2).points);
}

#[test]
fn markers_snap_to_roads() {
    let mut r = Route::new();
    let roads = vec![RoadSegment { points: vec![p(0.0, 0.0), p(10.0, 0.0)] }];
    let nearest = vec![Projection { point: p(4.0, 0.0), distance_squared: s(9.0) }];
    assert!(r.place_marker(s(0.0), p(4.0, 3.0), &roads, &nearest));
    assert_eq!(r.points, vec![p(4.0, 0.0)]);
}

#[test]
fn nothing_is_marked_behind_the_camera() {
    let mut r = Route::new();
    for t in [-1.0, f32::NAN, f32::INFINITY, f32::NEG_INFINITY] {
        assert!(!r.place_marker(s(t), p(4.0, 3.0), &Vec::new(), &Vec::new()));
    }
    assert!(r.points.is_empty());
}

#[test]
fn short_pieces_are_not_drawn() {
    let lengths = vec![s(1.0), s(0.0), s(0.01), s(0.009), s(f32::NAN)];
    assert_eq!(visible_pieces(&lengths), vec![0, 2, 4]);
    assert_eq!(f32::from_bits(MIN_PIECE_LENGTH), 0.01);
}

#[test]
fn bounds_hold_the_whole_map() {
    let roads = vec![RoadSegment { points: vec![p(0.0, 5.0), p(-3.0, 1.0)] }];
    let buildings = vec![Building { footprint: vec![p(9.0, -2.0)], height: s(1.0) }];
    assert_eq!(
        data_bounds(&roads, &buildings),
        Some(Bounds { min: p(-3.0, -2.0), max: p(9.0, 5.0) })
    );
    let hollow = vec![RoadSegment { points: Vec::new() }];
    assert_eq!(data_bounds(&hollow, &Vec::new()), None);
}

#[test]
fn editor_tells_its_keys() {
    assert_eq!(
        editor_help(12, 0),
        "Map Editor\n\
        Roads: 12  Buildings: 0\n\
        Click a road to add a marker\n\
        Scroll: zoom in/out  Home: reset view\n\
        Backspace: remove last marker\n\
        C: clear all markers\n\
        Enter: drive the track\n\
        M: back to world map\n\
        A track must be created from OSM roads before driving"
    );
    assert_eq!(
        editor_help(0, 7),
        "No OSM roads loaded.\n\
        Check your network, or run with:\n\
        --osm-file path/to/map.osm\n\
        or --bbox \"min_lat,min_lon,max_lat,max_lon\""
    );
}

fn keys() -> DriveKeys {
    DriveKeys {
        w: false,
        arrow_up: false,
        s: false,
        arrow_down: false,
        a: false,
        arrow_left: false,
        d: false,
        arrow_right: false,
    }
}

/// The sums for a throttle and a wheel at these places, a quarter of a second on.
fn sums(throttle: f32, steering: f32) -> (ThrottleSums, SteeringSums) {
    let dt = 0.25;
    (
        ThrottleSums {
            raised: s(throttle + 8.0 * dt),
            braked: s(throttle - 12.0 * dt),
            eased_down: s(throttle - 4.0 * dt),
            eased_up: s(throttle + 4.0 * dt),
        },
        SteeringSums {
            right: s(steering + 2.0 * dt),
            left: s(steering - 2.0 * dt),
            eased_down: s(steering - 3.0 * dt),
            eased_up: s(steering + 3.0 * dt),
        },
    )
}

fn frame(throttle: f32, steering: f32, keys: DriveKeys) -> (f32, f32) {
    let mut controller = VehicleController { throttle: s(throttle), steering: s(steering) };
    let (throttle_sums, steering_sums) = sums(throttle, steering);
    controller.control(keys, throttle_sums, steering_sums);
    (f32::from_bits(controller.throttle.bits), f32::from_bits(controller.steering.bits))
}

#[test]
fn vehicle_starts_at_rest() {
    let controller = VehicleController::default();
    assert_eq!((controller.throttle, controller.steering), (s(0.0), s(0.0)));
}

#[test]
fn keys_move_the_controls() {
    assert_eq!(frame(10.0, 0.0, DriveKeys { w: true, ..keys() }), (12.0, 0.0));
    assert_eq!(frame(10.0, 0.0, DriveKeys { arrow_up: true, s: true, ..keys() }), (12.0, 0.0));
    assert_eq!(frame(10.0, 0.0, DriveKeys { arrow_down: true, ..keys() }), (7.0, 0.0));
    assert_eq!(frame(0.0, 0.0, DriveKeys { d: true, ..keys() }), (0.0, 0.5));
    assert_eq!(frame(0.0, 0.0, DriveKeys { arrow_left: true, ..keys() }), (0.0, -0.5));
}

#[test]
fn controls_ease_to_zero_and_stop() {
    assert_eq!(frame(10.0, 1.0, keys()), (9.0, 0.25));
    assert_eq!(frame(0.5, 0.5, keys()), (0.0, 0.0));
    assert_eq!(frame(-0.5, -0.5, keys()), (0.0, 0.0));
    assert_eq!(frame(-5.0, -1.0, keys()), (-4.0, -0.25));
    assert_eq!(frame(0.0, 0.0, keys()), (0.0, 0.0));
    assert_eq!(frame(0.0, 0.5, DriveKeys { a: true, d: true, ..keys() }), (0.0, 0.0));
}

#[test]
fn controls_stay_in_range() {
    assert_eq!(frame(34.0, 0.9, DriveKeys { w: true, d: true, ..keys() }), (35.0, 1.0));
    assert_eq!(frame(-9.0, -0.9, DriveKeys { s: true, a: true, ..keys() }), (-10.0, -1.0));
    assert_eq!(f32::from_bits(MAX_SPEED), 35.0);
    assert_eq!(f32::from_bits(MAX_REVERSE_SPEED), -10.0);
}

#[test]
fn steering_turns_round_when_backing() {
    assert_eq!(drive_direction(s(-0.5)), s(-1.0));
    assert_eq!(drive_direction(s(0.0)), s(1.0));
    assert_eq!(drive_direction(s(-0.0)), s(1.0));
    assert_eq!(drive_direction(s(3.0)), s(1.0));
}

#[test]
fn keys_leave_the_drive() {
    assert_eq!(drive_input(false, false), None);
    assert_eq!(drive_input(true, false), Some(AppState::MapSelect));
    assert_eq!(drive_input(false, true), Some(AppState::WorldMap));
    assert_eq!(drive_input(true, true), Some(AppState::WorldMap));
}

#[test]
fn drive_is_planned_from_the_route() {
    let building = |n: usize| Building { footprint: (0..n).map(|i| p(i as f32, 1.0)).collect(), height: s(3.0) };
    let buildings = vec![building(2), building(3), building(0), building(4)];
    assert_eq!(drawn_buildings(&buildings), vec![1, 3]);
    assert!(drive_plan(&route(2).points, &buildings).is_none());
    let plan = drive_plan(&route(4).points, &buildings).unwrap();
    assert_eq!(plan.track.control_points, route(4).points);
    assert_eq!(plan.track.width, s(7.0));
    assert_eq!((plan.samples, plan.fence_segments), (80, 40));
    assert_eq!((plan.start, plan.facing), (p(0.0, 0.0), p(1.0, 0.0)));
    assert_eq!(plan.buildings, vec![1, 3]);
}
