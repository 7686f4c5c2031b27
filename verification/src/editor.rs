//! The map editor: marking a route on roads.
use crate::geometry::{
    all_points, all_points_count, all_points_in_order, bounds_of, points_before, Bounds, Vec3,
};
use crate::osm::{
    footprints, nearest_point, nearest_point_on_segments, road_pieces, road_points, Building, OsmData, Projection,
    RoadSegment,
};
use crate::single::{zero, Single, ZERO};
use crate::text::{decimal, decimal_reads_back, decimal_text, integer_text};
use crate::track::{Track, DEFAULT_TRACK_WIDTH, MIN_CONTROL_POINTS};
use vstd::prelude::*;
use vstd::string::*;

verus! {

/// The shortest piece of a line that is drawn: `0.01`.
pub const MIN_PIECE_LENGTH: u32 = 0x3c23_d70a;

/// The screens of the game.
#[derive(Clone, Copy, Debug, PartialEq, Eq, Hash, Structural)]
pub enum AppState {
    WorldMap,
    Loading,
    MapSelect,
    Drive,
}

impl Default for AppState {
    fn default() -> (r: AppState)
        ensures
            r == AppState::WorldMap,
    {
        AppState::WorldMap
    }
}

/// The map that is shown once loading is over: what was loaded, or an empty map where loading
/// failed. The editor comes next either way.
pub fn finish_loading(result: Result<OsmData, String>) -> (r: (OsmData, AppState))
    ensures
        r.1 == AppState::MapSelect,
        result matches Ok(data) ==> r.0 == data,
        result is Err ==> r.0.roads@.len() == 0 && r.0.buildings@.len() == 0,
{
    match result {
        Ok(data) => (data, AppState::MapSelect),
        Err(_) => (OsmData { roads: Vec::new(), buildings: Vec::new() }, AppState::MapSelect),
    }
}

/// The points of a list, one by one.
pub fn copy_points(points: &Vec<Vec3>) -> (r: Vec<Vec3>)
    ensures
        r@ == points@,
{
    let mut r: Vec<Vec3> = Vec::new();
    for i in 0..points.len()
        invariant
            r@ == points@.take(i as int),
    {
        r.push(points[i]);
    }
    r
}

/// The keys and buttons that were just pressed.
#[derive(Clone, Copy, Debug, PartialEq, Eq, Structural)]
pub struct EditorInput {
    pub enter: bool,
    pub numpad_enter: bool,
    pub home: bool,
    pub m: bool,
    pub backspace: bool,
    pub c: bool,
    pub left_click: bool,
}

/// What the editor does about its input.
#[derive(Debug)]
pub enum EditorAction {
    /// Nothing.
    Stay,
    /// The track is saved, and driving begins.
    Drive(Track),
    /// The camera goes back to the whole map.
    ResetView,
    /// The world map comes up.
    OpenWorldMap,
    /// The route has changed and is drawn again.
    Redraw,
    /// The place under the cursor is to be found.
    Pick,
}

/// The markers of a route, in the order in which they were set.
#[derive(Debug)]
pub struct Route {
    pub points: Vec<Vec3>,
}

/// The route after an input.
pub open spec fn route_after(points: Seq<Vec3>, input: EditorInput) -> Seq<Vec3> {
    if input.enter || input.numpad_enter || input.home || input.m {
        points
    } else if input.backspace {
        if points.len() == 0 {
            points
        } else {
            points.drop_last()
        }
    } else if input.c {
        Seq::empty()
    } else {
        points
    }
}

impl Route {
    /// A route without markers.
    pub fn new() -> (r: Route)
        ensures
            r.points@ == Seq::<Vec3>::empty(),
    {
        Route { points: Vec::new() }
    }

    /// Carries out an input. Of several, the first in this order counts: driving, resetting the
    /// view, the world map, removing the last marker, removing all, picking a place.
    pub fn handle(&mut self, input: EditorInput) -> (r: EditorAction)
        ensures
            final(self).points@ == route_after(old(self).points@, input),
            if input.enter || input.numpad_enter {
                if old(self).points@.len() >= MIN_CONTROL_POINTS {
                    r matches EditorAction::Drive(track) && track.control_points@ == old(
                        self,
                    ).points@ && track.width == (Single { bits: DEFAULT_TRACK_WIDTH })
                } else {
                    r is Stay
                }
            } else if input.home {
                r is ResetView
            } else if input.m {
                r is OpenWorldMap
            } else if input.backspace || input.c {
                r is Redraw
            } else if input.left_click {
                r is Pick
            } else {
                r is Stay
            },
            r is Drive <==> (input.enter || input.numpad_enter) && old(self).points@.len() >= 3,
            r is ResetView <==> input.home && !input.enter && !input.numpad_enter,
            r is OpenWorldMap <==> input.m && !input.home && !input.enter && !input.numpad_enter,
            r is Redraw <==> (input.backspace || input.c) && !input.m && !input.home && !input.enter
                && !input.numpad_enter,
            r is Pick <==> input.left_click && !input.backspace && !input.c && !input.m
                && !input.home && !input.enter && !input.numpad_enter,
    {
        if input.enter || input.numpad_enter {
            let track = Track::new(copy_points(&self.points));
            if track.is_valid() {
                return EditorAction::Drive(track);
            }
            return EditorAction::Stay;
        }
        if input.home {
            return EditorAction::ResetView;
        }
        if input.m {
            return EditorAction::OpenWorldMap;
        }
        if input.backspace {
            self.points.pop();
            return EditorAction::Redraw;
        }
        if input.c {
            self.points = Vec::new();
            return EditorAction::Redraw;
        }
        if input.left_click {
            EditorAction::Pick
        } else {
            EditorAction::Stay
        }
    }

    /// Sets a marker where the line of sight meets the ground: at distance `t` along it, at
    /// `hit`. The marker snaps to the nearest road, if there are roads; `projections` holds the
    /// point nearest to `hit` on each piece of them. Nothing is set where the line of sight
    /// does not meet the ground ahead. Tells whether a marker was set.
    pub fn place_marker(
        &mut self,
        t: Single,
        hit: Vec3,
        roads: &Vec<RoadSegment>,
        projections: &Vec<Projection>,
    ) -> (r: bool)
        requires
            projections@.len() == road_pieces(road_points(roads@)).len(),
        ensures
            r == (t.finite() && !t.less(zero())),
            r <==> t.bits < 0x7f80_0000 || t.bits == 0x8000_0000,
            !r ==> final(self).points@ == old(self).points@,
            r ==> final(self).points@.len() == old(self).points@.len() + 1,
            r ==> final(self).points@.drop_last() == old(self).points@,
            r && roads@.len() == 0 ==> final(self).points@.last() == hit,
            r && roads@.len() > 0 ==> nearest_point(projections@, final(self).points@.last()),
    {
        if t.lt(Single { bits: ZERO }) || !t.is_finite() {
            return false;
        }
        let snap = if roads.len() == 0 {
            hit
        } else {
            nearest_point_on_segments(roads, projections)
        };
        self.points.push(snap);
        assert(self.points@.drop_last() == old(self).points@);
        true
    }
}

/// Removing the last marker undoes setting one.
pub proof fn backspace_undoes_marker(points: Seq<Vec3>, marker: Vec3, input: EditorInput)
    requires
        input.backspace,
        !input.enter,
        !input.numpad_enter,
        !input.home,
        !input.m,
    ensures
        route_after(points.push(marker), input) == points,
{
    assert(points.push(marker).drop_last() == points);
}

/// No input but setting a marker lengthens a route, and what an input leaves of it is its
/// start.
pub proof fn inputs_only_shorten_route(points: Seq<Vec3>, input: EditorInput)
    ensures
        route_after(points, input).is_prefix_of(points),
{
}

/// The pieces of a line that are drawn, by their numbers: those that are not too short.
pub open spec fn visible(lengths: Seq<Single>) -> Seq<usize>
    decreases lengths.len(),
{
    if lengths.len() == 0 {
        Seq::empty()
    } else {
        let before = visible(lengths.drop_last());
        if lengths.last().less(Single { bits: MIN_PIECE_LENGTH }) {
            before
        } else {
            before.push((lengths.len() - 1) as usize)
        }
    }
}

/// The numbers of the pieces of a line that are drawn, by the lengths of all.
pub fn visible_pieces(lengths: &Vec<Single>) -> (r: Vec<usize>)
    ensures
        r@ == visible(lengths@),
{
    let mut r: Vec<usize> = Vec::new();
    for i in 0..lengths.len()
        invariant
            r@ == visible(lengths@.take(i as int)),
    {
        assert(lengths@.take(i + 1).drop_last() == lengths@.take(i as int));
        if !lengths[i].lt(Single { bits: MIN_PIECE_LENGTH }) {
            r.push(i);
        }
    }
    assert(lengths@.take(lengths@.len() as int) == lengths@);
    r
}

/// All points of a map: those of its roads, then those of its buildings.
pub open spec fn map_points(roads: Seq<RoadSegment>, buildings: Seq<Building>) -> Seq<Vec3> {
    all_points(road_points(roads)) + all_points(footprints(buildings))
}

/// The box around all points of a map, where it has any.
pub fn data_bounds(roads: &Vec<RoadSegment>, buildings: &Vec<Building>) -> (r: Option<Bounds>)
    ensures
        r == if map_points(roads@, buildings@).len() == 0 {
            None
        } else {
            Some(bounds_of(map_points(roads@, buildings@)))
        },
{
    let ghost road_lists = road_points(roads@);
    let ghost building_lists = footprints(buildings@);
    let mut bounds = Bounds::empty();
    let mut has_points = false;
    let ghost mut held: Seq<Vec3> = Seq::empty();
    for i in 0..roads.len()
        invariant
            road_lists == road_points(roads@),
            held == all_points(road_lists.take(i as int)),
            bounds == bounds_of(held),
            has_points == (held.len() > 0),
    {
        assert(road_lists.take(i + 1).drop_last() == road_lists.take(i as int));
        bounds = bounds.grow(&roads[i].points, Ghost(held));
        if roads[i].points.len() > 0 {
            has_points = true;
        }
        proof {
            held = held + roads@[i as int].points@;
        }
    }
    assert(road_lists.take(roads@.len() as int) == road_lists);
    let ghost on_roads = held;
    assert(on_roads + all_points(building_lists.take(0)) == on_roads);
    for i in 0..buildings.len()
        invariant
            building_lists == footprints(buildings@),
            held == on_roads + all_points(building_lists.take(i as int)),
            bounds == bounds_of(held),
            has_points == (held.len() > 0),
    {
        assert(building_lists.take(i + 1).drop_last() == building_lists.take(i as int));
        bounds = bounds.grow(&buildings[i].footprint, Ghost(held));
        if buildings[i].footprint.len() > 0 {
            has_points = true;
        }
        proof {
            held = held + buildings@[i as int].footprint@;
            assert(held == on_roads + (all_points(building_lists.take(i as int))
                + building_lists[i as int]));
        }
    }
    assert(building_lists.take(buildings@.len() as int) == building_lists);
    if has_points {
        Some(bounds)
    } else {
        None
    }
}

/// What the editor tells its user.
pub open spec fn editor_text(roads: nat, buildings: nat) -> Seq<char> {
    if roads > 0 {
        "Map Editor\nRoads: "@ + decimal(roads) + "  Buildings: "@ + decimal(buildings)
            + "\nClick a road to add a marker\nScroll: zoom in/out  Home: reset view\nBackspace: remove last marker\nC: clear all markers\nEnter: drive the track\nM: back to world map\nA track must be created from OSM roads before driving"@
    } else {
        "No OSM roads loaded.\nCheck your network, or run with:\n--osm-file path/to/map.osm\nor --bbox \"min_lat,min_lon,max_lat,max_lon\""@
    }
}

/// What the editor tells its user: the size of the map and the keys, or how to load a map
/// where there are no roads.
pub fn editor_help(roads: usize, buildings: usize) -> (r: String)
    ensures
        r@ == editor_text(roads as nat, buildings as nat),
{
    if roads > 0 {
        let mut r = "Map Editor\nRoads: ".to_owned();
        r.append(decimal_text(roads).as_str());
        r.append("  Buildings: ");
        r.append(decimal_text(buildings).as_str());
        r.append("\nClick a road to add a marker\nScroll: zoom in/out  Home: reset view\nBackspace: remove last marker\nC: clear all markers\nEnter: drive the track\nM: back to world map\nA track must be created from OSM roads before driving");
        r
    } else {
        "No OSM roads loaded.\nCheck your network, or run with:\n--osm-file path/to/map.osm\nor --bbox \"min_lat,min_lon,max_lat,max_lon\"".to_owned()
    }
}

/// Only two keys change a route, and only where none of the keys before them is pressed: the one
/// takes away the last marker and nothing else, the other takes away all.
pub proof fn route_changes_by_two_keys(points: Seq<Vec3>, input: EditorInput)
    ensures
        input.enter || input.numpad_enter || input.home || input.m ==> route_after(points, input)
            == points,
        !input.backspace && !input.c ==> route_after(points, input) == points,
        !input.enter && !input.numpad_enter && !input.home && !input.m && !input.backspace
            && input.c ==> route_after(points, input).len() == 0,
        !input.enter && !input.numpad_enter && !input.home && !input.m && input.backspace
            && points.len() > 0 ==> route_after(points, input).len() == points.len() - 1 && forall|
            i: int,
        |
            0 <= i < points.len() - 1 ==> #[trigger] route_after(points, input)[i] == points[i],
        points.len() == 0 ==> route_after(points, input).len() == 0,
{
}

/// Clicking alone changes no route, and what is clicked or not does not bear on other keys.
pub proof fn clicks_do_not_bear_on_keys(points: Seq<Vec3>, input: EditorInput, left_click: bool)
    ensures
        route_after(points, EditorInput { left_click, ..input }) == route_after(points, input),
{
}

/// A piece is drawn exactly where its length is not below the least length; the pieces are drawn in
/// order and each once.
pub proof fn visible_are_long_enough(lengths: Seq<Single>, k: usize)
    requires
        lengths.len() <= usize::MAX,
    ensures
        visible(lengths).contains(k) <==> k < lengths.len() && !lengths[k as int].less(
            Single { bits: 0x3c23_d70a },
        ),
        forall|i: int, j: int| 0 <= i < j < visible(lengths).len() ==> (#[trigger] visible(lengths)[i])
            < (#[trigger] visible(lengths)[j]),
        forall|i: int| 0 <= i < visible(lengths).len() ==> (#[trigger] visible(lengths)[i])
            < lengths.len(),
    decreases lengths.len(),
{
    if lengths.len() > 0 {
        let rest = lengths.drop_last();
        let before = visible(rest);
        let after = visible(lengths);
        visible_are_long_enough(rest, k);
        assert forall|i: int| 0 <= i < before.len() implies after[i] == #[trigger] before[i] by {}
        if k == lengths.len() - 1 {
            if after.len() > before.len() {
                assert(after.last() == k);
            }
            if after.contains(k) {
                let i = choose|i: int| 0 <= i < after.len() && after[i] == k;
                if i < before.len() {
                    assert(before[i] == k);
                }
            }
        } else if before.contains(k) {
            let i = choose|i: int| 0 <= i < before.len() && before[i] == k;
            assert(after[i] == k);
        } else if after.contains(k) {
            let i = choose|i: int| 0 <= i < after.len() && after[i] == k;
            assert(i < before.len());
            assert(before[i] == k);
        }
    }
}

/// All points of a map are those of its roads, road by road, and then those of its buildings,
/// building by building: none is left out and none is added.
pub proof fn map_has_every_point(roads: Seq<RoadSegment>, buildings: Seq<Building>)
    ensures
        ({
            let all = map_points(roads, buildings);
            let on_roads = points_before(road_points(roads), roads.len() as int);
            &&& all.len() == on_roads + points_before(footprints(buildings), buildings.len() as int)
            &&& forall|k: int, i: int|
                0 <= k < roads.len() && 0 <= i < roads[k].points@.len() ==> all[points_before(
                    road_points(roads),
                    k,
                ) + i] == #[trigger] roads[k].points@[i]
            &&& forall|k: int, i: int|
                0 <= k < buildings.len() && 0 <= i < buildings[k].footprint@.len() ==> all[on_roads
                    + points_before(footprints(buildings), k) + i]
                    == #[trigger] buildings[k].footprint@[i]
        }),
{
    let all = map_points(roads, buildings);
    let road_lists = road_points(roads);
    let building_lists = footprints(buildings);
    let on_roads = points_before(road_lists, roads.len() as int);
    all_points_count(road_lists);
    all_points_count(building_lists);
    assert forall|k: int, i: int|
        0 <= k < roads.len() && 0 <= i < roads[k].points@.len() implies all[points_before(
        road_lists,
        k,
    ) + i] == #[trigger] roads[k].points@[i] by {
        all_points_in_order(road_lists, k, i);
    }
    assert forall|k: int, i: int|
        0 <= k < buildings.len() && 0 <= i < buildings[k].footprint@.len() implies all[on_roads
        + points_before(building_lists, k) + i] == #[trigger] buildings[k].footprint@[i] by {
        all_points_in_order(building_lists, k, i);
    }
}

/// What the editor tells of a map that has roads names both counts: the number behind the first
/// words reads back as the roads, the one behind the next as the buildings. Nothing else in it
/// depends on them. Without roads it tells the same whatever the buildings.
pub proof fn editor_text_names_both_counts(roads: nat, buildings: nat, other: nat)
    requires
        roads > 0,
    ensures
        ({
            let text = editor_text(roads, buildings);
            let r = decimal(roads).len() as int;
            let b = decimal(buildings).len() as int;
            &&& text.take(18) == "Map Editor\nRoads: "@
            &&& integer_text(text.subrange(18, 18 + r)) == Some(roads as int)
            &&& text.subrange(18 + r, 31 + r) == "  Buildings: "@
            &&& integer_text(text.subrange(31 + r, 31 + r + b)) == Some(buildings as int)
            &&& text.skip(31 + r + b) == editor_text(1, 0).skip(33)
        }),
        editor_text(0, buildings) == editor_text(0, other),
        editor_text(0, buildings).take(20) == "No OSM roads loaded."@,
{
    reveal_strlit("Map Editor\nRoads: ");
    reveal_strlit("  Buildings: ");
    reveal_strlit("No OSM roads loaded.");
    reveal_strlit("No OSM roads loaded.\nCheck your network, or run with:\n--osm-file path/to/map.osm\nor --bbox \"min_lat,min_lon,max_lat,max_lon\"");
    let text = editor_text(roads, buildings);
    let r = decimal(roads).len() as int;
    let b = decimal(buildings).len() as int;
    decimal_reads_back(roads);
    decimal_reads_back(buildings);
    assert(text.subrange(18, 18 + r) == decimal(roads));
    assert(text.subrange(31 + r, 31 + r + b) == decimal(buildings));
    assert(decimal(1).len() == 1 && decimal(0).len() == 1);
    assert(text.take(18) == "Map Editor\nRoads: "@);
    assert(text.subrange(18 + r, 31 + r) == "  Buildings: "@);
    assert(text.skip(31 + r + b) == editor_text(1, 0).skip(33));
    assert(editor_text(0, buildings).take(20) == "No OSM roads loaded."@);
}

} // verus!
