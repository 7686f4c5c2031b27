//! The world map screen: what it draws and tells, and how the view moves.
use crate::geometry::{
    all_points, bounds_of, drawn, drawn_in_order, outline, outline_has_a_piece_for_each_point, outline_is_closed,
    points_before, ring_outline, Bounds, Vec3,
};
use crate::single::{zero, Single, ZERO};
use crate::text::{decimal, decimal_reads_back, decimal_text, integer_text};
use crate::world::ContinentPolygon;
use vstd::prelude::*;
use vstd::string::*;

verus! {

/// The highest the camera goes, and the highest from which urban areas are drawn: `1500.0`.
pub const MAX_CAMERA_HEIGHT: u32 = 0x44bb_8000;

/// The lowest the camera goes over the world map: `50.0`.
pub const MIN_WORLD_MAP_HEIGHT: u32 = 0x4248_0000;

/// The lowest the camera goes over the map editor: `10.0`.
pub const MIN_EDITOR_HEIGHT: u32 = 0x4120_0000;

/// The least radius of a marker on an urban area: `5.0`.
pub const MIN_MARKER_RADIUS: u32 = 0x40a0_0000;

/// The height of the camera over the world map after scrolling, from the height that the wheel
/// alone would give.
pub fn world_map_zoom(height: Single) -> (r: Single)
    ensures
        r == height.clamped(
            Single { bits: MIN_WORLD_MAP_HEIGHT },
            Single { bits: MAX_CAMERA_HEIGHT },
        ),
        0x4248_0000 <= height.bits <= 0x44bb_8000 ==> r == height,
        height.bits < 0x4248_0000 || 0x8000_0000 <= height.bits <= 0xff80_0000 ==> r.bits
            == 0x4248_0000,
        0x44bb_8000 < height.bits <= 0x7f80_0000 ==> r.bits == 0x44bb_8000,
{
    height.clamp(Single { bits: MIN_WORLD_MAP_HEIGHT }, Single { bits: MAX_CAMERA_HEIGHT })
}

/// The height of the camera over the map editor after scrolling, from the height that the wheel
/// alone would give.
pub fn map_select_zoom(height: Single) -> (r: Single)
    ensures
        r == height.clamped(
            Single { bits: MIN_EDITOR_HEIGHT },
            Single { bits: MAX_CAMERA_HEIGHT },
        ),
        0x4120_0000 <= height.bits <= 0x44bb_8000 ==> r == height,
        height.bits < 0x4120_0000 || 0x8000_0000 <= height.bits <= 0xff80_0000 ==> r.bits
            == 0x4120_0000,
        0x44bb_8000 < height.bits <= 0x7f80_0000 ==> r.bits == 0x44bb_8000,
{
    height.clamp(Single { bits: MIN_EDITOR_HEIGHT }, Single { bits: MAX_CAMERA_HEIGHT })
}

/// The height of the camera that shows a map whole, from the height that its size asks for: no
/// more than the highest.
pub fn overview_height(height: Single) -> (r: Single)
    ensures
        r == height.smaller(Single { bits: MAX_CAMERA_HEIGHT }),
        height.bits <= 0x44bb_8000 || 0x8000_0000 <= height.bits <= 0xff80_0000 ==> r == height,
        0x44bb_8000 < height.bits < 0x8000_0000 || 0xff80_0000 < height.bits ==> r.bits
            == 0x44bb_8000,
{
    height.min(Single { bits: MAX_CAMERA_HEIGHT })
}

/// The radius of a marker, from the radius that the camera's height asks for: no less than the
/// least.
pub fn marker_radius(radius: Single) -> (r: Single)
    ensures
        r == radius.larger(Single { bits: MIN_MARKER_RADIUS }),
        0x40a0_0000 <= radius.bits <= 0x7f80_0000 ==> r == radius,
        radius.bits < 0x40a0_0000 || 0x7f80_0000 < radius.bits ==> r.bits == 0x40a0_0000,
{
    radius.max(Single { bits: MIN_MARKER_RADIUS })
}

/// Whether urban areas are drawn from that height.
pub fn urban_areas_visible(height: Single) -> (r: bool)
    ensures
        r == !(Single { bits: MAX_CAMERA_HEIGHT }).less(height),
        r <==> !(0x44bb_8000 < height.bits <= 0x7f80_0000),
{
    !(Single { bits: MAX_CAMERA_HEIGHT }).lt(height)
}

/// A camera over the world map is kept where urban areas can be seen.
pub proof fn zoomed_camera_sees_urban_areas(height: Single)
    ensures
        !(Single { bits: MAX_CAMERA_HEIGHT }).less(
            height.clamped(
                Single { bits: MIN_WORLD_MAP_HEIGHT },
                Single { bits: MAX_CAMERA_HEIGHT },
            ),
        ),
{
}

/// A place in the window.
#[derive(Clone, Copy, Debug, PartialEq, Eq, Structural)]
pub struct Cursor {
    pub x: Single,
    pub y: Single,
}

/// Where the cursor was while the map was being dragged.
#[derive(Clone, Copy, Debug, PartialEq, Eq, Structural)]
pub struct WorldMapDragState {
    pub last_cursor: Option<Cursor>,
}

impl Default for WorldMapDragState {
    fn default() -> (r: WorldMapDragState)
        ensures
            r.last_cursor is None,
    {
        WorldMapDragState { last_cursor: None }
    }
}

/// What the mouse does in one frame.
#[derive(Clone, Copy, Debug, PartialEq, Eq, Structural)]
pub struct DragInput {
    /// The cursor, where there is a window and it is in it.
    pub cursor: Option<Cursor>,
    /// The left button was let go in this frame.
    pub just_released: bool,
    /// The left button is held down.
    pub pressed: bool,
    /// There is a camera to move.
    pub has_camera: bool,
}

/// The drag goes on: the cursor is in the window with the button held down.
pub open spec fn dragging(input: DragInput) -> bool {
    input.cursor is Some && input.pressed && !input.just_released
}

/// Where the cursor was, after a frame.
pub open spec fn last_after(last: Option<Cursor>, input: DragInput) -> Option<Cursor> {
    if !dragging(input) {
        None
    } else if !input.has_camera {
        last
    } else {
        input.cursor
    }
}

/// From where to where the map is dragged in a frame.
pub open spec fn dragged(last: Option<Cursor>, input: DragInput) -> Option<(Cursor, Cursor)> {
    if dragging(input) && input.has_camera && last is Some {
        Some((last->0, input.cursor->0))
    } else {
        None
    }
}

/// Each move of a drag goes on from where the one before it ended.
pub proof fn drag_is_continuous(last: Option<Cursor>, first: DragInput, second: DragInput)
    requires
        dragged(last, first) is Some,
        dragged(last_after(last, first), second) is Some,
    ensures
        (dragged(last_after(last, first), second)->0).0 == (dragged(last, first)->0).1,
{
}

/// Letting the button go ends a drag: the next one does not start from where it was.
pub proof fn release_ends_drag(last: Option<Cursor>, release: DragInput, next: DragInput)
    requires
        release.just_released || !release.pressed,
    ensures
        dragged(last, release) is None,
        dragged(last_after(last, release), next) is None,
{
}

impl WorldMapDragState {
    /// Follows the mouse for one frame. Tells from where to where the map was dragged; the
    /// first frame of a drag only notes where it begins, and without a camera nothing changes.
    pub fn drag(&mut self, input: DragInput) -> (r: Option<(Cursor, Cursor)>)
        ensures
            final(self).last_cursor == last_after(old(self).last_cursor, input),
            r == dragged(old(self).last_cursor, input),
    {
        let cursor = match input.cursor {
            Some(cursor) => cursor,
            None => {
                self.last_cursor = None;
                return None;
            },
        };
        if input.just_released || !input.pressed {
            self.last_cursor = None;
            return None;
        }
        if !input.has_camera {
            return None;
        }
        let last = self.last_cursor;
        self.last_cursor = Some(cursor);
        match last {
            Some(last) => Some((last, cursor)),
            None => None,
        }
    }
}

/// Whether both lines of sight meet the ground ahead, so that the map moves with the cursor.
/// The distances along them are `t_current` and `t_last`.
pub fn drag_moves_map(t_current: Single, t_last: Single) -> (r: bool)
    ensures
        r == (t_current.finite() && t_last.finite() && zero().less(t_current) && zero().less(
            t_last,
        )),
        r <==> 0 < t_current.bits < 0x7f80_0000 && 0 < t_last.bits < 0x7f80_0000,
{
    let zero = Single { bits: ZERO };
    t_current.is_finite() && t_last.is_finite() && zero.lt(t_current) && zero.lt(t_last)
}

/// Areas, as their points.
pub open spec fn area_points(areas: Seq<ContinentPolygon>) -> Seq<Seq<Vec3>> {
    areas.map_values(|area: ContinentPolygon| area.points@)
}

/// The outlines of areas, one after the other.
pub open spec fn outlines_of(areas: Seq<Seq<Vec3>>) -> Seq<(Vec3, Vec3)>
    decreases areas.len(),
{
    if areas.len() == 0 {
        Seq::empty()
    } else {
        outlines_of(areas.drop_last()) + outline(areas.last())
    }
}

/// The lines that outline areas, each area closed.
pub fn map_outlines(areas: &Vec<ContinentPolygon>) -> (r: Vec<(Vec3, Vec3)>)
    ensures
        r@ == outlines_of(area_points(areas@)),
{
    let ghost lists = area_points(areas@);
    let mut r: Vec<(Vec3, Vec3)> = Vec::new();
    for i in 0..areas.len()
        invariant
            lists == area_points(areas@),
            r@ == outlines_of(lists.take(i as int)),
    {
        assert(lists.take(i + 1).drop_last() == lists.take(i as int));
        let mut more = ring_outline(&areas[i].points);
        r.append(&mut more);
    }
    assert(lists.take(areas@.len() as int) == lists);
    r
}

/// The areas of at least three points, in order.
pub open spec fn drawn_areas(areas: Seq<Seq<Vec3>>) -> Seq<Seq<Vec3>> {
    areas.filter(|points: Seq<Vec3>| points.len() >= 3)
}

/// What is drawn and told once the world map is there, or could not be had.
#[derive(Debug)]
pub struct WorldMapReport {
    /// The areas that are drawn, by their numbers.
    pub drawn: Vec<usize>,
    /// The box around the areas that are drawn.
    pub bounds: Bounds,
    pub help_text: String,
}

/// What is told of a world map of which so many areas are drawn.
pub open spec fn world_map_text(rendered: nat) -> Seq<char> {
    "World Map\nContinents: "@ + decimal(rendered)
        + "\nClick anywhere to select a region\nScroll: zoom in/out"@
}

/// What is told where the world map could not be had.
pub open spec fn no_world_map_text(error: Seq<char>) -> Seq<char> {
    "World Map\nFailed to load continents.\n"@ + error
        + "\nDownload ne_110m_land.geojson manually or check network."@
}

/// What is drawn and told of the world map. Areas of fewer than three points are left out.
pub fn world_map_report(result: &Result<Vec<ContinentPolygon>, String>) -> (r: WorldMapReport)
    ensures
        match *result {
            Ok(areas) => {
                &&& r.drawn@ == drawn(area_points(areas@))
                &&& r.bounds == bounds_of(all_points(drawn_areas(area_points(areas@))))
                &&& r.help_text@ == world_map_text(drawn(area_points(areas@)).len())
            },
            Err(error) => {
                &&& r.drawn@.len() == 0
                &&& r.bounds == bounds_of(Seq::empty())
                &&& r.help_text@ == no_world_map_text(error@)
            },
        },
{
    match result {
        Ok(areas) => {
            let ghost lists = area_points(areas@);
            let mut numbers: Vec<usize> = Vec::new();
            let mut bounds = Bounds::empty();
            let ghost mut held: Seq<Vec3> = Seq::empty();
            proof {
                reveal(Seq::filter);
            }
            for i in 0..areas.len()
                invariant
                    lists == area_points(areas@),
                    numbers@ == drawn(lists.take(i as int)),
                    held == all_points(drawn_areas(lists.take(i as int))),
                    bounds == bounds_of(held),
            {
                assert(lists.take(i + 1).drop_last() == lists.take(i as int));
                proof {
                    reveal(Seq::filter);
                }
                if areas[i].points.len() >= 3 {
                    numbers.push(i);
                    bounds = bounds.grow(&areas[i].points, Ghost(held));
                    proof {
                        let before = drawn_areas(lists.take(i as int));
                        let after = drawn_areas(lists.take(i + 1));
                        assert(after == before.push(lists[i as int]));
                        assert(after.drop_last() == before);
                        held = held + lists[i as int];
                    }
                }
            }
            assert(lists.take(areas@.len() as int) == lists);
            let mut help_text = "World Map\nContinents: ".to_owned();
            help_text.append(decimal_text(numbers.len()).as_str());
            help_text.append("\nClick anywhere to select a region\nScroll: zoom in/out");
            WorldMapReport { drawn: numbers, bounds, help_text }
        },
        Err(error) => {
            let mut help_text = "World Map\nFailed to load continents.\n".to_owned();
            help_text.append(error.as_str());
            help_text.append("\nDownload ne_110m_land.geojson manually or check network.");
            WorldMapReport { drawn: Vec::new(), bounds: Bounds::empty(), help_text }
        },
    }
}

/// The urban areas once they are there: those that were loaded, or what there was before where
/// loading failed.
pub fn receive_urban_areas(
    current: Vec<ContinentPolygon>,
    result: Result<Vec<ContinentPolygon>, String>,
) -> (r: Vec<ContinentPolygon>)
    ensures
        r == match result {
            Ok(areas) => areas,
            Err(_) => current,
        },
{
    match result {
        Ok(areas) => areas,
        Err(_) => current,
    }
}

/// Whether the urban areas have been reported.
#[derive(Clone, Copy, Debug, PartialEq, Eq, Structural)]
pub struct UrbanNotice {
    pub shown: bool,
}

impl UrbanNotice {
    /// The box around all urban areas, the first time that there are any, and nothing after
    /// that.
    pub fn report(&mut self, areas: &Vec<ContinentPolygon>) -> (r: Option<Bounds>)
        ensures
            final(self).shown == (old(self).shown || areas@.len() > 0),
            r == if !old(self).shown && areas@.len() > 0 {
                Some(bounds_of(all_points(area_points(areas@))))
            } else {
                None
            },
    {
        if self.shown || areas.len() == 0 {
            return None;
        }
        self.shown = true;
        let ghost lists = area_points(areas@);
        let mut bounds = Bounds::empty();
        let ghost mut held: Seq<Vec3> = Seq::empty();
        for i in 0..areas.len()
            invariant
                lists == area_points(areas@),
                held == all_points(lists.take(i as int)),
                bounds == bounds_of(held),
        {
            assert(lists.take(i + 1).drop_last() == lists.take(i as int));
            bounds = bounds.grow(&areas[i].points, Ghost(held));
            proof {
                held = held + lists[i as int];
            }
        }
        assert(lists.take(areas@.len() as int) == lists);
        Some(bounds)
    }
}

/// While the button is held over a window with a camera, each frame but the first drags the map
/// from where the cursor was in the frame before to where it is.
pub proof fn held_button_drags(last: Option<Cursor>, first: DragInput, second: DragInput)
    requires
        first.pressed && !first.just_released && first.has_camera && first.cursor is Some,
        second.pressed && !second.just_released && second.has_camera && second.cursor is Some,
    ensures
        dragged(None, first) is None,
        dragged(last_after(last, first), second) == Some((first.cursor->0, second.cursor->0)),
{
}

/// Nothing is dragged without a camera, and the drag then goes on from where it was. A cursor that
/// leaves the window ends it.
pub proof fn drag_needs_camera_and_cursor(last: Option<Cursor>, input: DragInput)
    ensures
        !input.has_camera ==> dragged(last, input) is None,
        !input.has_camera && input.pressed && !input.just_released && input.cursor is Some
            ==> last_after(last, input) == last,
        input.cursor is None ==> dragged(last, input) is None && last_after(last, input) is None,
        input.just_released || !input.pressed ==> last_after(last, input) is None,
{
}

/// The lines of the map are those of its areas, area by area: line `i` of area `k` runs from its
/// point `i` to the point after it around the area.
pub proof fn map_lines_follow_areas(areas: Seq<Seq<Vec3>>, k: int, i: int)
    requires
        0 <= k < areas.len(),
        0 <= i < areas[k].len(),
    ensures
        outlines_of(areas).len() == points_before(areas, areas.len() as int),
        0 <= points_before(areas, k) + i < outlines_of(areas).len(),
        outlines_of(areas)[points_before(areas, k) + i].0 == areas[k][i],
        outlines_of(areas)[points_before(areas, k) + i].1 == if i + 1 < areas[k].len() {
            areas[k][i + 1]
        } else {
            areas[k][0]
        },
    decreases areas.len(),
{
    let rest = areas.drop_last();
    lemma_lines_count(rest);
    lemma_lines_count(areas);
    lemma_points_before_rest(areas, k);
    lemma_points_before_rest(areas, rest.len() as int);
    if k < rest.len() {
        assert(rest[k] == areas[k]);
        map_lines_follow_areas(rest, k, i);
    } else {
        outline_is_closed(areas[k], i);
        if i + 1 < areas[k].len() {
            vstd::arithmetic::div_mod::lemma_small_mod((i + 1) as nat, areas[k].len());
        } else {
            vstd::arithmetic::div_mod::lemma_mod_self_0(areas[k].len() as int);
        }
    }
}

proof fn lemma_lines_count(areas: Seq<Seq<Vec3>>)
    ensures
        outlines_of(areas).len() == points_before(areas, areas.len() as int),
    decreases areas.len(),
{
    if areas.len() > 0 {
        lemma_lines_count(areas.drop_last());
        lemma_points_before_rest(areas, areas.len() - 1);
        outline_has_a_piece_for_each_point(areas.last());
    }
}

proof fn lemma_points_before_rest(areas: Seq<Seq<Vec3>>, k: int)
    requires
        areas.len() > 0,
        k < areas.len(),
    ensures
        points_before(areas, k) == points_before(areas.drop_last(), k),
        0 <= points_before(areas, k),
    decreases k,
{
    if k > 0 {
        assert(areas.drop_last()[k - 1] == areas[k - 1]);
        lemma_points_before_rest(areas, k - 1);
    }
}

/// The areas within the bounds are those that are drawn, one for one and in order.
pub proof fn drawn_areas_are_those_drawn(areas: Seq<Seq<Vec3>>)
    requires
        areas.len() <= usize::MAX,
    ensures
        drawn_areas(areas).len() == drawn(areas).len(),
        forall|j: int| 0 <= j < drawn(areas).len() ==> #[trigger] drawn_areas(areas)[j]
            == areas[drawn(areas)[j] as int],
    decreases areas.len(),
{
    reveal(Seq::filter);
    if areas.len() > 0 {
        let rest = areas.drop_last();
        drawn_areas_are_those_drawn(rest);
        drawn_in_order(rest);
        assert forall|j: int| 0 <= j < drawn(areas).len() implies #[trigger] drawn_areas(areas)[j]
            == areas[drawn(areas)[j] as int] by {
            if j < drawn(rest).len() {
                assert(drawn_areas(rest)[j] == rest[drawn(rest)[j] as int]);
                assert(drawn(areas)[j] == drawn(rest)[j]);
                assert(drawn_areas(areas)[j] == drawn_areas(rest)[j]);
            }
        }
    }
}

/// What is told of the world map names how many areas are drawn, and nothing else in it depends on
/// that; what is told where it could not be had gives the error whole.
pub proof fn world_map_texts_name_what_matters(rendered: nat, error: Seq<char>)
    ensures
        ({
            let text = world_map_text(rendered);
            let r = decimal(rendered).len() as int;
            &&& text.take(22) == "World Map\nContinents: "@
            &&& integer_text(text.subrange(22, 22 + r)) == Some(rendered as int)
            &&& text.skip(22 + r) == world_map_text(0).skip(23)
        }),
        no_world_map_text(error).subrange(37, 37 + error.len() as int) == error,
        no_world_map_text(error).take(37) == "World Map\nFailed to load continents.\n"@,
        no_world_map_text(error).skip(37 + error.len() as int) == no_world_map_text(
            Seq::empty(),
        ).skip(37),
{
    reveal_strlit("World Map\nContinents: ");
    reveal_strlit("World Map\nFailed to load continents.\n");
    decimal_reads_back(rendered);
    let text = world_map_text(rendered);
    let r = decimal(rendered).len() as int;
    assert(text.subrange(22, 22 + r) == decimal(rendered));
    assert(text.take(22) == "World Map\nContinents: "@);
    assert(decimal(0).len() == 1);
    assert(text.skip(22 + r) == world_map_text(0).skip(23));
    assert(no_world_map_text(error).subrange(37, 37 + error.len() as int) == error);
    assert(no_world_map_text(error).take(37) == "World Map\nFailed to load continents.\n"@);
    assert(no_world_map_text(error).skip(37 + error.len() as int) == no_world_map_text(
        Seq::empty(),
    ).skip(37));
}

/// Areas are seen whole: every one, in order, with all its points.
pub proof fn areas_are_seen_whole(areas: Seq<ContinentPolygon>, i: int)
    requires
        0 <= i < areas.len(),
    ensures
        area_points(areas).len() == areas.len(),
        area_points(areas)[i] == areas[i].points@,
{
}

} // verus!
