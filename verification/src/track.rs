//! The track: a closed loop through control points, its road surface and its fences.
use crate::geometry::{at, origin, up, vec3, Vec3};
use crate::mesh::MeshData;
use crate::single::{one, zero, Single, ONE, ZERO};
use vstd::prelude::*;

verus! {

/// The width of a track: `7.0`.
pub const DEFAULT_TRACK_WIDTH: u32 = 0x40e0_0000;

/// The height of a fence: `1.0`.
pub const DEFAULT_FENCE_HEIGHT: u32 = 0x3f80_0000;

/// The thickness of a fence: `0.5`.
pub const DEFAULT_FENCE_THICKNESS: u32 = 0x3f00_0000;

/// The fewest control points that make a track.
pub const MIN_CONTROL_POINTS: usize = 3;

/// Cross sections of the road surface for each control point.
pub const SECTIONS_PER_POINT: usize = 20;

/// Fence pieces on either side for each control point.
pub const FENCES_PER_POINT: usize = 10;

/// The last place on a loop before it is whole: `1.0` less the distance to the next number
/// above it.
pub const LAST_PLACE: u32 = 0x3f7f_fffe;

/// A closed loop through control points.
#[derive(Clone, Debug)]
pub struct Track {
    pub control_points: Vec<Vec3>,
    pub width: Single,
}

impl Default for Track {
    /// A track without points and without width.
    fn default() -> (r: Track)
        ensures
            r.control_points@.len() == 0,
            r.width == zero(),
    {
        Track { control_points: Vec::new(), width: Single { bits: ZERO } }
    }
}

impl Track {
    /// A track of the default width.
    pub fn new(control_points: Vec<Vec3>) -> (r: Track)
        ensures
            r.control_points == control_points,
            r.width == (Single { bits: DEFAULT_TRACK_WIDTH }),
    {
        Track { control_points, width: Single { bits: DEFAULT_TRACK_WIDTH } }
    }

    /// The track can be driven: it has enough control points to be a loop.
    pub open spec fn valid(&self) -> bool {
        self.control_points@.len() >= MIN_CONTROL_POINTS
    }

    /// Whether the track can be driven.
    pub fn is_valid(&self) -> (r: bool)
        ensures
            r == self.valid(),
    {
        self.control_points.len() >= MIN_CONTROL_POINTS
    }
}

/// A place on a loop: at least its start, and short of a whole turn.
pub fn loop_place(t: Single) -> (r: Single)
    ensures
        r == t.clamped(zero(), Single { bits: LAST_PLACE }),
        t.bits <= 0x3f7f_fffe ==> r == t,
        0x3f7f_fffe < t.bits <= 0x7f80_0000 ==> r.bits == 0x3f7f_fffe,
        0x8000_0000 < t.bits <= 0xff80_0000 ==> r.bits == 0,
{
    t.clamp(Single { bits: ZERO }, Single { bits: LAST_PLACE })
}

/// A place on a loop is never a whole turn.
pub proof fn place_is_short_of_a_turn(t: Single)
    requires
        !t.nan(),
    ensures
        zero().at_most(t.clamped(zero(), Single { bits: LAST_PLACE })),
        t.clamped(zero(), Single { bits: LAST_PLACE }).less(one()),
{
}

/// What a closed spline follows at one place.
#[derive(Clone, Copy, Debug, PartialEq, Eq, Structural)]
pub enum SplineSpan {
    /// There are no points.
    Nowhere,
    /// There is only this point.
    Point(Vec3),
    /// The curve runs from `p1` to `p2`, bent by the points before and after them.
    Between { p0: Vec3, p1: Vec3, p2: Vec3, p3: Vec3 },
}

/// The point at place `i` around a loop.
pub open spec fn looped(points: Seq<Vec3>, i: int) -> Vec3 {
    points[i % (points.len() as int)]
}

/// What the closed spline through the points follows after `step` whole steps around it.
pub open spec fn span_at(points: Seq<Vec3>, step: int) -> SplineSpan {
    if points.len() == 0 {
        SplineSpan::Nowhere
    } else if points.len() == 1 {
        SplineSpan::Point(points[0])
    } else {
        SplineSpan::Between {
            p0: looped(points, step - 1),
            p1: looped(points, step),
            p2: looped(points, step + 1),
            p3: looped(points, step + 2),
        }
    }
}

/// What the closed spline through the points follows after `step` whole steps around it: the
/// points that a Catmull-Rom curve or its tangent is evaluated on.
pub fn spline_span(points: &Vec<Vec3>, step: usize) -> (r: SplineSpan)
    ensures
        r == span_at(points@, step as int),
{
    let n = points.len();
    if n == 0 {
        return SplineSpan::Nowhere;
    }
    if n == 1 {
        return SplineSpan::Point(points[0]);
    }
    let i = step % n;
    let before = if i == 0 { n - 1 } else { i - 1 };
    let next = if i + 1 == n { 0 } else { i + 1 };
    let after = if next + 1 == n { 0 } else { next + 1 };
    proof {
        lemma_step(step as int, n as int);
        lemma_step(step + 1, n as int);
        lemma_step(step - 1, n as int);
    }
    SplineSpan::Between { p0: points[before], p1: points[i], p2: points[next], p3: points[after] }
}

/// Where the spline is, where that takes no curve: at its only point, or at the origin where it
/// has none.
pub open spec fn settled(span: SplineSpan) -> Option<Vec3> {
    match span {
        SplineSpan::Nowhere => Some(origin()),
        SplineSpan::Point(point) => Some(point),
        SplineSpan::Between { .. } => None,
    }
}

/// The direction of the z axis.
pub open spec fn ahead() -> Vec3 {
    at(ZERO, ZERO, ONE)
}

/// Which way the spline runs, where that takes no curve: along the z axis unless there are two
/// points.
pub open spec fn settled_direction(span: SplineSpan) -> Option<Vec3> {
    match span {
        SplineSpan::Between { .. } => None,
        _ => Some(ahead()),
    }
}

impl SplineSpan {
    /// Where the spline is, where that takes no curve.
    pub fn settled_point(self) -> (r: Option<Vec3>)
        ensures
            r == settled(self),
    {
        match self {
            SplineSpan::Nowhere => Some(vec3(ZERO, ZERO, ZERO)),
            SplineSpan::Point(point) => Some(point),
            SplineSpan::Between { .. } => None,
        }
    }

    /// Which way the spline runs, where that takes no curve.
    pub fn settled_tangent(self) -> (r: Option<Vec3>)
        ensures
            r == settled_direction(self),
    {
        match self {
            SplineSpan::Between { .. } => None,
            _ => Some(vec3(ZERO, ZERO, ONE)),
        }
    }
}

/// One step around a loop of `n` places goes to the next place, and from the last to the first.
proof fn lemma_step(i: int, n: int)
    requires
        n > 0,
    ensures
        0 <= i % n < n,
        (i + 1) % n == if i % n + 1 == n { 0 } else { i % n + 1 },
{
    vstd::arithmetic::div_mod::lemma_mod_bound(i, n);
    vstd::arithmetic::div_mod::lemma_add_mod_noop(i, 1, n);
    if n == 1 {
        assert(i % n == 0);
        vstd::arithmetic::div_mod::lemma_mod_bound(i + 1, n);
    } else {
        vstd::arithmetic::div_mod::lemma_small_mod(1, n as nat);
        if i % n + 1 == n {
            vstd::arithmetic::div_mod::lemma_mod_self_0(n);
        } else {
            vstd::arithmetic::div_mod::lemma_small_mod((i % n + 1) as nat, n as nat);
        }
    }
}

/// The spline is a closed loop: each span ends where the next begins, and a whole turn leads
/// back to where it started.
pub proof fn spline_is_closed(points: Seq<Vec3>, step: int)
    requires
        points.len() >= 2,
    ensures
        (span_at(points, step)->p2) == (span_at(points, step + 1)->p1),
        span_at(points, step + points.len()) == span_at(points, step),
{
    let n = points.len() as int;
    vstd::arithmetic::div_mod::lemma_mod_add_multiples_vanish(step - 1, n);
    vstd::arithmetic::div_mod::lemma_mod_add_multiples_vanish(step, n);
    vstd::arithmetic::div_mod::lemma_mod_add_multiples_vanish(step + 1, n);
    vstd::arithmetic::div_mod::lemma_mod_add_multiples_vanish(step + 2, n);
}

/// The spline passes every control point: span `i` begins at point `i`.
pub proof fn spline_visits_points(points: Seq<Vec3>, i: int)
    requires
        points.len() >= 2,
        0 <= i < points.len(),
    ensures
        (span_at(points, i)->p1) == points[i],
{
    vstd::arithmetic::div_mod::lemma_small_mod(i as nat, points.len());
}

/// The number of control points that count for a mesh: theirs, but no fewer than make a track.
pub open spec fn mesh_points(n: nat) -> nat {
    if n < MIN_CONTROL_POINTS {
        MIN_CONTROL_POINTS as nat
    } else {
        n
    }
}

/// The number of pieces that the road surface of a track is made of.
pub fn track_samples(track: &Track) -> (r: usize)
    requires
        track.control_points@.len() * SECTIONS_PER_POINT <= usize::MAX,
    ensures
        r == mesh_points(track.control_points@.len()) * SECTIONS_PER_POINT,
{
    let n = track.control_points.len();
    (if n < MIN_CONTROL_POINTS { MIN_CONTROL_POINTS } else { n }) * SECTIONS_PER_POINT
}

/// The number of pieces of fence along either side of a track.
pub fn fence_segments(track: &Track) -> (r: usize)
    requires
        track.control_points@.len() * FENCES_PER_POINT <= usize::MAX,
    ensures
        r == mesh_points(track.control_points@.len()) * FENCES_PER_POINT,
{
    let n = track.control_points.len();
    (if n < MIN_CONTROL_POINTS { MIN_CONTROL_POINTS } else { n }) * FENCES_PER_POINT
}

/// The road surface across a track at one place.
#[derive(Clone, Copy, Debug, PartialEq, Eq, Structural)]
pub struct CrossSection {
    pub left: Vec3,
    pub right: Vec3,
    /// The place along the texture.
    pub v: Single,
}

/// The edges of the road: left and right of each section.
pub open spec fn road_corners(sections: Seq<CrossSection>) -> Seq<Vec3> {
    Seq::new(
        2 * sections.len(),
        |k: int| if k % 2 == 0 { sections[k / 2].left } else { sections[k / 2].right },
    )
}

/// The texture across the road from left to right and along it.
pub open spec fn road_uvs(sections: Seq<CrossSection>) -> Seq<(Single, Single)> {
    Seq::new(
        2 * sections.len(),
        |k: int| (if k % 2 == 0 { zero() } else { one() }, sections[k / 2].v),
    )
}

/// Corner `r` of the two triangles between a section and the next.
pub open spec fn road_index(r: int) -> int {
    if r == 0 {
        0
    } else if r == 1 || r == 4 {
        1
    } else if r == 5 {
        3
    } else {
        2
    }
}

/// The triangles of `pieces` pieces of road.
pub open spec fn road_indices(pieces: nat) -> Seq<u32> {
    Seq::new(6 * pieces, |i: int| (i / 6 * 2 + road_index(i % 6)) as u32)
}

/// The road surface of a track, from its cross sections around the loop: the last one is at
/// the place of the first.
pub fn build_track_mesh(track: &Track, sections: &Vec<CrossSection>) -> (r: MeshData)
    requires
        sections@.len() == mesh_points(track.control_points@.len()) * SECTIONS_PER_POINT + 1,
        2 * sections@.len() <= u32::MAX,
    ensures
        r.positions@ == road_corners(sections@),
        r.normals@ == Seq::new(2 * sections@.len(), |i: int| up()),
        r.uvs@ == road_uvs(sections@),
        r.indices@ == road_indices((sections@.len() - 1) as nat),
{
    let samples = sections.len() - 1;
    let mut positions: Vec<Vec3> = Vec::new();
    let mut normals: Vec<Vec3> = Vec::new();
    let mut uvs: Vec<(Single, Single)> = Vec::new();
    let mut indices: Vec<u32> = Vec::new();
    for i in 0..sections.len()
        invariant
            samples + 1 == sections@.len(),
            2 * sections@.len() <= u32::MAX,
            positions@ == road_corners(sections@).take(2 * i),
            normals@ == Seq::new(2 * i as nat, |i: int| up()),
            uvs@ == road_uvs(sections@).take(2 * i),
            indices@ == road_indices(samples as nat).take(if i <= samples { 6 * i } else { 6 * samples }),
    {
        let section = sections[i];
        positions.push(section.left);
        positions.push(section.right);
        normals.push(vec3(ZERO, ONE, ZERO));
        normals.push(vec3(ZERO, ONE, ZERO));
        uvs.push((Single { bits: ZERO }, section.v));
        uvs.push((Single { bits: ONE }, section.v));
        if i < samples {
            let base = i as u32 * 2;
            indices.push(base);
            indices.push(base + 1);
            indices.push(base + 2);
            indices.push(base + 2);
            indices.push(base + 1);
            indices.push(base + 3);
        }
        assert(positions@ == road_corners(sections@).take(2 * (i + 1)));
        assert(uvs@ == road_uvs(sections@).take(2 * (i + 1)));
    }
    MeshData { positions, normals, uvs, indices }
}

/// The road surface can be drawn, and every piece joins its section to the next.
pub proof fn track_mesh_drawable(sections: Seq<CrossSection>)
    requires
        sections.len() > 0,
        2 * sections.len() <= u32::MAX,
    ensures
        crate::mesh::drawable(
            road_corners(sections),
            Seq::new(2 * sections.len(), |i: int| up()),
            road_indices((sections.len() - 1) as nat),
        ),
{
    let indices = road_indices((sections.len() - 1) as nat);
    assert forall|i: int| 0 <= i < indices.len() implies (#[trigger] indices[i])
        < road_corners(sections).len() by {
        assert(i / 6 < sections.len() - 1);
    }
}

/// A rotation, as a quaternion.
#[derive(Clone, Copy, Debug, PartialEq, Eq, Structural)]
pub struct Rotation {
    pub x: Single,
    pub y: Single,
    pub z: Single,
    pub w: Single,
}

/// Where a body is, how it is turned and how large it is.
#[derive(Clone, Copy, Debug, PartialEq, Eq, Structural)]
pub struct Transform {
    pub translation: Vec3,
    pub rotation: Rotation,
    pub scale: Vec3,
}

/// A piece of fence to be set up.
#[derive(Clone, Copy, Debug, PartialEq, Eq, Structural)]
pub struct FenceSpawn {
    pub transform: Transform,
    pub size: Vec3,
}

/// A place of the track where a fence stands on either side.
#[derive(Clone, Copy, Debug, PartialEq, Eq, Structural)]
pub struct FencePlace {
    /// The middle of the fence on the left.
    pub left: Vec3,
    /// The middle of the fence on the right.
    pub right: Vec3,
    /// The direction of the track.
    pub rotation: Rotation,
    /// The length of the fence along the track.
    pub depth: Single,
}

/// The size of a fence of that length.
pub open spec fn fence_size(depth: Single) -> Vec3 {
    Vec3 {
        x: Single { bits: DEFAULT_FENCE_THICKNESS },
        y: Single { bits: DEFAULT_FENCE_HEIGHT },
        z: depth,
    }
}

/// A fence at a place.
pub open spec fn fence_at(translation: Vec3, place: FencePlace) -> FenceSpawn {
    FenceSpawn {
        transform: Transform {
            translation,
            rotation: place.rotation,
            scale: fence_size(place.depth),
        },
        size: fence_size(place.depth),
    }
}

fn fence(translation: Vec3, place: FencePlace) -> (r: FenceSpawn)
    ensures
        r == fence_at(translation, place),
{
    let size = Vec3 {
        x: Single { bits: DEFAULT_FENCE_THICKNESS },
        y: Single { bits: DEFAULT_FENCE_HEIGHT },
        z: place.depth,
    };
    FenceSpawn {
        transform: Transform { translation, rotation: place.rotation, scale: size },
        size,
    }
}

/// The fences along a track: those on the left and those on the right, place by place.
pub fn build_fences(places: &Vec<FencePlace>) -> (r: (Vec<FenceSpawn>, Vec<FenceSpawn>))
    ensures
        r.0@ == places@.map_values(|place: FencePlace| fence_at(place.left, place)),
        r.1@ == places@.map_values(|place: FencePlace| fence_at(place.right, place)),
{
    let ghost left = places@.map_values(|place: FencePlace| fence_at(place.left, place));
    let ghost right = places@.map_values(|place: FencePlace| fence_at(place.right, place));
    let mut left_fences: Vec<FenceSpawn> = Vec::new();
    let mut right_fences: Vec<FenceSpawn> = Vec::new();
    for i in 0..places.len()
        invariant
            left == places@.map_values(|place: FencePlace| fence_at(place.left, place)),
            right == places@.map_values(|place: FencePlace| fence_at(place.right, place)),
            left_fences@ == left.take(i as int),
            right_fences@ == right.take(i as int),
    {
        let place = places[i];
        left_fences.push(fence(place.left, place));
        right_fences.push(fence(place.right, place));
    }
    (left_fences, right_fences)
}

/// Neighbouring spans share all their points, shifted by one: each span's points before, at its
/// start and at its end are those of the span behind it one place on.
pub proof fn neighbouring_spans_share_points(points: Seq<Vec3>, step: int)
    requires
        points.len() >= 2,
    ensures
        (span_at(points, step + 1)->p0) == (span_at(points, step)->p1),
        (span_at(points, step + 1)->p1) == (span_at(points, step)->p2),
        (span_at(points, step + 1)->p2) == (span_at(points, step)->p3),
        span_at(points, step) is Between,
{
}

/// A span runs between neighbours on the loop, bent by the neighbours of those: from control point
/// `i` to the one after it, with the one before and the one after that.
pub proof fn span_runs_between_neighbours(points: Seq<Vec3>, i: int)
    requires
        points.len() >= 2,
        0 <= i < points.len(),
    ensures
        ({
            let n = points.len() as int;
            let span = span_at(points, i);
            &&& (span->p0) == if i > 0 { points[i - 1] } else { points[n - 1] }
            &&& (span->p1) == points[i]
            &&& (span->p2) == if i + 1 < n { points[i + 1] } else { points[0] }
            &&& (span->p3) == if i + 2 < n { points[i + 2] } else { points[i + 2 - n] }
        }),
{
    let n = points.len() as int;
    vstd::arithmetic::div_mod::lemma_small_mod(i as nat, n as nat);
    lemma_step(i, n);
    lemma_step(i + 1, n);
    lemma_step(i - 1, n);
    if i == 0 {
        vstd::arithmetic::div_mod::lemma_mod_add_multiples_vanish(-1, n);
        vstd::arithmetic::div_mod::lemma_small_mod((n - 1) as nat, n as nat);
    } else {
        vstd::arithmetic::div_mod::lemma_small_mod((i - 1) as nat, n as nat);
    }
}

/// Without points the spline is at the origin, and with one it stays there; with two or more it is
/// a curve. Its direction is along the z axis unless there are two.
pub proof fn short_splines_are_settled(points: Seq<Vec3>, step: int)
    ensures
        points.len() == 0 ==> settled(span_at(points, step)) == Some(at(0, 0, 0)),
        points.len() == 1 ==> settled(span_at(points, step)) == Some(points[0]),
        points.len() >= 2 ==> settled(span_at(points, step)) is None,
        points.len() <= 1 ==> settled_direction(span_at(points, step)) == Some(
            at(0, 0, 0x3f80_0000),
        ),
        points.len() >= 2 ==> settled_direction(span_at(points, step)) is None,
{
}

/// A mesh counts every control point, but never fewer than three.
pub proof fn mesh_counts_every_point(n: nat)
    ensures
        n >= 3 ==> mesh_points(n) == n,
        n < 3 ==> mesh_points(n) == 3,
{
}

/// Each cross section is two corners of the road, the left one and then the right one, at the
/// section's place along the texture and at either side of it.
pub proof fn road_follows_its_sections(sections: Seq<CrossSection>, i: int)
    requires
        0 <= i < sections.len(),
    ensures
        road_corners(sections).len() == 2 * sections.len(),
        road_corners(sections)[2 * i] == sections[i].left,
        road_corners(sections)[2 * i + 1] == sections[i].right,
        road_uvs(sections).len() == 2 * sections.len(),
        road_uvs(sections)[2 * i].0.bits == 0,
        road_uvs(sections)[2 * i].1 == sections[i].v,
        road_uvs(sections)[2 * i + 1].0.bits == 0x3f80_0000,
        road_uvs(sections)[2 * i + 1].1 == sections[i].v,
{
    assert((2 * i) / 2 == i && (2 * i + 1) / 2 == i);
}

/// Piece `i` of the road is two triangles between section `i` and the next: left, right and the
/// next left, then the next left, right and the next right.
pub proof fn road_pieces_join_sections(pieces: nat, i: int)
    requires
        0 <= i < pieces,
        2 * pieces + 2 <= u32::MAX,
    ensures
        ({
            let all = road_indices(pieces);
            &&& all.len() == 6 * pieces
            &&& all[6 * i] == 2 * i && all[6 * i + 1] == 2 * i + 1 && all[6 * i + 2] == 2 * i + 2
            &&& all[6 * i + 3] == 2 * i + 2 && all[6 * i + 4] == 2 * i + 1 && all[6 * i + 5] == 2 * i
                + 3
        }),
{
    assert((6 * i) / 6 == i && (6 * i + 1) / 6 == i && (6 * i + 2) / 6 == i);
    assert((6 * i + 3) / 6 == i && (6 * i + 4) / 6 == i && (6 * i + 5) / 6 == i);
}

/// A fence stands where it is put, turned as its place is, and is as thick and high as any fence
/// and as long as its place asks; it is drawn at its size.
pub proof fn fence_stands_in_its_place(translation: Vec3, place: FencePlace)
    ensures
        ({
            let fence = fence_at(translation, place);
            &&& fence.transform.translation == translation
            &&& fence.transform.rotation == place.rotation
            &&& fence.transform.scale == fence.size
            &&& fence.size.x.bits == 0x3f00_0000
            &&& fence.size.y.bits == 0x3f80_0000
            &&& fence.size.z == place.depth
        }),
{
}

/// Three control points make a track, and fewer do not.
pub proof fn three_points_make_a_track(track: Track)
    ensures
        track.valid() <==> track.control_points@.len() >= 3,
{
}

} // verus!
