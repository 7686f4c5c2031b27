//! Triangle meshes: areas of the world map and buildings.
//!
//! The triangulation of an outline is handed in as a list of corner numbers, three for each
//! triangle.
use crate::geometry::{at, down, up, vec3, Vec3};
use crate::osm::Building;
use crate::single::{zero, Single, MINUS_ONE, ONE, ZERO};
use crate::world::ContinentPolygon;
use vstd::prelude::*;

verus! {

/// The height at which land is drawn: `0.5`.
pub const LAND_HEIGHT: u32 = 0x3f00_0000;

/// The least height of a building: `0.1`.
pub const MIN_BUILDING_HEIGHT: u32 = 0x3dcc_cccd;

/// A triangle mesh: for each corner its place, its normal and, where the surface is textured,
/// its place on the texture; and the corners of each triangle, three by three.
#[derive(Debug)]
pub struct MeshData {
    pub positions: Vec<Vec3>,
    pub normals: Vec<Vec3>,
    pub uvs: Vec<(Single, Single)>,
    pub indices: Vec<u32>,
}

/// A mesh can be drawn: every corner has a normal, the indices come in threes, and each names
/// a corner.
pub open spec fn drawable(positions: Seq<Vec3>, normals: Seq<Vec3>, indices: Seq<u32>) -> bool {
    &&& normals.len() == positions.len()
    &&& indices.len() % 3 == 0
    &&& forall|i: int| 0 <= i < indices.len() ==> (#[trigger] indices[i]) < positions.len()
}

/// Corner numbers of triangles of an outline of `n` points.
pub open spec fn triangulates(triangles: Seq<usize>, n: nat) -> bool {
    &&& triangles.len() % 3 == 0
    &&& forall|i: int| 0 <= i < triangles.len() ==> (#[trigger] triangles[i]) < n
}

/// Corner `r` of the two faces of a triangle: the triangle, then the triangle the other way
/// round.
pub open spec fn two_faced(r: int) -> int {
    if r < 3 {
        r
    } else if r == 3 {
        0
    } else if r == 4 {
        2
    } else {
        1
    }
}

/// Each triangle twice, the second time the other way round.
pub open spec fn both_faces(triangles: Seq<usize>) -> Seq<u32> {
    Seq::new(
        2 * triangles.len(),
        |i: int| triangles[i / 6 * 3 + two_faced(i % 6)] as u32,
    )
}

/// The outline's points at the height of land.
pub open spec fn land_corners(points: Seq<Vec3>) -> Seq<Vec3> {
    points.map_values(|p: Vec3| at(p.x.bits, LAND_HEIGHT, p.z.bits))
}

/// The mesh of an area of the world map. Every triangle is there twice, once for each face, so
/// that both faces render.
pub fn build_continent_mesh(polygon: &ContinentPolygon, triangles: &Vec<usize>) -> (r: MeshData)
    requires
        triangles@.len() % 3 == 0,
    ensures
        r.positions@ == land_corners(polygon.points@),
        r.normals@ == Seq::new(polygon.points@.len(), |i: int| up()),
        r.uvs@ == Seq::new(polygon.points@.len(), |i: int| (zero(), zero())),
        r.indices@ == both_faces(triangles@),
{
    let mut positions: Vec<Vec3> = Vec::new();
    let mut normals: Vec<Vec3> = Vec::new();
    let mut uvs: Vec<(Single, Single)> = Vec::new();
    for i in 0..polygon.points.len()
        invariant
            positions@ == land_corners(polygon.points@).take(i as int),
            normals@ == Seq::new(i as nat, |i: int| up()),
            uvs@ == Seq::new(i as nat, |i: int| (zero(), zero())),
    {
        let p = polygon.points[i];
        positions.push(vec3(p.x.bits, LAND_HEIGHT, p.z.bits));
        normals.push(vec3(ZERO, ONE, ZERO));
        uvs.push((Single { bits: ZERO }, Single { bits: ZERO }));
    }
    let mut indices: Vec<u32> = Vec::new();
    let mut t: usize = 0;
    while t < triangles.len()
        invariant
            triangles@.len() % 3 == 0,
            t % 3 == 0,
            t <= triangles@.len(),
            indices@ == both_faces(triangles@).take(2 * t),
        decreases triangles@.len() - t,
    {
        let a = triangles[t] as u32;
        let b = triangles[t + 1] as u32;
        let c = triangles[t + 2] as u32;
        indices.push(a);
        indices.push(b);
        indices.push(c);
        indices.push(a);
        indices.push(c);
        indices.push(b);
        t = t + 3;
    }
    MeshData { positions, normals, uvs, indices }
}

/// The mesh of an area can be drawn wherever the triangles are those of its outline.
pub proof fn continent_mesh_drawable(points: Seq<Vec3>, triangles: Seq<usize>)
    requires
        triangulates(triangles, points.len()),
        points.len() <= u32::MAX,
    ensures
        drawable(
            land_corners(points),
            Seq::new(points.len(), |i: int| up()),
            both_faces(triangles),
        ),
{
    let indices = both_faces(triangles);
    assert forall|i: int| 0 <= i < indices.len() implies (#[trigger] indices[i]) < points.len() by {
        let k = i / 6 * 3 + two_faced(i % 6);
        assert(0 <= k < triangles.len());
        assert(triangles[k] < points.len());
    }
}

/// Triangle `t` of an outline stands in the mesh once each way round.
pub proof fn each_triangle_has_both_faces(triangles: Seq<usize>, t: int)
    requires
        triangles.len() % 3 == 0,
        0 <= t,
        3 * t < triangles.len(),
    ensures
        both_faces(triangles).subrange(6 * t, 6 * t + 3) == seq![
            triangles[3 * t] as u32,
            triangles[3 * t + 1] as u32,
            triangles[3 * t + 2] as u32,
        ],
        both_faces(triangles).subrange(6 * t + 3, 6 * t + 6) == seq![
            triangles[3 * t] as u32,
            triangles[3 * t + 2] as u32,
            triangles[3 * t + 1] as u32,
        ],
{
    assert(3 * t + 3 <= triangles.len());
}

/// The footprint at the ground.
pub open spec fn ground_corners(footprint: Seq<Vec3>) -> Seq<Vec3> {
    footprint.map_values(|p: Vec3| at(p.x.bits, ZERO, p.z.bits))
}

/// The footprint at the height of the roof.
pub open spec fn roof_corners(footprint: Seq<Vec3>, height: Single) -> Seq<Vec3> {
    footprint.map_values(|p: Vec3| at(p.x.bits, height.bits, p.z.bits))
}

/// Point `i` of a footprint, around it.
pub open spec fn around(footprint: Seq<Vec3>, i: int) -> Vec3 {
    footprint[i % (footprint.len() as int)]
}

/// Corner `c` of the wall between point `i` and the next: at the ground from the one to the
/// other, then back at the roof.
pub open spec fn wall_corner(footprint: Seq<Vec3>, height: Single, i: int, c: int) -> Vec3 {
    let p = around(footprint, if c == 0 || c == 3 { i } else { i + 1 });
    at(p.x.bits, if c < 2 { ZERO } else { height.bits }, p.z.bits)
}

/// The corners of all walls, four for each.
pub open spec fn wall_corners(footprint: Seq<Vec3>, height: Single) -> Seq<Vec3> {
    Seq::new(4 * footprint.len(), |k: int| wall_corner(footprint, height, k / 4, k % 4))
}

/// The normals of the walls' corners: each wall's normal at its four corners, turned round
/// unless the footprint runs counter-clockwise.
pub open spec fn wall_normals(normals: Seq<Vec3>, is_ccw: bool) -> Seq<Vec3> {
    Seq::new(
        4 * normals.len(),
        |k: int| if is_ccw { normals[k / 4] } else { normals[k / 4].reversed() },
    )
}

/// Corner `r` of a triangle the other way round.
pub open spec fn flipped(r: int) -> int {
    if r == 0 {
        0
    } else {
        3 - r
    }
}

/// The triangles of the floor, seen from below.
pub open spec fn floor_indices(triangles: Seq<usize>) -> Seq<u32> {
    Seq::new(triangles.len(), |i: int| triangles[i / 3 * 3 + flipped(i % 3)] as u32)
}

/// The triangles of the roof, whose corners follow the `n` of the floor.
pub open spec fn roof_indices(triangles: Seq<usize>, n: nat) -> Seq<u32> {
    Seq::new(triangles.len(), |i: int| (n + triangles[i]) as u32)
}

/// Corner `r` of the two triangles of a wall.
pub open spec fn wall_index(r: int) -> int {
    if r == 0 || r == 3 {
        0
    } else if r == 1 {
        1
    } else if r == 4 {
        3
    } else {
        2
    }
}

/// The triangles of `n` walls, whose corners follow those of floor and roof.
pub open spec fn wall_indices(n: nat) -> Seq<u32> {
    Seq::new(6 * n, |i: int| (2 * n + i / 6 * 4 + wall_index(i % 6)) as u32)
}

/// The height at which a building's roof is drawn: its own, but no less than
/// [`MIN_BUILDING_HEIGHT`].
pub open spec fn roof_height(height: Single) -> Single {
    height.larger(Single { bits: MIN_BUILDING_HEIGHT })
}

/// The corners of a building: floor, roof, walls.
pub open spec fn building_corners(footprint: Seq<Vec3>, height: Single) -> Seq<Vec3> {
    ground_corners(footprint) + roof_corners(footprint, height) + wall_corners(footprint, height)
}

/// The normals at a building's corners.
pub open spec fn building_normals(wall: Seq<Vec3>, is_ccw: bool) -> Seq<Vec3> {
    Seq::new(wall.len(), |i: int| down()) + Seq::new(wall.len(), |i: int| up()) + wall_normals(
        wall,
        is_ccw,
    )
}

/// The triangles of a building: floor, roof, walls.
pub open spec fn building_indices(triangles: Seq<usize>, n: nat) -> Seq<u32> {
    floor_indices(triangles) + roof_indices(triangles, n) + wall_indices(n)
}

/// The edges of a footprint, point to next point, around it: one for each wall.
pub open spec fn wall_edges(footprint: Seq<Vec3>) -> Seq<(Vec3, Vec3)> {
    Seq::new(footprint.len(), |i: int| (footprint[i], around(footprint, i + 1)))
}

/// The edges of a building's footprint, one for each wall.
pub fn building_edges(building: &Building) -> (r: Vec<(Vec3, Vec3)>)
    ensures
        r@ == wall_edges(building.footprint@),
{
    let n = building.footprint.len();
    let mut r: Vec<(Vec3, Vec3)> = Vec::new();
    for i in 0..n
        invariant
            n == building.footprint@.len(),
            r@ == wall_edges(building.footprint@).take(i as int),
    {
        let j = if i + 1 == n { 0 } else { i + 1 };
        proof {
            lemma_next_around(i as int, n as int);
        }
        r.push((building.footprint[i], building.footprint[j]));
    }
    r
}

proof fn lemma_next_around(i: int, n: int)
    requires
        0 <= i < n,
    ensures
        i % n == i,
        (i + 1) % n == if i + 1 == n { 0 } else { i + 1 },
{
    vstd::arithmetic::div_mod::lemma_small_mod(i as nat, n as nat);
    if i + 1 == n {
        vstd::arithmetic::div_mod::lemma_mod_self_0(n);
    } else {
        vstd::arithmetic::div_mod::lemma_small_mod((i + 1) as nat, n as nat);
    }
}

/// The mesh of a building: floor, roof and one wall for each edge of its footprint.
///
/// `triangles` are those of the footprint, `normals` the normal of each wall of a
/// counter-clockwise footprint in the order of [`building_edges`], and `signed_area` a number
/// that is above zero for such a footprint. Of another footprint the normals are turned round,
/// so that they point outward.
pub fn build_building_mesh(
    building: &Building,
    triangles: &Vec<usize>,
    normals: &Vec<Vec3>,
    signed_area: Single,
) -> (r: MeshData)
    requires
        triangulates(triangles@, building.footprint@.len()),
        normals@.len() == building.footprint@.len(),
        6 * building.footprint@.len() <= u32::MAX,
    ensures
        r.positions@ == building_corners(building.footprint@, roof_height(building.height)),
        r.normals@ == building_normals(normals@, zero().less(signed_area)),
        r.uvs@.len() == 0,
        r.indices@ == building_indices(triangles@, building.footprint@.len()),
{
    let height = building.height.max(Single { bits: MIN_BUILDING_HEIGHT });
    let is_ccw = (Single { bits: ZERO }).lt(signed_area);
    let n = building.footprint.len();
    let ghost footprint = building.footprint@;
    let mut positions: Vec<Vec3> = Vec::new();
    let mut corner_normals: Vec<Vec3> = Vec::new();
    for i in 0..n
        invariant
            n == footprint.len(),
            footprint == building.footprint@,
            positions@ == ground_corners(footprint).take(i as int),
            corner_normals@ == Seq::new(i as nat, |i: int| down()),
    {
        let p = building.footprint[i];
        positions.push(vec3(p.x.bits, ZERO, p.z.bits));
        corner_normals.push(vec3(ZERO, MINUS_ONE, ZERO));
    }
    assert(positions@ == ground_corners(footprint));
    for i in 0..n
        invariant
            n == footprint.len(),
            footprint == building.footprint@,
            positions@ == ground_corners(footprint) + roof_corners(footprint, height).take(i as int),
            corner_normals@ == Seq::new(n as nat, |i: int| down()) + Seq::new(
                i as nat,
                |i: int| up(),
            ),
    {
        let p = building.footprint[i];
        positions.push(vec3(p.x.bits, height.bits, p.z.bits));
        corner_normals.push(vec3(ZERO, ONE, ZERO));
    }
    let mut indices = flat_indices(triangles, n);
    let ghost flat = ground_corners(footprint) + roof_corners(footprint, height);
    let ghost flat_normals = Seq::new(n as nat, |i: int| down()) + Seq::new(n as nat, |i: int| up());
    let ghost flat_triangles = floor_indices(triangles@) + roof_indices(triangles@, n as nat);
    assert(positions@ == flat + wall_corners(footprint, height).take(0));
    assert(corner_normals@ == flat_normals + wall_normals(normals@, is_ccw).take(0));
    assert(indices@ == flat_triangles + wall_indices(n as nat).take(0));
    for i in 0..n
        invariant
            n == footprint.len(),
            n == normals@.len(),
            footprint == building.footprint@,
            6 * n <= u32::MAX,
            flat.len() == 2 * n,
            flat_normals.len() == 2 * n,
            positions@ == flat + wall_corners(footprint, height).take(4 * i),
            corner_normals@ == flat_normals + wall_normals(normals@, is_ccw).take(4 * i),
            indices@ == flat_triangles + wall_indices(n as nat).take(6 * i),
    {
        let j = if i + 1 == n { 0 } else { i + 1 };
        let bi = building.footprint[i];
        let bj = building.footprint[j];
        let normal = if is_ccw { normals[i] } else { normals[i].reverse() };
        let wall_base = positions.len() as u32;
        push_corners(
            &mut positions,
            vec3(bi.x.bits, ZERO, bi.z.bits),
            vec3(bj.x.bits, ZERO, bj.z.bits),
            vec3(bj.x.bits, height.bits, bj.z.bits),
            vec3(bi.x.bits, height.bits, bi.z.bits),
        );
        push_corners(&mut corner_normals, normal, normal, normal, normal);
        push_wall(&mut indices, wall_base);
        proof {
            lemma_wall(footprint, height, normals@, is_ccw, i as int);
        }
        assert(positions@ == flat + wall_corners(footprint, height).take(4 * (i + 1)));
        assert(corner_normals@ == flat_normals + wall_normals(normals@, is_ccw).take(4 * (i + 1)));
        assert(indices@ == flat_triangles + wall_indices(n as nat).take(6 * (i + 1)));
    }
    assert(wall_corners(footprint, height).take(4 * n) == wall_corners(footprint, height));
    assert(wall_normals(normals@, is_ccw).take(4 * n) == wall_normals(normals@, is_ccw));
    assert(wall_indices(n as nat).take(6 * n) == wall_indices(n as nat));
    MeshData { positions, normals: corner_normals, uvs: Vec::new(), indices }
}

/// Wall `i` follows the walls before it: four corners, their normals and two triangles.
proof fn lemma_wall(footprint: Seq<Vec3>, height: Single, normals: Seq<Vec3>, is_ccw: bool, i: int)
    requires
        0 <= i < footprint.len(),
        normals.len() == footprint.len(),
        6 * footprint.len() <= u32::MAX,
    ensures
        ({
            let n = footprint.len() as int;
            let j = if i + 1 == n { 0 } else { i + 1 };
            let p = footprint[i];
            let q = footprint[j];
            wall_corners(footprint, height).take(4 * (i + 1)) == wall_corners(
                footprint,
                height,
            ).take(4 * i) + seq![
                at(p.x.bits, ZERO, p.z.bits),
                at(q.x.bits, ZERO, q.z.bits),
                at(q.x.bits, height.bits, q.z.bits),
                at(p.x.bits, height.bits, p.z.bits),
            ]
        }),
        ({
            let normal = if is_ccw { normals[i] } else { normals[i].reversed() };
            wall_normals(normals, is_ccw).take(4 * (i + 1)) == wall_normals(normals, is_ccw).take(
                4 * i,
            ) + seq![normal, normal, normal, normal]
        }),
        ({
            let base = 2 * footprint.len() + 4 * i;
            wall_indices(footprint.len()).take(6 * (i + 1)) == wall_indices(footprint.len()).take(
                6 * i,
            ) + seq![
                base as u32,
                (base + 1) as u32,
                (base + 2) as u32,
                base as u32,
                (base + 3) as u32,
                (base + 2) as u32,
            ]
        }),
{
    lemma_next_around(i, footprint.len() as int);
}

fn push_corners(out: &mut Vec<Vec3>, a: Vec3, b: Vec3, c: Vec3, d: Vec3)
    ensures
        final(out)@ == old(out)@ + seq![a, b, c, d],
{
    out.push(a);
    out.push(b);
    out.push(c);
    out.push(d);
}

/// The two triangles of the wall whose corners begin at `base`.
fn push_wall(out: &mut Vec<u32>, base: u32)
    requires
        base + 3 <= u32::MAX,
    ensures
        final(out)@ == old(out)@ + seq![
            base,
            (base + 1) as u32,
            (base + 2) as u32,
            base,
            (base + 3) as u32,
            (base + 2) as u32,
        ],
{
    out.push(base);
    out.push(base + 1);
    out.push(base + 2);
    out.push(base);
    out.push(base + 3);
    out.push(base + 2);
}

/// The triangles of floor and roof.
fn flat_indices(triangles: &Vec<usize>, n: usize) -> (r: Vec<u32>)
    requires
        triangulates(triangles@, n as nat),
        2 * n <= u32::MAX,
    ensures
        r@ == floor_indices(triangles@) + roof_indices(triangles@, n as nat),
{
    let mut r: Vec<u32> = Vec::new();
    let mut t: usize = 0;
    while t < triangles.len()
        invariant
            triangulates(triangles@, n as nat),
            2 * n <= u32::MAX,
            t % 3 == 0,
            t <= triangles@.len(),
            r@ == floor_indices(triangles@).take(t as int),
        decreases triangles@.len() - t,
    {
        r.push(triangles[t] as u32);
        r.push(triangles[t + 2] as u32);
        r.push(triangles[t + 1] as u32);
        t = t + 3;
    }
    assert(r@ == floor_indices(triangles@));
    let top = n as u32;
    for i in 0..triangles.len()
        invariant
            triangulates(triangles@, n as nat),
            top == n,
            2 * n <= u32::MAX,
            r@ == floor_indices(triangles@) + roof_indices(triangles@, n as nat).take(i as int),
    {
        assert(triangles@[i as int] < n);
        r.push(top + triangles[i] as u32);
    }
    assert(roof_indices(triangles@, n as nat).take(triangles@.len() as int) == roof_indices(
        triangles@,
        n as nat,
    ));
    r
}

/// The mesh of a building can be drawn wherever the triangles are those of its footprint.
pub proof fn building_mesh_drawable(
    footprint: Seq<Vec3>,
    height: Single,
    triangles: Seq<usize>,
    normals: Seq<Vec3>,
    is_ccw: bool,
)
    requires
        triangulates(triangles, footprint.len()),
        normals.len() == footprint.len(),
        6 * footprint.len() <= u32::MAX,
    ensures
        drawable(
            building_corners(footprint, height),
            building_normals(normals, is_ccw),
            building_indices(triangles, footprint.len()),
        ),
{
    let n = footprint.len();
    let t = triangles.len();
    let indices = building_indices(triangles, n);
    assert forall|i: int| 0 <= i < indices.len() implies (#[trigger] indices[i])
        < building_corners(footprint, height).len() by {
        if i < t {
            let k = i / 3 * 3 + flipped(i % 3);
            assert(0 <= k < t);
            assert(triangles[k] < n);
            assert(indices[i] == floor_indices(triangles)[i]);
        } else if i < 2 * t {
            assert(triangles[i - t] < n);
            assert(indices[i] == roof_indices(triangles, n)[i - t]);
        } else {
            let w = i - 2 * t;
            assert(indices[i] == wall_indices(n)[w]);
            assert(w / 6 * 4 + wall_index(w % 6) < 4 * n);
        }
    }
}

/// A roof is never drawn below the least height, whatever height the data gives.
pub proof fn roof_is_high_enough(height: Single)
    ensures
        (Single { bits: MIN_BUILDING_HEIGHT }).at_most(roof_height(height)),
        (Single { bits: MIN_BUILDING_HEIGHT }).at_most(height) ==> roof_height(height) == height,
{
}

/// The walls close around a building: each ends where the next begins, at the ground and at
/// the roof, and the last ends where the first begins.
pub proof fn walls_meet(footprint: Seq<Vec3>, height: Single, i: int)
    requires
        0 <= i < footprint.len(),
    ensures
        wall_corner(footprint, height, i, 1) == wall_corner(footprint, height, i + 1, 0),
        wall_corner(footprint, height, i, 2) == wall_corner(footprint, height, i + 1, 3),
        wall_corner(footprint, height, footprint.len() as int, 0) == wall_corner(
            footprint,
            height,
            0,
            0,
        ),
{
    vstd::arithmetic::div_mod::lemma_mod_self_0(footprint.len() as int);
    vstd::arithmetic::div_mod::lemma_small_mod(0, footprint.len());
}

/// The same wall normals, given for the other direction, come out the other way round.
pub proof fn winding_turns_normals(normals: Seq<Vec3>, k: int)
    requires
        0 <= k < 4 * normals.len(),
    ensures
        wall_normals(normals, false)[k] == wall_normals(normals, true)[k].reversed(),
        wall_normals(normals, true)[k] == wall_normals(normals, false)[k].reversed(),
{
    let n = normals[k / 4];
    crate::single::negative_twice(n.x);
    crate::single::negative_twice(n.y);
    crate::single::negative_twice(n.z);
}

/// Each corner of an area's mesh stands straight above its outline point: it has that point's x
/// and z bit for bit, and the height of land.
pub proof fn land_stands_above_its_outline(points: Seq<Vec3>)
    ensures
        land_corners(points).len() == points.len(),
        forall|i: int| 0 <= i < points.len() ==> (#[trigger] land_corners(points)[i]).x == points[i].x
            && land_corners(points)[i].y.bits == 0x3f00_0000 && land_corners(points)[i].z
            == points[i].z,
{
}

/// An area's mesh has twice the triangles that it is made from.
pub proof fn land_has_twice_the_triangles(triangles: Seq<usize>)
    ensures
        both_faces(triangles).len() == 2 * triangles.len(),
{
}

/// A building stands on its footprint: below and above each of its points there is a corner with
/// that point's x and z, at the ground and at the roof.
pub proof fn floor_and_roof_follow_the_footprint(footprint: Seq<Vec3>, height: Single, i: int)
    requires
        0 <= i < footprint.len(),
    ensures
        building_corners(footprint, height).len() == 6 * footprint.len(),
        building_corners(footprint, height)[i].x == footprint[i].x,
        building_corners(footprint, height)[i].y.bits == 0,
        building_corners(footprint, height)[i].z == footprint[i].z,
        building_corners(footprint, height)[footprint.len() + i].x == footprint[i].x,
        building_corners(footprint, height)[footprint.len() + i].y == height,
        building_corners(footprint, height)[footprint.len() + i].z == footprint[i].z,
{
}

/// Wall `i` stands on the edge from point `i` to the point after it around the footprint: at the
/// ground from the one to the other, then back at the roof.
pub proof fn walls_stand_on_edges(footprint: Seq<Vec3>, height: Single, i: int)
    requires
        0 <= i < footprint.len(),
    ensures
        ({
            let corners = building_corners(footprint, height);
            let base = 2 * footprint.len() + 4 * i;
            let p = footprint[i];
            let q = if i + 1 < footprint.len() { footprint[i + 1] } else { footprint[0] };
            &&& corners[base].x == p.x && corners[base].y.bits == 0 && corners[base].z == p.z
            &&& corners[base + 1].x == q.x && corners[base + 1].y.bits == 0 && corners[base + 1].z
                == q.z
            &&& corners[base + 2].x == q.x && corners[base + 2].y == height && corners[base + 2].z
                == q.z
            &&& corners[base + 3].x == p.x && corners[base + 3].y == height && corners[base + 3].z
                == p.z
        }),
{
    let n = footprint.len() as int;
    let corners = building_corners(footprint, height);
    let walls = wall_corners(footprint, height);
    lemma_next_around(i, n);
    assert(corners[2 * n + 4 * i] == walls[4 * i]);
    assert(corners[2 * n + 4 * i + 1] == walls[4 * i + 1]);
    assert(corners[2 * n + 4 * i + 2] == walls[4 * i + 2]);
    assert(corners[2 * n + 4 * i + 3] == walls[4 * i + 3]);
}

/// The floor faces down, the roof up, and each wall along the normal that it was given, turned
/// round on every axis unless the area is above zero.
pub proof fn faces_look_their_way(normals: Seq<Vec3>, is_ccw: bool, i: int)
    requires
        0 <= i < normals.len(),
    ensures
        ({
            let n = normals.len();
            let all = building_normals(normals, is_ccw);
            &&& all.len() == 6 * n
            &&& all[i].x.bits == 0 && all[i].y.bits == 0xbf80_0000 && all[i].z.bits == 0
            &&& all[n + i].x.bits == 0 && all[n + i].y.bits == 0x3f80_0000 && all[n + i].z.bits == 0
            &&& forall|c: int| 0 <= c < 4 ==> {
                let normal = #[trigger] all[2 * n + 4 * i + c];
                if is_ccw {
                    normal == normals[i]
                } else {
                    normal.x == normals[i].x.negative() && normal.y == normals[i].y.negative()
                        && normal.z == normals[i].z.negative()
                }
            }
        }),
{
    let n = normals.len();
    let all = building_normals(normals, is_ccw);
    assert forall|c: int| 0 <= c < 4 implies {
        let normal = #[trigger] all[2 * n + 4 * i + c];
        if is_ccw {
            normal == normals[i]
        } else {
            normal.x == normals[i].x.negative() && normal.y == normals[i].y.negative() && normal.z
                == normals[i].z.negative()
        }
    } by {
        assert(all[2 * n + 4 * i + c] == wall_normals(normals, is_ccw)[4 * i + c]);
        assert((4 * i + c) / 4 == i);
    }
}

/// Every triangle of the footprint stands in the floor once, the other way round, and in the roof
/// once, with the corners of the roof.
pub proof fn floor_and_roof_have_every_triangle(triangles: Seq<usize>, n: nat, t: int)
    requires
        triangulates(triangles, n),
        6 * n <= u32::MAX,
        0 <= t,
        3 * t < triangles.len(),
    ensures
        ({
            let all = building_indices(triangles, n);
            let roof = triangles.len();
            &&& all.len() == 2 * triangles.len() + 6 * n
            &&& all[3 * t] == triangles[3 * t]
            &&& all[3 * t + 1] == triangles[3 * t + 2]
            &&& all[3 * t + 2] == triangles[3 * t + 1]
            &&& all[roof + 3 * t] == n + triangles[3 * t]
            &&& all[roof + 3 * t + 1] == n + triangles[3 * t + 1]
            &&& all[roof + 3 * t + 2] == n + triangles[3 * t + 2]
        }),
{
    assert(3 * t + 3 <= triangles.len());
    assert(triangles[3 * t] < n && triangles[3 * t + 1] < n && triangles[3 * t + 2] < n);
    let all = building_indices(triangles, n);
    let roof = triangles.len();
    assert(all[3 * t] == floor_indices(triangles)[3 * t]);
    assert(all[3 * t + 1] == floor_indices(triangles)[3 * t + 1]);
    assert(all[3 * t + 2] == floor_indices(triangles)[3 * t + 2]);
    assert((3 * t) / 3 == t && (3 * t + 1) / 3 == t && (3 * t + 2) / 3 == t);
    assert(all[roof + 3 * t] == roof_indices(triangles, n)[3 * t]);
    assert(all[roof + 3 * t + 1] == roof_indices(triangles, n)[3 * t + 1]);
    assert(all[roof + 3 * t + 2] == roof_indices(triangles, n)[3 * t + 2]);
}

/// Every wall is two triangles between its own four corners, which share its diagonal from the
/// first corner to the third.
pub proof fn walls_are_two_triangles(triangles: Seq<usize>, n: nat, i: int)
    requires
        6 * n <= u32::MAX,
        0 <= i < n,
    ensures
        ({
            let all = building_indices(triangles, n);
            let at = 2 * triangles.len() + 6 * i;
            let base = 2 * n + 4 * i;
            &&& all[at] == base && all[at + 1] == base + 1 && all[at + 2] == base + 2
            &&& all[at + 3] == base && all[at + 4] == base + 3 && all[at + 5] == base + 2
        }),
{
    let all = building_indices(triangles, n);
    let at = 2 * triangles.len() + 6 * i;
    let walls = wall_indices(n);
    assert(all[at] == walls[6 * i] && all[at + 1] == walls[6 * i + 1] && all[at + 2] == walls[6 * i
        + 2]);
    assert(all[at + 3] == walls[6 * i + 3] && all[at + 4] == walls[6 * i + 4] && all[at + 5]
        == walls[6 * i + 5]);
    assert((6 * i) / 6 == i && (6 * i + 1) / 6 == i && (6 * i + 2) / 6 == i);
    assert((6 * i + 3) / 6 == i && (6 * i + 4) / 6 == i && (6 * i + 5) / 6 == i);
}

/// The edges of a footprint go around it: edge `i` begins at point `i` and ends where the next
/// edge begins, the last one where the first begins.
pub proof fn edges_go_around(footprint: Seq<Vec3>, i: int)
    requires
        0 <= i < footprint.len(),
    ensures
        wall_edges(footprint).len() == footprint.len(),
        wall_edges(footprint)[i].0 == footprint[i],
        wall_edges(footprint)[i].1 == if i + 1 < footprint.len() {
            footprint[i + 1]
        } else {
            footprint[0]
        },
{
    lemma_next_around(i, footprint.len() as int);
}

/// A building is drawn at its own height from the least height on, and at the least height below
/// it or where its height is no number.
pub proof fn roof_height_is_raised_only_where_low(height: Single)
    ensures
        height.nan() ==> roof_height(height).bits == 0x3dcc_cccd,
        height.less(Single { bits: 0x3dcc_cccd }) ==> roof_height(height).bits == 0x3dcc_cccd,
        (Single { bits: 0x3dcc_cccd }).less(height) ==> roof_height(height) == height,
{
}

} // verus!
