//! Points in space, polylines and rings of them.
use crate::single::{Single, INFINITY, MINUS_ONE, ONE, ZERO};
use vstd::prelude::*;

verus! {

/// A point or a direction.
#[derive(Clone, Copy, Debug, PartialEq, Eq, Structural)]
pub struct Vec3 {
    pub x: Single,
    pub y: Single,
    pub z: Single,
}

/// The point with the given bit patterns as coordinates.
pub open spec fn at(x: u32, y: u32, z: u32) -> Vec3 {
    Vec3 { x: Single { bits: x }, y: Single { bits: y }, z: Single { bits: z } }
}

/// The point with the given bit patterns as coordinates.
pub fn vec3(x: u32, y: u32, z: u32) -> (r: Vec3)
    ensures
        r == at(x, y, z),
{
    Vec3 { x: Single { bits: x }, y: Single { bits: y }, z: Single { bits: z } }
}

/// The origin.
pub open spec fn origin() -> Vec3 {
    at(ZERO, ZERO, ZERO)
}

/// The upward direction.
pub open spec fn up() -> Vec3 {
    at(ZERO, ONE, ZERO)
}

/// The downward direction.
pub open spec fn down() -> Vec3 {
    at(ZERO, MINUS_ONE, ZERO)
}

impl Vec3 {
    /// The coordinates are equal as numbers.
    pub open spec fn coincides(self, other: Vec3) -> bool {
        self.x.equal(other.x) && self.y.equal(other.y) && self.z.equal(other.z)
    }

    /// The opposite direction.
    pub open spec fn reversed(self) -> Vec3 {
        Vec3 { x: self.x.negative(), y: self.y.negative(), z: self.z.negative() }
    }

    /// None of the coordinates is NaN.
    pub open spec fn numeric(self) -> bool {
        !self.x.nan() && !self.y.nan() && !self.z.nan()
    }

    /// No coordinate is above the other point's.
    pub open spec fn below(self, other: Vec3) -> bool {
        self.x.at_most(other.x) && self.y.at_most(other.y) && self.z.at_most(other.z)
    }

    /// The smaller of the two coordinates on each axis.
    pub open spec fn lower(self, other: Vec3) -> Vec3 {
        Vec3 {
            x: self.x.smaller(other.x),
            y: self.y.smaller(other.y),
            z: self.z.smaller(other.z),
        }
    }

    /// The larger of the two coordinates on each axis.
    pub open spec fn upper(self, other: Vec3) -> Vec3 {
        Vec3 {
            x: self.x.larger(other.x),
            y: self.y.larger(other.y),
            z: self.z.larger(other.z),
        }
    }

    /// Whether the coordinates are equal as numbers.
    pub fn same_place(self, other: Vec3) -> (r: bool)
        ensures
            r == self.coincides(other),
    {
        self.x.same(other.x) && self.y.same(other.y) && self.z.same(other.z)
    }

    /// The opposite direction.
    pub fn reverse(self) -> (r: Vec3)
        ensures
            r == self.reversed(),
    {
        Vec3 { x: self.x.neg(), y: self.y.neg(), z: self.z.neg() }
    }

    /// The smaller of the two coordinates on each axis.
    pub fn min(self, other: Vec3) -> (r: Vec3)
        ensures
            r == self.lower(other),
    {
        Vec3 { x: self.x.min(other.x), y: self.y.min(other.y), z: self.z.min(other.z) }
    }

    /// The larger of the two coordinates on each axis.
    pub fn max(self, other: Vec3) -> (r: Vec3)
        ensures
            r == self.upper(other),
    {
        Vec3 { x: self.x.max(other.x), y: self.y.max(other.y), z: self.z.max(other.z) }
    }
}

/// The ring without a last point that repeats the first. A ring of three points or fewer
/// keeps them all.
pub open spec fn opened(points: Seq<Vec3>) -> Seq<Vec3> {
    if points.len() >= 4 && points.first().coincides(points.last()) {
        points.drop_last()
    } else {
        points
    }
}

/// Drops the last point of a ring where it repeats the first.
pub fn drop_closing_point(points: Vec<Vec3>) -> (r: Vec<Vec3>)
    ensures
        r@ == opened(points@),
{
    let mut points = points;
    let n = points.len();
    if n >= 4 && points[0].same_place(points[n - 1]) {
        points.pop();
    }
    points
}

/// Dropping the closing point takes away one point at most, the last, and leaves at least
/// three of four or more; where it takes one away, that one repeated the first.
pub proof fn opened_loses_closing_point_only(points: Seq<Vec3>)
    ensures
        opened(points).is_prefix_of(points),
        opened(points).len() + 1 >= points.len(),
        points.len() >= 3 ==> opened(points).len() >= 3,
        opened(points).len() < points.len() ==> points.last().coincides(points.first()),
{
}

/// A polyline's pieces: each point with the next.
pub open spec fn pieces(points: Seq<Vec3>) -> Seq<(Vec3, Vec3)> {
    Seq::new(
        if points.len() == 0 { 0 } else { (points.len() - 1) as nat },
        |i: int| (points[i], points[i + 1]),
    )
}

/// The pieces of a polyline, in order.
pub fn polyline_pieces(points: &Vec<Vec3>) -> (r: Vec<(Vec3, Vec3)>)
    ensures
        r@ == pieces(points@),
{
    let mut r: Vec<(Vec3, Vec3)> = Vec::new();
    let n = points.len();
    let mut i: usize = 1;
    while i < n
        invariant
            n == points@.len(),
            1 <= i,
            n >= 1 ==> i <= n,
            r@ == pieces(points@).take(if n == 0 { 0 } else { i - 1 }),
        decreases n - i,
    {
        r.push((points[i - 1], points[i]));
        i = i + 1;
    }
    r
}

/// A ring's outline: its pieces, and the piece from the last point back to the first.
pub open spec fn outline(points: Seq<Vec3>) -> Seq<(Vec3, Vec3)> {
    if points.len() == 0 {
        Seq::empty()
    } else {
        pieces(points).push((points.last(), points.first()))
    }
}

/// The outline of a ring.
pub fn ring_outline(points: &Vec<Vec3>) -> (r: Vec<(Vec3, Vec3)>)
    ensures
        r@ == outline(points@),
{
    let mut r = polyline_pieces(points);
    let n = points.len();
    if n > 0 {
        r.push((points[n - 1], points[0]));
    }
    r
}

/// Every point begins exactly one piece of the outline and ends exactly one: piece `i` runs
/// from point `i` to the point after it, around the ring.
pub proof fn outline_is_closed(points: Seq<Vec3>, i: int)
    requires
        0 <= i < points.len(),
    ensures
        outline(points).len() == points.len(),
        outline(points)[i] == (points[i], points[(i + 1) % (points.len() as int)]),
{
    if i + 1 < points.len() {
        vstd::arithmetic::div_mod::lemma_small_mod((i + 1) as nat, points.len());
    } else {
        vstd::arithmetic::div_mod::lemma_mod_self_0(points.len() as int);
    }
}

/// The corner of an empty box from which bounds are found: every number is below it.
pub open spec fn far_corner() -> Vec3 {
    at(INFINITY, INFINITY, INFINITY)
}

/// The opposite corner: every number is above it.
pub open spec fn near_corner() -> Vec3 {
    far_corner().reversed()
}

/// The lowest coordinates among the points.
pub open spec fn lowest(points: Seq<Vec3>) -> Vec3
    decreases points.len(),
{
    if points.len() == 0 {
        far_corner()
    } else {
        lowest(points.drop_last()).lower(points.last())
    }
}

/// The highest coordinates among the points.
pub open spec fn highest(points: Seq<Vec3>) -> Vec3
    decreases points.len(),
{
    if points.len() == 0 {
        near_corner()
    } else {
        highest(points.drop_last()).upper(points.last())
    }
}

/// A box that grows to hold points.
#[derive(Clone, Copy, Debug, PartialEq, Eq, Structural)]
pub struct Bounds {
    pub min: Vec3,
    pub max: Vec3,
}

/// The box around the points.
pub open spec fn bounds_of(points: Seq<Vec3>) -> Bounds {
    Bounds { min: lowest(points), max: highest(points) }
}

impl Bounds {
    /// The box around no points.
    pub fn empty() -> (r: Bounds)
        ensures
            r == bounds_of(Seq::empty()),
    {
        let far = vec3(INFINITY, INFINITY, INFINITY);
        Bounds { min: far, max: far.reverse() }
    }

    /// The box that was around some points, grown to hold more points.
    pub(crate) fn grow(self, points: &Vec<Vec3>, Ghost(held): Ghost<Seq<Vec3>>) -> (r: Bounds)
        requires
            self == bounds_of(held),
        ensures
            r == bounds_of(held + points@),
    {
        let mut min = self.min;
        let mut max = self.max;
        assert(held + points@.take(0) == held);
        for i in 0..points.len()
            invariant
                self == bounds_of(held),
                (Bounds { min, max }) == bounds_of(held + points@.take(i as int)),
        {
            assert((held + points@.take(i + 1)).drop_last() == held + points@.take(i as int));
            min = min.min(points[i]);
            max = max.max(points[i]);
        }
        assert(points@.take(points@.len() as int) == points@);
        Bounds { min, max }
    }
}

/// The bounds of points none of which is NaN hold every one of them.
pub proof fn bounds_hold_points(points: Seq<Vec3>, i: int)
    requires
        0 <= i < points.len(),
        forall|j: int| 0 <= j < points.len() ==> (#[trigger] points[j]).numeric(),
    ensures
        lowest(points).numeric(),
        highest(points).numeric(),
        lowest(points).below(points[i]),
        points[i].below(highest(points)),
    decreases points.len(),
{
    let rest = points.drop_last();
    assert forall|j: int| 0 <= j < rest.len() implies (#[trigger] rest[j]).numeric() by {
        assert(rest[j] == points[j]);
    }
    if i < rest.len() {
        bounds_hold_points(rest, i);
        assert(rest[i] == points[i]);
    } else if rest.len() > 0 {
        bounds_hold_points(rest, 0);
    }
}

/// The points of lists, one list after the other.
pub open spec fn all_points(lists: Seq<Seq<Vec3>>) -> Seq<Vec3>
    decreases lists.len(),
{
    if lists.len() == 0 {
        Seq::empty()
    } else {
        all_points(lists.drop_last()) + lists.last()
    }
}

/// The numbers, in order, of the outlines that are drawn: those of at least three points.
pub open spec fn drawn(outlines: Seq<Seq<Vec3>>) -> Seq<usize>
    decreases outlines.len(),
{
    if outlines.len() == 0 {
        Seq::empty()
    } else {
        let before = drawn(outlines.drop_last());
        if outlines.last().len() >= 3 {
            before.push((outlines.len() - 1) as usize)
        } else {
            before
        }
    }
}

/// An outline is drawn exactly when it has at least three points.
pub proof fn drawn_have_three_points(outlines: Seq<Seq<Vec3>>, k: usize)
    requires
        outlines.len() <= usize::MAX,
    ensures
        drawn(outlines).contains(k) <==> k < outlines.len() && outlines[k as int].len() >= 3,
    decreases outlines.len(),
{
    if outlines.len() > 0 {
        let rest = outlines.drop_last();
        let before = drawn(rest);
        drawn_have_three_points(rest, k);
        assert forall|i: int| 0 <= i < before.len() implies drawn(outlines)[i] == #[trigger] before[i] by {}
        if k == outlines.len() - 1 {
            if outlines.last().len() >= 3 {
                assert(drawn(outlines).last() == k);
            }
        } else if before.contains(k) {
            let i = choose|i: int| 0 <= i < before.len() && before[i] == k;
            assert(drawn(outlines)[i] == k);
        } else if drawn(outlines).contains(k) {
            let i = choose|i: int| 0 <= i < drawn(outlines).len() && drawn(outlines)[i] == k;
            assert(i < before.len());
            assert(before[i] == k);
        }
    }
}

/// Points coincide exactly where all three coordinates are equal as numbers; reversing and
/// selecting go axis by axis.
pub proof fn points_go_axis_by_axis(p: Vec3, q: Vec3)
    ensures
        p.coincides(q) <==> p.x.equal(q.x) && p.y.equal(q.y) && p.z.equal(q.z),
        p.below(q) <==> p.x.at_most(q.x) && p.y.at_most(q.y) && p.z.at_most(q.z),
        p.reversed().x == p.x.negative() && p.reversed().y == p.y.negative() && p.reversed().z
            == p.z.negative(),
        p.lower(q).x == p.x.smaller(q.x) && p.lower(q).y == p.y.smaller(q.y) && p.lower(q).z
            == p.z.smaller(q.z),
        p.upper(q).x == p.x.larger(q.x) && p.upper(q).y == p.y.larger(q.y) && p.upper(q).z
            == p.z.larger(q.z),
{
}

/// The point of three bit patterns has them as its coordinates.
pub proof fn bits_make_a_point(x: u32, y: u32, z: u32)
    ensures
        at(x, y, z).x.bits == x,
        at(x, y, z).y.bits == y,
        at(x, y, z).z.bits == z,
        origin().x.bits == 0 && origin().y.bits == 0 && origin().z.bits == 0,
        up().x.bits == 0 && up().y.bits == 0x3f80_0000 && up().z.bits == 0,
        down().x.bits == 0 && down().y.bits == 0xbf80_0000 && down().z.bits == 0,
{
}

/// Of a ring that is closed by repeating its first point, every point stays but the last; any
/// other ring stays whole. Three points or fewer are never a closed ring.
pub proof fn opened_ring_keeps_the_rest(points: Seq<Vec3>, last: Vec3)
    ensures
        points.len() >= 3 && points[0].coincides(last) ==> opened(points.push(last)) == points,
        points.len() >= 3 && !points[0].coincides(last) ==> opened(points.push(last))
            == points.push(last),
        points.len() < 3 ==> opened(points.push(last)) == points.push(last),
        points.len() == 0 ==> opened(points) == points,
{
    assert(points.push(last).drop_last() == points);
}

/// A polyline has one piece fewer than points, and piece `i` runs from point `i` to the next.
pub proof fn pieces_join_neighbours(points: Seq<Vec3>)
    ensures
        points.len() == 0 ==> pieces(points).len() == 0,
        points.len() > 0 ==> pieces(points).len() == points.len() - 1,
        forall|i: int| 0 <= i < points.len() - 1 ==> (#[trigger] pieces(points)[i]).0 == points[i]
            && pieces(points)[i].1 == points[i + 1],
{
}

/// A ring's outline is empty exactly where it has no points.
pub proof fn outline_has_a_piece_for_each_point(points: Seq<Vec3>)
    ensures
        outline(points).len() == points.len(),
{
}

/// The bounds are tight: on each axis each of them is the coordinate of some point.
pub proof fn bounds_touch_points(points: Seq<Vec3>)
    requires
        points.len() > 0,
        forall|j: int| 0 <= j < points.len() ==> (#[trigger] points[j]).numeric(),
    ensures
        exists|j: int| 0 <= j < points.len() && (#[trigger] points[j]).x.equal(lowest(points).x),
        exists|j: int| 0 <= j < points.len() && (#[trigger] points[j]).y.equal(lowest(points).y),
        exists|j: int| 0 <= j < points.len() && (#[trigger] points[j]).z.equal(lowest(points).z),
        exists|j: int| 0 <= j < points.len() && (#[trigger] points[j]).x.equal(highest(points).x),
        exists|j: int| 0 <= j < points.len() && (#[trigger] points[j]).y.equal(highest(points).y),
        exists|j: int| 0 <= j < points.len() && (#[trigger] points[j]).z.equal(highest(points).z),
    decreases points.len(),
{
    let rest = points.drop_last();
    let end = points.len() - 1;
    assert forall|j: int| 0 <= j < rest.len() implies (#[trigger] rest[j]).numeric() by {
        assert(rest[j] == points[j]);
    }
    assert(points[end].numeric());
    bounds_hold_points(points, end);
    if rest.len() > 0 {
        bounds_touch_points(rest);
        bounds_hold_points(rest, 0);
        let a = choose|j: int| 0 <= j < rest.len() && (#[trigger] rest[j]).x.equal(lowest(rest).x);
        let b = choose|j: int| 0 <= j < rest.len() && (#[trigger] rest[j]).y.equal(lowest(rest).y);
        let c = choose|j: int| 0 <= j < rest.len() && (#[trigger] rest[j]).z.equal(lowest(rest).z);
        let d = choose|j: int| 0 <= j < rest.len() && (#[trigger] rest[j]).x.equal(highest(rest).x);
        let e = choose|j: int| 0 <= j < rest.len() && (#[trigger] rest[j]).y.equal(highest(rest).y);
        let f = choose|j: int| 0 <= j < rest.len() && (#[trigger] rest[j]).z.equal(highest(rest).z);
        assert(points[a] == rest[a] && points[b] == rest[b] && points[c] == rest[c]);
        assert(points[d] == rest[d] && points[e] == rest[e] && points[f] == rest[f]);
        assert(points[end].x.equal(lowest(points).x) || points[a].x.equal(lowest(points).x));
        assert(points[end].y.equal(lowest(points).y) || points[b].y.equal(lowest(points).y));
        assert(points[end].z.equal(lowest(points).z) || points[c].z.equal(lowest(points).z));
        assert(points[end].x.equal(highest(points).x) || points[d].x.equal(highest(points).x));
        assert(points[end].y.equal(highest(points).y) || points[e].y.equal(highest(points).y));
        assert(points[end].z.equal(highest(points).z) || points[f].z.equal(highest(points).z));
    } else {
        assert(points[end].x.equal(lowest(points).x) && points[end].y.equal(lowest(points).y)
            && points[end].z.equal(lowest(points).z));
        assert(points[end].x.equal(highest(points).x) && points[end].y.equal(highest(points).y)
            && points[end].z.equal(highest(points).z));
    }
}

/// The number of points in the first `k` lists.
pub open spec fn points_before(lists: Seq<Seq<Vec3>>, k: int) -> int
    decreases k,
{
    if k <= 0 {
        0
    } else {
        points_before(lists, k - 1) + lists[k - 1].len()
    }
}

/// Every point of every list stands among all points, list by list and in order: point `i` of
/// list `k` behind all points of the lists before.
pub proof fn all_points_in_order(lists: Seq<Seq<Vec3>>, k: int, i: int)
    requires
        0 <= k < lists.len(),
        0 <= i < lists[k].len(),
    ensures
        all_points(lists).len() == points_before(lists, lists.len() as int),
        0 <= points_before(lists, k),
        points_before(lists, k) + i < all_points(lists).len(),
        all_points(lists)[points_before(lists, k) + i] == lists[k][i],
    decreases lists.len(),
{
    let rest = lists.drop_last();
    lemma_points_before(lists, rest, rest.len() as int);
    all_points_count(rest);
    if k < rest.len() {
        assert(rest[k] == lists[k]);
        all_points_in_order(rest, k, i);
        lemma_points_before(lists, rest, k);
    } else {
        lemma_points_before(lists, rest, k);
    }
}

/// There are as many points as the lists have together.
pub proof fn all_points_count(lists: Seq<Seq<Vec3>>)
    ensures
        all_points(lists).len() == points_before(lists, lists.len() as int),
    decreases lists.len(),
{
    if lists.len() > 0 {
        all_points_count(lists.drop_last());
        lemma_points_before(lists, lists.drop_last(), lists.len() - 1);
    }
}

proof fn lemma_points_before(lists: Seq<Seq<Vec3>>, rest: Seq<Seq<Vec3>>, k: int)
    requires
        lists.len() > 0,
        rest == lists.drop_last(),
        k <= rest.len(),
    ensures
        points_before(lists, k) == points_before(rest, k),
        0 <= points_before(lists, k),
    decreases k,
{
    if k > 0 {
        assert(rest[k - 1] == lists[k - 1]);
        lemma_points_before(lists, rest, k - 1);
    }
}

/// No list has a point, exactly where there are no points at all.
pub proof fn no_points_of_empty_lists(lists: Seq<Seq<Vec3>>)
    ensures
        all_points(lists).len() == 0 <==> forall|k: int|
            0 <= k < lists.len() ==> (#[trigger] lists[k]).len() == 0,
    decreases lists.len(),
{
    if lists.len() > 0 {
        let rest = lists.drop_last();
        no_points_of_empty_lists(rest);
        if all_points(lists).len() == 0 {
            assert forall|k: int| 0 <= k < lists.len() implies (#[trigger] lists[k]).len() == 0 by {
                if k < rest.len() {
                    assert(rest[k].len() == 0);
                }
            }
        } else if forall|k: int| 0 <= k < lists.len() ==> (#[trigger] lists[k]).len() == 0 {
            assert forall|k: int| 0 <= k < rest.len() implies (#[trigger] rest[k]).len() == 0 by {
                assert(lists[k].len() == 0);
            }
            assert(lists[lists.len() - 1].len() == 0);
        }
    }
}

/// Outlines are drawn in order and each once.
pub proof fn drawn_in_order(outlines: Seq<Seq<Vec3>>)
    requires
        outlines.len() <= usize::MAX,
    ensures
        forall|i: int, j: int| 0 <= i < j < drawn(outlines).len() ==> (#[trigger] drawn(outlines)[i])
            < (#[trigger] drawn(outlines)[j]),
        forall|i: int| 0 <= i < drawn(outlines).len() ==> (#[trigger] drawn(outlines)[i])
            < outlines.len(),
    decreases outlines.len(),
{
    if outlines.len() > 0 {
        drawn_in_order(outlines.drop_last());
        let before = drawn(outlines.drop_last());
        assert forall|i: int| 0 <= i < before.len() implies drawn(outlines)[i] == #[trigger] before[i] by {}
    }
}

/// The box around no points is inside out, and one more point moves each side of the box out to that
/// point's coordinate, or not at all; a coordinate that is NaN moves nothing.
pub proof fn bounds_grow_point_by_point(points: Seq<Vec3>, p: Vec3)
    ensures
        bounds_of(Seq::empty()).min == at(0x7f80_0000, 0x7f80_0000, 0x7f80_0000),
        bounds_of(Seq::empty()).max == at(0xff80_0000, 0xff80_0000, 0xff80_0000),
        ({
            let before = bounds_of(points);
            let after = bounds_of(points.push(p));
            &&& after.min.x == before.min.x.smaller(p.x)
            &&& after.min.y == before.min.y.smaller(p.y)
            &&& after.min.z == before.min.z.smaller(p.z)
            &&& after.max.x == before.max.x.larger(p.x)
            &&& after.max.y == before.max.y.larger(p.y)
            &&& after.max.z == before.max.z.larger(p.z)
        }),
{
    assert(points.push(p).drop_last() == points);
}

/// The box around points none of which is NaN has its corners below and above every one of them.
pub proof fn box_holds_its_points(points: Seq<Vec3>, i: int)
    requires
        0 <= i < points.len(),
        forall|j: int| 0 <= j < points.len() ==> (#[trigger] points[j]).numeric(),
    ensures
        bounds_of(points).min.below(points[i]),
        points[i].below(bounds_of(points).max),
{
    bounds_hold_points(points, i);
}

} // verus!
