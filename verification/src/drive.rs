//! Driving: the vehicle's controls, and what is set up when driving begins.
use crate::editor::{copy_points, AppState};
use crate::geometry::{drawn, Vec3};
use crate::osm::{footprints, Building};
use crate::single::{zero, Single, MINUS_ONE, ONE, ZERO};
use crate::track::{
    fence_segments, track_samples, Track, DEFAULT_TRACK_WIDTH, FENCES_PER_POINT, MIN_CONTROL_POINTS,
    SECTIONS_PER_POINT,
};
use vstd::prelude::*;

verus! {

/// The highest speed forward: `35.0`.
pub const MAX_SPEED: u32 = 0x420c_0000;

/// The highest speed backward: `-10.0`.
pub const MAX_REVERSE_SPEED: u32 = 0xc120_0000;

/// How far the throttle is open and the wheel is turned.
#[derive(Clone, Copy, Debug, PartialEq, Eq, Structural)]
pub struct VehicleController {
    pub throttle: Single,
    pub steering: Single,
}

impl Default for VehicleController {
    fn default() -> (r: VehicleController)
        ensures
            r == (VehicleController { throttle: zero(), steering: zero() }),
    {
        VehicleController { throttle: Single { bits: ZERO }, steering: Single { bits: ZERO } }
    }
}

/// The keys that are held down.
#[derive(Clone, Copy, Debug, PartialEq, Eq, Structural)]
pub struct DriveKeys {
    pub w: bool,
    pub arrow_up: bool,
    pub s: bool,
    pub arrow_down: bool,
    pub a: bool,
    pub arrow_left: bool,
    pub d: bool,
    pub arrow_right: bool,
}

/// Where a control would be after this frame, by what is done with it.
#[derive(Clone, Copy, Debug, PartialEq, Eq, Structural)]
pub struct ThrottleSums {
    /// Accelerating.
    pub raised: Single,
    /// Braking.
    pub braked: Single,
    /// Coasting from above zero.
    pub eased_down: Single,
    /// Coasting from below zero.
    pub eased_up: Single,
}

/// Where the wheel would be after this frame, by what is done with it.
#[derive(Clone, Copy, Debug, PartialEq, Eq, Structural)]
pub struct SteeringSums {
    /// Turning right.
    pub right: Single,
    /// Turning left.
    pub left: Single,
    /// Returning from the right.
    pub eased_down: Single,
    /// Returning from the left.
    pub eased_up: Single,
}

/// A control that is let go: it goes back toward zero and not past it.
pub open spec fn eased(value: Single, down: Single, up: Single) -> Single {
    if zero().less(value) {
        down.larger(zero())
    } else if value.less(zero()) {
        up.smaller(zero())
    } else {
        value
    }
}

/// The throttle after a frame. Accelerating goes before braking.
pub open spec fn next_throttle(throttle: Single, keys: DriveKeys, sums: ThrottleSums) -> Single {
    (if keys.w || keys.arrow_up {
        sums.raised
    } else if keys.s || keys.arrow_down {
        sums.braked
    } else {
        eased(throttle, sums.eased_down, sums.eased_up)
    }).clamped(Single { bits: MAX_REVERSE_SPEED }, Single { bits: MAX_SPEED })
}

/// The steering after a frame. Left and right together let the wheel go.
pub open spec fn next_steering(steering: Single, keys: DriveKeys, sums: SteeringSums) -> Single {
    let left = keys.a || keys.arrow_left;
    let right = keys.d || keys.arrow_right;
    (if right && !left {
        sums.right
    } else if left && !right {
        sums.left
    } else {
        eased(steering, sums.eased_down, sums.eased_up)
    }).clamped(Single { bits: MINUS_ONE }, Single { bits: ONE })
}

fn ease(value: Single, down: Single, up: Single) -> (r: Single)
    ensures
        r == eased(value, down, up),
{
    let zero = Single { bits: ZERO };
    if zero.lt(value) {
        down.max(zero)
    } else if value.lt(zero) {
        up.min(zero)
    } else {
        value
    }
}

impl VehicleController {
    /// Moves throttle and wheel by what the keys ask for.
    pub fn control(&mut self, keys: DriveKeys, throttle: ThrottleSums, steering: SteeringSums)
        ensures
            final(self).throttle == next_throttle(old(self).throttle, keys, throttle),
            final(self).steering == next_steering(old(self).steering, keys, steering),
    {
        let opened = if keys.w || keys.arrow_up {
            throttle.raised
        } else if keys.s || keys.arrow_down {
            throttle.braked
        } else {
            ease(self.throttle, throttle.eased_down, throttle.eased_up)
        };
        let left = keys.a || keys.arrow_left;
        let right = keys.d || keys.arrow_right;
        let turned = if right && !left {
            steering.right
        } else if left && !right {
            steering.left
        } else {
            ease(self.steering, steering.eased_down, steering.eased_up)
        };
        self.throttle = opened.clamp(
            Single { bits: MAX_REVERSE_SPEED },
            Single { bits: MAX_SPEED },
        );
        self.steering = turned.clamp(Single { bits: MINUS_ONE }, Single { bits: ONE });
    }
}

/// The sign that steering takes from the direction of travel: `-1.0` backward, else `1.0`.
pub open spec fn travel_sign(speed: Single) -> Single {
    if speed.less(zero()) {
        Single { bits: MINUS_ONE }
    } else {
        Single { bits: ONE }
    }
}

/// The sign that steering takes from the direction of travel.
pub fn drive_direction(speed: Single) -> (r: Single)
    ensures
        r == travel_sign(speed),
{
    if speed.lt(Single { bits: ZERO }) {
        Single { bits: MINUS_ONE }
    } else {
        Single { bits: ONE }
    }
}

/// The controls stay within their limits, frame after frame.
pub proof fn controls_stay_in_range(
    throttle: Single,
    steering: Single,
    keys: DriveKeys,
    throttle_sums: ThrottleSums,
    steering_sums: SteeringSums,
)
    requires
        !throttle.nan(),
        !steering.nan(),
        !throttle_sums.raised.nan(),
        !throttle_sums.braked.nan(),
        !steering_sums.right.nan(),
        !steering_sums.left.nan(),
    ensures
        (Single { bits: MAX_REVERSE_SPEED }).at_most(next_throttle(throttle, keys, throttle_sums)),
        next_throttle(throttle, keys, throttle_sums).at_most(Single { bits: MAX_SPEED }),
        (Single { bits: MINUS_ONE }).at_most(next_steering(steering, keys, steering_sums)),
        next_steering(steering, keys, steering_sums).at_most(Single { bits: ONE }),
{
}

/// A control that is let go never passes zero.
pub proof fn easing_stops_at_zero(value: Single, down: Single, up: Single)
    ensures
        zero().less(value) ==> zero().at_most(eased(value, down, up)),
        value.less(zero()) ==> eased(value, down, up).at_most(zero()),
        value.equal(zero()) ==> eased(value, down, up) == value,
{
}

/// Where the keys of the drive screen lead. The way to the world map goes before the way back
/// to the editor.
pub fn drive_input(r_pressed: bool, m_pressed: bool) -> (r: Option<AppState>)
    ensures
        r == if m_pressed {
            Some(AppState::WorldMap)
        } else if r_pressed {
            Some(AppState::MapSelect)
        } else {
            None
        },
{
    if m_pressed {
        Some(AppState::WorldMap)
    } else if r_pressed {
        Some(AppState::MapSelect)
    } else {
        None
    }
}

/// What is set up when driving begins.
#[derive(Debug)]
pub struct DrivePlan {
    pub track: Track,
    /// The number of pieces of road surface.
    pub samples: usize,
    /// The number of pieces of fence along either side.
    pub fence_segments: usize,
    /// Where the vehicle starts.
    pub start: Vec3,
    /// The point that it faces.
    pub facing: Vec3,
    /// The buildings that are drawn, by their numbers.
    pub buildings: Vec<usize>,
}

/// The numbers of the buildings that are drawn: those with at least three points.
pub fn drawn_buildings(buildings: &Vec<Building>) -> (r: Vec<usize>)
    ensures
        r@ == drawn(footprints(buildings@)),
{
    let ghost outlines = footprints(buildings@);
    let mut r: Vec<usize> = Vec::new();
    for i in 0..buildings.len()
        invariant
            outlines == footprints(buildings@),
            r@ == drawn(outlines.take(i as int)),
    {
        assert(outlines.take(i + 1).drop_last() == outlines.take(i as int));
        if buildings[i].footprint.len() >= 3 {
            r.push(i);
        }
    }
    assert(outlines.take(buildings@.len() as int) == outlines);
    r
}

/// What is set up to drive the loop through the points of a route, or nothing where they are
/// too few to make a track.
pub fn drive_plan(route: &Vec<Vec3>, buildings: &Vec<Building>) -> (r: Option<DrivePlan>)
    requires
        route@.len() * SECTIONS_PER_POINT <= usize::MAX,
    ensures
        r is Some <==> route@.len() >= MIN_CONTROL_POINTS,
        r matches Some(plan) ==> {
            &&& plan.track.control_points@ == route@
            &&& plan.track.width == (Single { bits: DEFAULT_TRACK_WIDTH })
            &&& plan.samples == route@.len() * SECTIONS_PER_POINT
            &&& plan.fence_segments == route@.len() * FENCES_PER_POINT
            &&& plan.start == route@[0]
            &&& plan.facing == route@[1]
            &&& plan.buildings@ == drawn(footprints(buildings@))
        },
{
    let track = Track::new(copy_points(route));
    if !track.is_valid() {
        return None;
    }
    let samples = track_samples(&track);
    let segments = fence_segments(&track);
    Some(
        DrivePlan {
            start: track.control_points[0],
            facing: track.control_points[1],
            track,
            samples,
            fence_segments: segments,
            buildings: drawn_buildings(buildings),
        },
    )
}

/// Accelerating takes the raised throttle whatever else is held, by either key alike; braking takes
/// the braked one wherever none of those is held. Both end at the limits of speed.
pub proof fn throttle_follows_its_keys(throttle: Single, keys: DriveKeys, sums: ThrottleSums)
    ensures
        keys.w || keys.arrow_up ==> next_throttle(throttle, keys, sums) == sums.raised.clamped(
            Single { bits: 0xc120_0000 },
            Single { bits: 0x420c_0000 },
        ),
        !keys.w && !keys.arrow_up && (keys.s || keys.arrow_down) ==> next_throttle(
            throttle,
            keys,
            sums,
        ) == sums.braked.clamped(Single { bits: 0xc120_0000 }, Single { bits: 0x420c_0000 }),
{
}

/// With either right key held and no left key the wheel turns right, and with either left key held
/// and no right key it turns left, as far as it turns at all.
pub proof fn wheel_follows_its_keys(steering: Single, keys: DriveKeys, sums: SteeringSums)
    ensures
        (keys.d || keys.arrow_right) && !keys.a && !keys.arrow_left ==> next_steering(
            steering,
            keys,
            sums,
        ) == sums.right.clamped(Single { bits: 0xbf80_0000 }, Single { bits: 0x3f80_0000 }),
        (keys.a || keys.arrow_left) && !keys.d && !keys.arrow_right ==> next_steering(
            steering,
            keys,
            sums,
        ) == sums.left.clamped(Single { bits: 0xbf80_0000 }, Single { bits: 0x3f80_0000 }),
{
}

/// A control that is let go comes back from its side: from above zero to the eased-down place or to
/// zero, whichever is higher, from below to the eased-up place or to zero, whichever is lower; at
/// rest it stays. The throttle is let go without its four keys, the wheel without its four keys or
/// with keys of both sides.
pub proof fn controls_let_go_come_back(
    throttle: Single,
    steering: Single,
    keys: DriveKeys,
    throttle_sums: ThrottleSums,
    steering_sums: SteeringSums,
)
    ensures
        !keys.w && !keys.arrow_up && !keys.s && !keys.arrow_down ==> {
            let low = Single { bits: 0xc120_0000 };
            let high = Single { bits: 0x420c_0000 };
            let next = next_throttle(throttle, keys, throttle_sums);
            &&& zero().less(throttle) && zero().less(throttle_sums.eased_down) ==> next
                == throttle_sums.eased_down.clamped(low, high)
            &&& zero().less(throttle) && !zero().less(throttle_sums.eased_down) ==> next.equal(
                zero(),
            )
            &&& throttle.less(zero()) && throttle_sums.eased_up.less(zero()) ==> next
                == throttle_sums.eased_up.clamped(low, high)
            &&& throttle.less(zero()) && !throttle_sums.eased_up.less(zero()) ==> next.equal(zero())
            &&& throttle.equal(zero()) || throttle.nan() ==> next == throttle
        },
        (keys.d || keys.arrow_right) == (keys.a || keys.arrow_left) ==> {
            let low = Single { bits: 0xbf80_0000 };
            let high = Single { bits: 0x3f80_0000 };
            let next = next_steering(steering, keys, steering_sums);
            &&& zero().less(steering) && zero().less(steering_sums.eased_down) ==> next
                == steering_sums.eased_down.clamped(low, high)
            &&& zero().less(steering) && !zero().less(steering_sums.eased_down) ==> next.equal(
                zero(),
            )
            &&& steering.less(zero()) && steering_sums.eased_up.less(zero()) ==> next
                == steering_sums.eased_up.clamped(low, high)
            &&& steering.less(zero()) && !steering_sums.eased_up.less(zero()) ==> next.equal(zero())
            &&& steering.equal(zero()) || steering.nan() ==> next == steering
        },
{
}

/// The throttle heeds its own four keys alone, the two that accelerate alike and the two that brake
/// alike; so does the wheel with those of either side.
pub proof fn keys_of_a_pair_are_alike(
    throttle: Single,
    steering: Single,
    one: DriveKeys,
    other: DriveKeys,
    throttle_sums: ThrottleSums,
    steering_sums: SteeringSums,
)
    ensures
        (one.w || one.arrow_up) == (other.w || other.arrow_up) && (one.s || one.arrow_down) == (
        other.s || other.arrow_down) ==> next_throttle(throttle, one, throttle_sums)
            == next_throttle(throttle, other, throttle_sums),
        (one.a || one.arrow_left) == (other.a || other.arrow_left) && (one.d || one.arrow_right) == (
        other.d || other.arrow_right) ==> next_steering(steering, one, steering_sums)
            == next_steering(steering, other, steering_sums),
{
}

/// Steering turns round exactly while the vehicle moves backward: a speed with its sign bit set
/// that is neither zero nor NaN.
pub proof fn backing_turns_steering_round(speed: Single)
    ensures
        0x8000_0000 < speed.bits <= 0xff80_0000 ==> travel_sign(speed).bits == 0xbf80_0000,
        speed.bits <= 0x8000_0000 || 0xff80_0000 < speed.bits ==> travel_sign(speed).bits
            == 0x3f80_0000,
{
}

} // verus!
