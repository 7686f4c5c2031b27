//! Single-precision numbers, points and rings.
use trka::geometry::{drop_closing_point, polyline_pieces, ring_outline, Bounds, Vec3};
use trka::single::{Single, INFINITY, MINUS_ONE, ONE, ZERO};

fn s(x: f32) -> Single {
    Single { bits: x.to_bits() }
}

fn p(x: f32, y: f32, z: f32) -> Vec3 {
    Vec3 { x: s(x), y: s(y), z: s(z) }
}

const SAMPLES: [f32; 15] = [
    0.0,
    -0.0,
    1.0,
    -1.0,
    0.1,
    -0.1,
    1500.0,
    -1500.0,
    f32::MIN_POSITIVE,
    1.0e-45,
    -1.0e-45,
    f32::MAX,
    f32::INFINITY,
    f32::NEG_INFINITY,
    f32::NAN,
];

#[test]
fn constants_are_the_numbers_they_name() {
    assert_eq!(f32::from_bits(ZERO), 0.0);
    assert_eq!(f32::from_bits(ONE), 1.0);
    assert_eq!(f32::from_bits(MINUS_ONE), -1.0);
    assert_eq!(f32::from_bits(INFINITY), f32::INFINITY);
}

#[test]
fn comparison_agrees_with_the_machine() {
    for a in SAMPLES {
        for b in SAMPLES {
            assert_eq!(s(a).lt(s(b)), a < b, "{a} < {b}");
            assert_eq!(s(a).same(s(b)), a == b, "{a} == {b}");
        }
    }
}

#[test]
fn classification_agrees_with_the_machine() {
    for a in SAMPLES {
        assert_eq!(s(a).is_nan(), a.is_nan());
        assert_eq!(s(a).is_finite(), a.is_finite());
        assert_eq!(s(a).neg(), s(-a));
        assert_eq!(s(a).neg().neg(), s(a));
    }
}

#[test]
fn selection_agrees_with_the_machine() {
    for a in SAMPLES {
        for b in SAMPLES {
            let larger = f32::from_bits(s(a).max(s(b)).bits);
            let smaller = f32::from_bits(s(a).min(s(b)).bits);
            assert!(larger == a.max(b) || (larger.is_nan() && a.max(b).is_nan()));
            assert!(smaller == a.min(b) || (smaller.is_nan() && a.min(b).is_nan()));
        }
        let clamped = f32::from_bits(s(a).clamp(s(-1.0), s(35.0)).bits);
        assert!(clamped == a.clamp(-1.0, 35.0) || (clamped.is_nan() && a.is_nan()));
    }
}

#[test]
fn clamping_twice_is_clamping_once() {
    for a in SAMPLES {
        let once = s(a).clamp(s(-10.0), s(35.0));
        assert_eq!(once.clamp(s(-10.0), s(35.0)), once);
    }
}

#[test]
fn closing_point_is_dropped() {
    let closed = vec![p(0.0, 0.0, 0.0), p(1.0, 0.0, 0.0), p(1.0, 0.0, 1.0), p(0.0, 0.0, 0.0)];
    let open = drop_closing_point(closed);
    assert_eq!(open, vec![p(0.0, 0.0, 0.0), p(1.0, 0.0, 0.0), p(1.0, 0.0, 1.0)]);
}

#[test]
fn closing_point_is_compared_as_numbers() {
    let zeros = vec![p(0.0, 0.0, 0.0), p(1.0, 0.0, 0.0), p(1.0, 0.0, 1.0), p(-0.0, 0.0, -0.0)];
    assert_eq!(drop_closing_point(zeros).len(), 3);
    let nan = f32::NAN;
    let lost = vec![p(nan, 0.0, 0.0), p(1.0, 0.0, 0.0), p(1.0, 0.0, 1.0), p(nan, 0.0, 0.0)];
    assert_eq!(drop_closing_point(lost).len(), 4);
}

#[test]
fn three_points_are_kept() {
    let three = vec![p(0.0, 0.0, 0.0), p(1.0, 0.0, 0.0), p(0.0, 0.0, 0.0)];
    assert_eq!(drop_closing_point(three).len(), 3);
    assert_eq!(drop_closing_point(Vec::new()).len(), 0);
}

#[test]
fn pieces_join_neighbours() {
    let (a, b, c) = (p(0.0, 0.0, 0.0), p(1.0, 0.0, 0.0), p(1.0, 0.0, 1.0));
    assert_eq!(polyline_pieces(&vec![a, b, c]), vec![(a, b), (b, c)]);
    assert_eq!(polyline_pieces(&vec![a]), vec![]);
    assert_eq!(polyline_pieces(&Vec::new()), vec![]);
}

#[test]
fn outline_comes_back_to_its_start() {
    let (a, b, c) = (p(0.0, 0.0, 0.0), p(1.0, 0.0, 0.0), p(1.0, 0.0, 1.0));
    assert_eq!(ring_outline(&vec![a, b, c]), vec![(a, b), (b, c), (c, a)]);
    assert_eq!(ring_outline(&vec![a]), vec![(a, a)]);
    assert_eq!(ring_outline(&Vec::new()), vec![]);
}

#[test]
fn empty_bounds_are_inside_out() {
    let bounds = Bounds::empty();
    let far = p(f32::INFINITY, f32::INFINITY, f32::INFINITY);
    assert_eq!(bounds.min, far);
    assert_eq!(bounds.max, far.reverse());
}

#[test]
fn points_are_selected_by_axis() {
    let (a, b) = (p(1.0, -2.0, 3.0), p(-1.0, 2.0, 4.0));
    assert_eq!(a.min(b), p(-1.0, -2.0, 3.0));
    assert_eq!(a.max(b), p(1.0, 2.0, 4.0));
    assert!(a.same_place(a));
    assert!(!a.same_place(b));
    assert_eq!(a.reverse(), p(-1.0, 2.0, -3.0));
}
