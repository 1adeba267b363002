use rust3d::math::{blend, blend_negated, Angle, ONE};
use rust3d::shape::{
    clamp, covers_pixel, crossing_ceil_value, crossing_floor_value, edge_value, greatest, least,
};

#[test]
fn edge_value_is_doubled_signed_area() {
    assert_eq!(edge_value((0, 0), (4, 0), (0, 4)), 16);
    assert_eq!(edge_value((0, 0), (0, 4), (4, 0)), -16);
    assert_eq!(edge_value((1, 1), (3, 3), (7, 7)), 0);
    assert_eq!(edge_value((2, 3), (5, 3), (4, 9)), 18);
}

#[test]
fn edge_value_at_the_ends_of_the_range() {
    let (lo, hi) = (i32::MIN, i32::MAX);
    let span = hi as i128 - lo as i128;
    assert_eq!(edge_value((lo, lo), (hi, lo), (lo, hi)), span * span);
    assert_eq!(edge_value((hi, hi), (lo, hi), (hi, lo)), span * span);
    assert_eq!(edge_value((lo, lo), (lo, hi), (hi, lo)), -span * span);
}

#[test]
fn covers_pixel_includes_edges_and_corners() {
    let (a, b, c) = ((0, 0), (4, 0), (0, 4));
    let d = edge_value(a, b, c);
    for p in [(0, 0), (4, 0), (0, 4), (2, 2), (2, 0), (0, 2), (1, 1)] {
        assert!(covers_pixel(a, b, c, d, p), "{:?}", p);
    }
    for p in [(3, 3), (-1, 0), (0, -1), (5, 0), (3, 2)] {
        assert!(!covers_pixel(a, b, c, d, p), "{:?}", p);
    }
    let d = edge_value(a, c, b);
    assert!(covers_pixel(a, c, b, d, (1, 1)));
    assert!(!covers_pixel(a, c, b, d, (3, 3)));
}

#[test]
fn covers_pixel_of_flat_triangle_is_false() {
    let (a, b, c) = ((0, 0), (2, 2), (4, 4));
    assert_eq!(edge_value(a, b, c), 0);
    assert!(!covers_pixel(a, b, c, 0, (1, 1)));
    assert!(!covers_pixel(a, a, a, 0, a));
}

#[test]
fn crossings_round_to_each_side() {
    assert_eq!(crossing_floor_value((0, 0), (3, 2), 1), 1);
    assert_eq!(crossing_ceil_value((0, 0), (3, 2), 1), 2);
    assert_eq!(crossing_floor_value((0, 0), (-3, 2), 1), -2);
    assert_eq!(crossing_ceil_value((0, 0), (-3, 2), 1), -1);
    assert_eq!(crossing_floor_value((5, 10), (9, 14), 12), 7);
    assert_eq!(crossing_ceil_value((5, 10), (9, 14), 12), 7);
    assert_eq!(crossing_floor_value((5, 10), (9, 14), 10), 5);
    assert_eq!(crossing_ceil_value((5, 10), (9, 14), 14), 9);
}

#[test]
fn least_greatest_clamp() {
    assert_eq!(least(3, -2, 7), -2);
    assert_eq!(least(3, 9, 1), 1);
    assert_eq!(least(0, 9, 1), 0);
    assert_eq!(greatest(3, -2, 7), 7);
    assert_eq!(greatest(3, 9, 1), 9);
    assert_eq!(greatest(30, 9, 1), 30);
    assert_eq!(clamp(-5, 10), 0);
    assert_eq!(clamp(5, 10), 5);
    assert_eq!(clamp(50, 10), 10);
    assert_eq!(clamp(0, 0), 0);
}

#[test]
fn blend_is_rounded_down_sum_of_products() {
    assert_eq!(blend(3 * ONE, ONE / 2, 5 * ONE, ONE / 4), 3 * ONE / 2 + 5 * ONE / 4);
    assert_eq!(blend(1, 1, 0, 0), 0);
    assert_eq!(blend(-1, 1, 0, 0), -1);
    assert_eq!(blend_negated(3 * ONE, ONE, ONE, ONE / 2), 3 * ONE - ONE / 2);
    assert_eq!(blend_negated(0, 0, 1, 1), -1);
    assert_eq!(blend(i32::MAX, i32::MAX, i32::MAX, i32::MAX), i32::MAX);
    assert_eq!(blend(i32::MIN, i32::MAX, i32::MIN, i32::MAX), i32::MIN);
    assert_eq!(blend_negated(i32::MIN, i32::MIN, i32::MIN, i32::MAX), i32::MAX);
}

#[test]
fn angle_zero_is_no_turn() {
    let a = Angle::zero();
    assert_eq!((a.sin, a.cos), (0, ONE));
    let b = Angle::new(-7, 9);
    assert_eq!((b.sin, b.cos), (-7, 9));
}
