use emigui::scalar::{Scalar, Wide, HALF, ONE};
use emigui::vec2::{vec2, Vec2};

#[test]
fn vec2_builds_from_components() {
    let v = vec2(3, -4);
    assert_eq!(v.x, 3);
    assert_eq!(v.y, -4);
    assert_eq!(v, Vec2 { x: 3, y: -4 });
}

#[test]
fn vec2_default_is_zero() {
    assert_eq!(Vec2::default(), vec2(0, 0));
}

#[test]
fn vec2_adds_and_subtracts() {
    assert_eq!(vec2(1, 2) + vec2(10, 20), vec2(11, 22));
    assert_eq!(vec2(1, 2) - vec2(10, 20), vec2(-9, -18));
}

#[test]
fn vec2_adds_in_place() {
    let mut v = vec2(1, 2);
    v += vec2(10, 20);
    assert_eq!(v, vec2(11, 22));
    v += vec2(Scalar::MAX, Scalar::MIN);
    assert_eq!(v, vec2(Scalar::MAX, Scalar::MIN + 22));
}

#[test]
fn vec2_sums_saturate() {
    assert_eq!(vec2(Scalar::MAX, Scalar::MIN) + vec2(1, -1), vec2(Scalar::MAX, Scalar::MIN));
    assert_eq!(vec2(Scalar::MIN, Scalar::MAX) - vec2(1, -1), vec2(Scalar::MIN, Scalar::MAX));
}

#[test]
fn vec2_scales_from_either_side() {
    assert_eq!(vec2(3 * ONE, -4 * ONE) * (2 * ONE), vec2(6 * ONE, -8 * ONE));
    assert_eq!((2 * ONE) * vec2(3 * ONE, -4 * ONE), vec2(6 * ONE, -8 * ONE));
    assert_eq!(vec2(3 * ONE, -5 * ONE) * HALF, vec2(3 * HALF, -5 * HALF));
    assert_eq!(HALF * vec2(3, -3), vec2(1, -1));
}

#[test]
fn vec2_divides_by_a_scalar() {
    assert_eq!(vec2(3 * ONE, -4 * ONE) / (2 * ONE), vec2(3 * HALF, -2 * ONE));
    assert_eq!(vec2(2 * ONE, 4 * ONE) / (2 * ONE), vec2(ONE, 2 * ONE));
    assert_eq!(vec2(ONE, -ONE) / (3 * ONE), vec2(21_845, -21_845));
    assert_eq!(vec2(ONE, -ONE) / (-ONE), vec2(-ONE, ONE));
}

#[test]
fn vec2_divided_by_zero_goes_to_the_ends_of_the_range() {
    assert_eq!(vec2(ONE, 0) / 0, vec2(Scalar::MAX, 0));
    assert_eq!(vec2(-1, 1) / 0, vec2(Scalar::MIN, Scalar::MAX));
    assert_eq!(vec2(0, 0) / 0, vec2(0, 0));
}

#[test]
fn vec2_length_of_a_right_triangle() {
    assert_eq!(vec2(3 * ONE, 4 * ONE).length(), 5 * ONE);
    assert_eq!(vec2(-3 * ONE, 4 * ONE).length(), 5 * ONE);
    assert_eq!(vec2(0, -7).length(), 7);
    assert_eq!(vec2(0, 0).length(), 0);
}

#[test]
fn vec2_length_rounds_down() {
    // The square root of two, in steps of the scale, is 92681.9.
    assert_eq!(vec2(ONE, ONE).length(), 92_681);
    assert_eq!(vec2(1, 1).length(), 1);
}

#[test]
fn vec2_length_saturates() {
    assert_eq!(vec2(Scalar::MIN, Scalar::MIN).length(), Scalar::MAX);
    assert_eq!(vec2(Scalar::MAX, 0).length(), Scalar::MAX);
}

#[test]
fn vec2_length_sq_is_the_square_of_the_length() {
    assert_eq!(vec2(3 * ONE, 4 * ONE).length_sq(), 25 * Wide::from(ONE));
    assert_eq!(vec2(HALF, 0).length_sq(), Wide::from(ONE / 4));
    assert_eq!(vec2(0, 0).length_sq(), 0);
    assert_eq!(vec2(1, 0).length_sq(), 0);
    assert_eq!(vec2(255, 1).length_sq(), 0);
    assert_eq!(vec2(256, 0).length_sq(), 1);
}

#[test]
fn vec2_length_sq_holds_the_square_of_every_length() {
    assert_eq!(vec2(200 * ONE, 0).length_sq(), 40_000 * Wide::from(ONE));
    assert_eq!(vec2(Scalar::MIN, Scalar::MIN).length_sq(), 1 << 47);
    assert_eq!(vec2(Scalar::MAX, 0).length_sq(), ((1_i64 << 31) - 1) * ((1_i64 << 31) - 1) >> 16);
}

#[test]
fn vec2_length_sq_orders_vectors_by_length() {
    let lengths = [0, 1, 255, 256, ONE, 181 * ONE, 182 * ONE, 20_000 * ONE, Scalar::MAX];
    for pair in lengths.windows(2) {
        assert!(vec2(pair[0], 0).length_sq() <= vec2(pair[1], 0).length_sq());
        assert!(vec2(0, -pair[0]).length_sq() <= vec2(pair[1], pair[1]).length_sq());
    }
    assert!(vec2(181 * ONE, 0).length_sq() < vec2(182 * ONE, 0).length_sq());
    assert!(vec2(20_000 * ONE, 0).length_sq() < vec2(20_000 * ONE, ONE).length_sq());
}

#[test]
fn vec2_normalized_leaves_zero_alone() {
    assert_eq!(vec2(0, 0).normalized(), vec2(0, 0));
}

#[test]
fn vec2_normalized_along_an_axis() {
    assert_eq!(vec2(5 * ONE, 0).normalized(), vec2(ONE, 0));
    assert_eq!(vec2(0, -3).normalized(), vec2(0, -ONE));
    assert_eq!(vec2(1, 0).normalized(), vec2(ONE, 0));
}

#[test]
fn vec2_normalized_is_one_long() {
    let n = vec2(3 * ONE, 4 * ONE).normalized();
    assert_eq!(n, vec2(39_321, 52_428));
    assert_eq!(n.length(), ONE - 1);
    let far = vec2(Scalar::MIN, Scalar::MAX).normalized();
    assert_eq!(far, vec2(-46_340, 46_340));
    assert_eq!(far.length(), ONE - 2);
}

#[test]
fn vec2_normalized_is_one_long_for_short_vectors() {
    assert_eq!(vec2(1, 1).normalized(), vec2(46_341, 46_341));
    assert_eq!(vec2(1, 1).normalized().length(), ONE);
    assert_eq!(vec2(-7, 2).normalized(), vec2(-63_014, 18_004));
    assert_eq!(vec2(-7, 2).normalized().length(), ONE - 1);
    for x in -12..=12 {
        for y in -12..=12 {
            if x != 0 || y != 0 {
                let len = vec2(x, y).normalized().length();
                assert!(ONE - 2 <= len && len <= ONE);
            }
        }
    }
}

#[test]
fn vec2_normalized_matches_the_direction_in_floating_point() {
    for v in [vec2(-123_456, 789_012), vec2(-7, 2), vec2(1, 1), vec2(Scalar::MAX, 3)] {
        let n = v.normalized();
        let len = (v.x as f64).hypot(v.y as f64);
        assert!((n.x as f64 - v.x as f64 * 65_536.0 / len).abs() < 2.0);
        assert!((n.y as f64 - v.y as f64 * 65_536.0 / len).abs() < 2.0);
    }
    assert_eq!(vec2(-123_456, 789_012).normalized(), vec2(-10_131, 64_748));
}

#[test]
fn vec2_rot90_swaps_and_negates() {
    assert_eq!(vec2(3, 4).rot90(), vec2(4, -3));
    assert_eq!(vec2(ONE, 0).rot90(), vec2(0, -ONE));
    assert_eq!(vec2(0, ONE).rot90(), vec2(ONE, 0));
}

#[test]
fn vec2_rot90_four_times_is_the_identity() {
    let v = vec2(3 * ONE, -4 * ONE);
    assert_eq!(v.rot90().rot90(), vec2(-3 * ONE, 4 * ONE));
    assert_eq!(v.rot90().rot90().rot90().rot90(), v);
    let w = vec2(Scalar::MAX, -Scalar::MAX);
    assert_eq!(w.rot90().rot90().rot90().rot90(), w);
}

#[test]
fn vec2_rot90_saturates_at_the_bottom_of_the_range() {
    assert_eq!(vec2(Scalar::MIN, 0).rot90(), vec2(0, Scalar::MAX));
    let v = vec2(Scalar::MIN, 0);
    assert_eq!(v.rot90().rot90().rot90().rot90(), vec2(-Scalar::MAX, 0));
}
