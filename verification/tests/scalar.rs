use emigui::scalar::{clamp, lerp, remap, remap_clamp, divide, multiply, Scalar, HALF, ONE, TAU};

#[test]
fn remap_clamp_saturates_at_the_destination_ends() {
    assert_eq!(remap_clamp(-5 * ONE, 0, 10 * ONE, 0, 100 * ONE), 0);
    assert_eq!(remap_clamp(15 * ONE, 0, 10 * ONE, 0, 100 * ONE), 100 * ONE);
    assert_eq!(remap_clamp(5 * ONE, 0, 10 * ONE, 0, 100 * ONE), 50 * ONE);
}

#[test]
fn remap_clamp_at_the_source_ends() {
    assert_eq!(remap_clamp(0, 0, 10 * ONE, 7 * ONE, 9 * ONE), 7 * ONE);
    assert_eq!(remap_clamp(10 * ONE, 0, 10 * ONE, 7 * ONE, 9 * ONE), 9 * ONE);
}

#[test]
fn remap_clamp_accepts_an_empty_source_interval() {
    assert_eq!(remap_clamp(3 * ONE, 4 * ONE, 4 * ONE, ONE, 2 * ONE), ONE);
    assert_eq!(remap_clamp(4 * ONE, 4 * ONE, 4 * ONE, ONE, 2 * ONE), ONE);
    assert_eq!(remap_clamp(5 * ONE, 4 * ONE, 4 * ONE, ONE, 2 * ONE), 2 * ONE);
}

#[test]
fn remap_clamp_into_a_falling_interval() {
    assert_eq!(remap_clamp(ONE, 0, 4 * ONE, 100 * ONE, 0), 75 * ONE);
    assert_eq!(remap_clamp(-ONE, 0, 4 * ONE, 100 * ONE, 0), 100 * ONE);
    assert_eq!(remap_clamp(9 * ONE, 0, 4 * ONE, 100 * ONE, 0), 0);
}

#[test]
fn remap_clamp_from_a_falling_interval() {
    // The fraction is taken along the interval as it runs, and then held
    // between zero and one.
    assert_eq!(remap_clamp(5 * ONE, 10 * ONE, 0, 0, 100 * ONE), 50 * ONE);
    assert_eq!(remap_clamp(15 * ONE, 10 * ONE, 0, 0, 100 * ONE), 0);
    assert_eq!(remap_clamp(10 * ONE, 10 * ONE, 0, 0, 100 * ONE), 0);
    assert_eq!(remap_clamp(-5 * ONE, 10 * ONE, 0, 0, 100 * ONE), 100 * ONE);
    assert_eq!(remap_clamp(0, 10 * ONE, 0, 0, 100 * ONE), 100 * ONE);
    assert_eq!(remap_clamp(5 * ONE, 10 * ONE, 0, 0, 100 * ONE), remap(5 * ONE, 10 * ONE, 0, 0, 100 * ONE));
}

#[test]
fn remap_extrapolates_outside_the_source_interval() {
    assert_eq!(remap(-5 * ONE, 0, 10 * ONE, 0, 100 * ONE), -50 * ONE);
    assert_eq!(remap(15 * ONE, 0, 10 * ONE, 0, 100 * ONE), 150 * ONE);
    assert_eq!(remap(5 * ONE, 0, 10 * ONE, 0, 100 * ONE), 50 * ONE);
}

#[test]
fn remap_from_a_falling_interval() {
    assert_eq!(remap(5 * ONE, 10 * ONE, 0, 0, 100 * ONE), 50 * ONE);
    // One fifth is not a whole number of steps of the scale: the fraction is
    // rounded toward zero to 13107 steps before the interpolation.
    assert_eq!(remap(8 * ONE, 10 * ONE, 0, 0, 100 * ONE), 13_107 * 100);
}

#[test]
fn remap_saturates_the_fraction() {
    // The fraction is far beyond the range of a scalar, and is held to it
    // before the interpolation.
    let t = Scalar::MAX as i128;
    let expected = ((65_536 - t) * 0 + t * ONE as i128) / 65_536;
    assert_eq!(remap(Scalar::MAX, 0, 1, 0, ONE) as i128, expected);
    assert_eq!(remap(Scalar::MAX, 0, 1, 0, ONE), Scalar::MAX);
}

#[test]
fn remap_across_an_interval_of_no_width() {
    // Beyond the interval the fraction is the top of the range, before it
    // the bottom, and at it zero.
    assert_eq!(remap(5 * ONE, ONE, ONE, 0, 100 * ONE), Scalar::MAX);
    assert_eq!(remap(-5 * ONE, ONE, ONE, 0, 100 * ONE), Scalar::MIN);
    assert_eq!(remap(ONE, ONE, ONE, 7 * ONE, 100 * ONE), 7 * ONE);
    assert_eq!(remap(5 * ONE, ONE, ONE, 3, 3), 3);
    assert_eq!(remap(5 * ONE, ONE, ONE, 100 * ONE, 0), Scalar::MIN);
}

#[test]
fn lerp_reaches_both_ends() {
    assert_eq!(lerp(3 * ONE, 7 * ONE, 0), 3 * ONE);
    assert_eq!(lerp(3 * ONE, 7 * ONE, ONE), 7 * ONE);
    assert_eq!(lerp(Scalar::MIN, Scalar::MAX, 0), Scalar::MIN);
    assert_eq!(lerp(Scalar::MIN, Scalar::MAX, ONE), Scalar::MAX);
}

#[test]
fn lerp_interpolates() {
    assert_eq!(lerp(3 * ONE, 7 * ONE, HALF), 5 * ONE);
    assert_eq!(lerp(0, 100 * ONE, ONE / 4), 25 * ONE);
    assert_eq!(lerp(10 * ONE, -10 * ONE, ONE / 4), 5 * ONE);
}

#[test]
fn lerp_extrapolates() {
    assert_eq!(lerp(3 * ONE, 7 * ONE, 2 * ONE), 11 * ONE);
    assert_eq!(lerp(3 * ONE, 7 * ONE, -ONE), -ONE);
}

#[test]
fn lerp_rounds_toward_zero() {
    assert_eq!(lerp(0, 1, HALF), 0);
    assert_eq!(lerp(0, -1, HALF), 0);
    assert_eq!(lerp(0, 3, HALF), 1);
    assert_eq!(lerp(0, -3, HALF), -1);
}

#[test]
fn lerp_saturates() {
    assert_eq!(lerp(0, Scalar::MAX, 2 * ONE), Scalar::MAX);
    assert_eq!(lerp(0, Scalar::MIN, 2 * ONE), Scalar::MIN);
    assert_eq!(lerp(Scalar::MIN, Scalar::MAX, Scalar::MAX), Scalar::MAX);
    assert_eq!(lerp(Scalar::MIN, Scalar::MAX, Scalar::MIN), Scalar::MIN);
}

#[test]
fn lerp_stays_between_the_ends() {
    let mut t: Scalar = 0;
    while t <= ONE {
        let r = lerp(-7 * ONE, 9 * ONE, t);
        assert!(-7 * ONE <= r && r <= 9 * ONE);
        let s = lerp(9 * ONE, -7 * ONE, t);
        assert!(-7 * ONE <= s && s <= 9 * ONE);
        t += 4_099;
    }
}

#[test]
fn clamp_holds_to_the_bounds() {
    assert_eq!(clamp(5, 0, 10), 5);
    assert_eq!(clamp(-3, 0, 10), 0);
    assert_eq!(clamp(12, 0, 10), 10);
    assert_eq!(clamp(0, 0, 10), 0);
    assert_eq!(clamp(10, 0, 10), 10);
    assert_eq!(clamp(HALF, 0, ONE), HALF);
}

#[test]
fn clamp_with_crossed_bounds_prefers_the_lower_one() {
    assert_eq!(clamp(5, 10, 0), 10);
    assert_eq!(clamp(15, 10, 0), 0);
}

#[test]
fn multiply_multiplies_in_fixed_point() {
    assert_eq!(multiply(3 * HALF, 2 * ONE), 3 * ONE);
    assert_eq!(multiply(-3 * ONE, HALF), -3 * HALF);
    assert_eq!(multiply(7 * ONE, 0), 0);
    assert_eq!(multiply(1, HALF), 0);
    assert_eq!(multiply(-1, HALF), 0);
    assert_eq!(multiply(3, HALF), 1);
    assert_eq!(multiply(-3, HALF), -1);
}

#[test]
fn multiply_saturates() {
    assert_eq!(multiply(Scalar::MAX, 2 * ONE), Scalar::MAX);
    assert_eq!(multiply(Scalar::MAX, -2 * ONE), Scalar::MIN);
    assert_eq!(multiply(Scalar::MIN, Scalar::MIN), Scalar::MAX);
}

#[test]
fn divide_divides_in_fixed_point() {
    assert_eq!(divide(3 * ONE, 2 * ONE), 3 * HALF);
    assert_eq!(divide(ONE, 3 * ONE), 21_845);
    assert_eq!(divide(-ONE, 3 * ONE), -21_845);
    assert_eq!(divide(ONE, -3 * ONE), -21_845);
    assert_eq!(divide(-ONE, -3 * ONE), 21_845);
    assert_eq!(divide(0, 5), 0);
}

#[test]
fn divide_saturates() {
    assert_eq!(divide(ONE, 1), Scalar::MAX);
    assert_eq!(divide(-ONE, 1), Scalar::MIN);
    assert_eq!(divide(Scalar::MIN, -1), Scalar::MAX);
}

#[test]
fn divide_by_zero_goes_to_the_end_of_the_range() {
    assert_eq!(divide(ONE, 0), Scalar::MAX);
    assert_eq!(divide(1, 0), Scalar::MAX);
    assert_eq!(divide(-1, 0), Scalar::MIN);
    assert_eq!(divide(Scalar::MIN, 0), Scalar::MIN);
    assert_eq!(divide(0, 0), 0);
}

#[test]
fn tau_is_the_nearest_scalar_to_a_full_turn() {
    let exact = 2.0 * std::f64::consts::PI * 65_536.0;
    assert!((TAU as f64 - exact).abs() <= 0.5);
    assert_eq!(HALF * 2, ONE);
}
