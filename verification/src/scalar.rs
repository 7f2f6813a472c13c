//! Scalars and the interpolation helpers built on them.
//!
//! A [`Scalar`] is a signed fixed-point number with sixteen fractional bits:
//! the stored integer `s` stands for the quantity `s / 65536`. Every operation
//! computes its exact result, rounds it toward zero where a division is
//! involved, and then saturates it to the range of the type, so no operation
//! can overflow and none can fail. Division by zero saturates too: it gives
//! the end of the range on the side of the dividend.

use vstd::prelude::*;

verus! {

/// A fixed-point number with sixteen fractional bits.
pub type Scalar = i32;

/// A fixed-point number with sixteen fractional bits and twice the width of a
/// [`Scalar`]: room for the square of any scalar.
pub type Wide = i64;

/// The scalar that stands for one.
pub const ONE: Scalar = 65_536;

/// The scalar that stands for one half.
pub const HALF: Scalar = 32_768;

/// The scalar closest to a full turn in radians (two times pi).
pub const TAU: Scalar = 411_775;

/// The value of [`Scalar`] nearest to `v`.
pub open spec fn saturate(v: int) -> int {
    if v < i32::MIN {
        i32::MIN as int
    } else if v > i32::MAX {
        i32::MAX as int
    } else {
        v
    }
}

/// The distance of `v` from zero.
pub open spec fn magnitude(v: int) -> int {
    if v < 0 {
        -v
    } else {
        v
    }
}

/// The quotient of `n` by `d`, rounded toward zero. Meaningful for `d != 0`.
pub open spec fn quotient(n: int, d: int) -> int
    recommends
        d != 0,
{
    if d > 0 {
        if n >= 0 {
            n / d
        } else {
            -((-n) / d)
        }
    } else {
        if n >= 0 {
            -(n / (-d))
        } else {
            (-n) / (-d)
        }
    }
}

/// The fixed-point product of two scalars.
pub open spec fn product(a: int, b: int) -> int {
    saturate(quotient(a * b, ONE as int))
}

/// The fixed-point ratio of two scalars. A zero divisor gives the end of the
/// range on the side of the dividend, and zero over zero is zero.
pub open spec fn ratio(a: int, b: int) -> int {
    if b != 0 {
        saturate(quotient(a * ONE, b))
    } else if a > 0 {
        i32::MAX as int
    } else if a < 0 {
        i32::MIN as int
    } else {
        0
    }
}

/// The point that lies the fraction `t` of the way from `min` to `max`:
/// `(1 - t) * min + t * max`, in fixed point.
pub open spec fn lerp_spec(min: int, max: int, t: int) -> int {
    saturate(quotient((ONE - t) * min + t * max, ONE as int))
}

/// The fraction of the way from `from_min` to `from_max` at which `value`
/// lies: the ratio of `value - from_min` to `from_max - from_min`, both taken
/// exactly. Across an interval of no width it is the end of the range on the
/// side on which `value` lies, and zero at the interval itself.
pub open spec fn fraction_spec(value: int, from_min: int, from_max: int) -> int {
    ratio(value - from_min, from_max - from_min)
}

/// `value` carried from the interval `[from_min, from_max]` over to
/// `[to_min, to_max]`.
pub open spec fn remap_spec(value: int, from_min: int, from_max: int, to_min: int, to_max: int) -> int {
    lerp_spec(to_min, to_max, fraction_spec(value, from_min, from_max))
}

/// [`fraction_spec`] held to the interval from zero to one.
pub open spec fn clamped_fraction_spec(value: int, from_min: int, from_max: int) -> int {
    clamp_spec(fraction_spec(value, from_min, from_max), 0, ONE as int)
}

/// Like [`remap_spec`], but values outside the source interval land on the
/// nearer end of the destination interval.
pub open spec fn remap_clamp_spec(value: int, from_min: int, from_max: int, to_min: int, to_max: int) -> int {
    lerp_spec(to_min, to_max, clamped_fraction_spec(value, from_min, from_max))
}

/// `x` held to `[min, max]`; the lower bound wins where the two cross.
pub open spec fn clamp_spec(x: int, min: int, max: int) -> int {
    if x <= min {
        min
    } else if x >= max {
        max
    } else {
        x
    }
}

/// Whether `r` is the square root of `v`, rounded down.
pub open spec fn is_floor_sqrt(r: int, v: int) -> bool {
    0 <= r && r * r <= v < (r + 1) * (r + 1)
}

/// The square root of `v`, rounded down. Meaningful for `v >= 0`.
pub open spec fn floor_sqrt(v: int) -> int
    recommends
        v >= 0,
{
    choose|r: int| is_floor_sqrt(r, v)
}

/// Only one integer is the rounded-down square root of `v`, so whichever
/// integer passes [`is_floor_sqrt`] is the value of [`floor_sqrt`].
pub proof fn lemma_floor_sqrt_unique(r: int, v: int)
    requires
        is_floor_sqrt(r, v),
    ensures
        floor_sqrt(v) == r,
{
    let c = floor_sqrt(v);
    assert(is_floor_sqrt(c, v));
    assert(c == r) by (nonlinear_arith)
        requires
            0 <= r,
            0 <= c,
            r * r <= v < (r + 1) * (r + 1),
            c * c <= v < (c + 1) * (c + 1),
    ;
}

/// Every natural number has a rounded-down square root.
pub proof fn lemma_floor_sqrt_exists(v: int)
    requires
        v >= 0,
    ensures
        is_floor_sqrt(floor_sqrt(v), v),
    decreases v,
{
    if v == 0 {
        assert(is_floor_sqrt(0, v));
    } else {
        lemma_floor_sqrt_exists(v - 1);
        let r = floor_sqrt(v - 1);
        if (r + 1) * (r + 1) <= v {
            assert(v < (r + 2) * (r + 2)) by (nonlinear_arith)
                requires
                    0 <= r,
                    v - 1 < (r + 1) * (r + 1),
            ;
            assert(is_floor_sqrt(r + 1, v));
        } else {
            assert(is_floor_sqrt(r, v));
        }
    }
}

/// Interpolating at a fraction between zero and one stays between the two
/// ends, whichever of them is the larger.
pub proof fn lemma_lerp_between(min: Scalar, max: Scalar, t: Scalar)
    requires
        0 <= t <= ONE,
    ensures
        min <= max ==> min <= lerp_spec(min as int, max as int, t as int) <= max,
        max <= min ==> max <= lerp_spec(min as int, max as int, t as int) <= min,
{
    let one = ONE as int;
    let sum = (ONE - t) * min + t * max;
    if min <= max {
        assert(one * min <= sum <= one * max) by (nonlinear_arith)
            requires
                sum == (one - t) * min + t * max,
                0 <= t <= one,
                min <= max,
        ;
    }
    if max <= min {
        assert(one * max <= sum <= one * min) by (nonlinear_arith)
            requires
                sum == (one - t) * min + t * max,
                0 <= t <= one,
                max <= min,
        ;
    }
}

/// The fraction that [`clamped_fraction_spec`] yields lies between zero and
/// one. It is zero from the first end of the source interval outward, and one
/// from the second end outward, whichever way the interval runs; across an
/// interval of no width it is zero up to the interval and one beyond it.
pub proof fn lemma_clamped_fraction_ends(value: Scalar, from_min: Scalar, from_max: Scalar)
    ensures
        0 <= clamped_fraction_spec(value as int, from_min as int, from_max as int) <= ONE,
        from_min <= from_max && value <= from_min ==> clamped_fraction_spec(
            value as int,
            from_min as int,
            from_max as int,
        ) == 0,
        from_min <= from_max && from_min < value && from_max <= value ==> clamped_fraction_spec(
            value as int,
            from_min as int,
            from_max as int,
        ) == ONE,
        from_max < from_min && from_min <= value ==> clamped_fraction_spec(
            value as int,
            from_min as int,
            from_max as int,
        ) == 0,
        from_max < from_min && value <= from_max ==> clamped_fraction_spec(
            value as int,
            from_min as int,
            from_max as int,
        ) == ONE,
{
    let one = ONE as int;
    let n = (value - from_min) * one;
    let d = from_max - from_min;
    if d > 0 {
        if value <= from_min {
            assert((-n) / d >= 0) by (nonlinear_arith)
                requires
                    -n >= 0,
                    d > 0,
            ;
        } else if value >= from_max {
            assert(n / d >= one) by (nonlinear_arith)
                requires
                    n >= d * one,
                    d > 0,
                    one > 0,
            ;
        }
    } else if d < 0 {
        if value >= from_min {
            assert(n / (-d) >= 0) by (nonlinear_arith)
                requires
                    n >= 0,
                    -d > 0,
            ;
        } else if value <= from_max {
            assert((-n) / (-d) >= one) by (nonlinear_arith)
                requires
                    -n >= (-d) * one,
                    -d > 0,
                    one > 0,
            ;
        }
    }
}

/// A value carried over with clamping lands between the two ends of the
/// destination interval, whichever of them is the larger.
pub proof fn lemma_remap_clamp_between(
    value: Scalar,
    from_min: Scalar,
    from_max: Scalar,
    to_min: Scalar,
    to_max: Scalar,
)
    ensures
        to_min <= to_max ==> to_min <= remap_clamp_spec(
            value as int,
            from_min as int,
            from_max as int,
            to_min as int,
            to_max as int,
        ) <= to_max,
        to_max <= to_min ==> to_max <= remap_clamp_spec(
            value as int,
            from_min as int,
            from_max as int,
            to_min as int,
            to_max as int,
        ) <= to_min,
{
    lemma_clamped_fraction_ends(value, from_min, from_max);
    let t = clamped_fraction_spec(value as int, from_min as int, from_max as int);
    lemma_lerp_between(to_min, to_max, t as Scalar);
}

/// Saturates a wide integer to a scalar.
pub(crate) fn narrow(v: i128) -> (r: Scalar)
    ensures
        r == saturate(v as int),
{
    if v < -2_147_483_648 {
        i32::MIN
    } else if v > 2_147_483_647 {
        i32::MAX
    } else {
        v as i32
    }
}

/// Divides with rounding toward zero.
pub(crate) fn quotient_wide(n: i128, d: i128) -> (q: i128)
    requires
        d != 0,
        i128::MIN < n,
        i128::MIN < d,
    ensures
        q == quotient(n as int, d as int),
{
    if d > 0 {
        n / d
    } else {
        (-n) / (-d)
    }
}

/// The product of two wide integers of bounded size.
pub(crate) fn product_wide(a: i128, b: i128) -> (p: i128)
    requires
        -0x1_0000_0000_0000 <= a <= 0x1_0000_0000_0000,
        -0x1_0000_0000_0000 <= b <= 0x1_0000_0000_0000,
    ensures
        p == a * b,
        -0x1_0000_0000_0000_0000_0000_0000 <= p <= 0x1_0000_0000_0000_0000_0000_0000,
{
    assert(-0x1_0000_0000_0000_0000_0000_0000 <= a * b <= 0x1_0000_0000_0000_0000_0000_0000)
        by (nonlinear_arith)
        requires
            -0x1_0000_0000_0000 <= a <= 0x1_0000_0000_0000,
            -0x1_0000_0000_0000 <= b <= 0x1_0000_0000_0000,
    ;
    a * b
}

/// The fixed-point product of `a` and `b`.
pub fn multiply(a: Scalar, b: Scalar) -> (r: Scalar)
    ensures
        r == product(a as int, b as int),
{
    let p: i128 = product_wide(a as i128, b as i128);
    narrow(quotient_wide(p, 65_536))
}

/// The fixed-point ratio of the difference `hi - lo` to `d`. The difference is
/// taken exactly, so it may exceed the range of a scalar.
pub(crate) fn ratio_of_difference(hi: Scalar, lo: Scalar, d: i128) -> (r: Scalar)
    requires
        -0x1_0000_0000 <= d <= 0x1_0000_0000,
    ensures
        r == ratio(hi - lo, d as int),
{
    let difference: i128 = hi as i128 - lo as i128;
    if d != 0 {
        narrow(quotient_wide(product_wide(difference, 65_536), d))
    } else if difference > 0 {
        i32::MAX
    } else if difference < 0 {
        i32::MIN
    } else {
        0
    }
}

/// The fixed-point ratio of `a` to `b`. A zero divisor gives the end of the
/// range on the side of the dividend, and zero over zero is zero.
pub fn divide(a: Scalar, b: Scalar) -> (r: Scalar)
    ensures
        r == ratio(a as int, b as int),
{
    ratio_of_difference(a, 0, b as i128)
}

/// Interpolates linearly between `min` and `max`. `t` is not restricted:
/// outside `[0, ONE]` the result extrapolates.
pub fn lerp(min: Scalar, max: Scalar, t: Scalar) -> (r: Scalar)
    ensures
        r == lerp_spec(min as int, max as int, t as int),
        t == 0 ==> r == min,
        t == ONE ==> r == max,
{
    let a: i128 = product_wide(65_536 - t as i128, min as i128);
    let b: i128 = product_wide(t as i128, max as i128);
    assert(t == 0 ==> a + b == 65_536 * min) by (nonlinear_arith)
        requires
            a == (65_536 - t) * min,
            b == t * max,
    ;
    assert(t == 65_536 ==> a + b == 65_536 * max) by (nonlinear_arith)
        requires
            a == (65_536 - t) * min,
            b == t * max,
    ;
    narrow(quotient_wide(a + b, 65_536))
}

/// Carries `value` from `[from_min, from_max]` over to `[to_min, to_max]`,
/// extrapolating outside the source interval. A source interval of no width
/// is accepted: the fraction across it is the end of the range on the side on
/// which `value` lies, and zero at the interval itself.
pub fn remap(value: Scalar, from_min: Scalar, from_max: Scalar, to_min: Scalar, to_max: Scalar) -> (r: Scalar)
    ensures
        r == remap_spec(value as int, from_min as int, from_max as int, to_min as int, to_max as int),
{
    let t: Scalar = ratio_of_difference(value, from_min, from_max as i128 - from_min as i128);
    lerp(to_min, to_max, t)
}

/// Carries `value` from `[from_min, from_max]` over to `[to_min, to_max]` as
/// [`remap`] does, but with the fraction held to the interval from zero to
/// one first: values outside the source interval land on the nearer end of the
/// destination interval. The source interval may run either way and may have
/// no width.
pub fn remap_clamp(value: Scalar, from_min: Scalar, from_max: Scalar, to_min: Scalar, to_max: Scalar) -> (r: Scalar)
    ensures
        r == remap_clamp_spec(value as int, from_min as int, from_max as int, to_min as int, to_max as int),
        from_min <= from_max && value <= from_min ==> r == to_min,
        from_min <= from_max && from_min < value && from_max <= value ==> r == to_max,
        from_max < from_min && from_min <= value ==> r == to_min,
        from_max < from_min && value <= from_max ==> r == to_max,
{
    proof {
        lemma_clamped_fraction_ends(value, from_min, from_max);
    }
    let t: Scalar = clamp(
        ratio_of_difference(value, from_min, from_max as i128 - from_min as i128),
        0,
        ONE,
    );
    lerp(to_min, to_max, t)
}

/// Holds `x` to `[min, max]`: `min` if `x <= min`, else `max` if `x >= max`,
/// else `x` itself.
pub fn clamp(x: Scalar, min: Scalar, max: Scalar) -> (r: Scalar)
    ensures
        r == clamp_spec(x as int, min as int, max as int),
{
    if x <= min {
        min
    } else if x >= max {
        max
    } else {
        x
    }
}

/// The square root of `v`, rounded down.
pub(crate) fn integer_sqrt(v: u128) -> (r: u128)
    requires
        v < 0x1_0000_0000_0000_0000_0000_0000,
    ensures
        r == floor_sqrt(v as int),
        is_floor_sqrt(r as int, v as int),
        r < 0x1_0000_0000_0000,
{
    let mut lo: u128 = 0;
    let mut hi: u128 = 0x1_0000_0000_0000;
    while hi - lo > 1
        invariant
            lo < hi <= 0x1_0000_0000_0000,
            lo * lo <= v < hi * hi,
        decreases hi - lo,
    {
        let mid: u128 = lo + (hi - lo) / 2;
        assert(mid * mid <= 0xffff_ffff_ffff * 0xffff_ffff_ffff) by (nonlinear_arith)
            requires
                0 <= mid <= 0xffff_ffff_ffff,
        ;
        if mid * mid <= v {
            lo = mid;
        } else {
            hi = mid;
        }
    }
    proof {
        lemma_floor_sqrt_unique(lo as int, v as int);
    }
    lo
}

} // verus!
