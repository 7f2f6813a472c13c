//! A two-dimensional vector with fixed-point components.

use vstd::prelude::*;
use vstd::std_specs::ops::{AddSpecImpl, DivSpecImpl, MulSpecImpl, SubSpecImpl};
use crate::scalar::{
    divide, floor_sqrt, integer_sqrt, is_floor_sqrt, lemma_floor_sqrt_exists,
    lemma_floor_sqrt_unique, magnitude, multiply, narrow, product, product_wide, quotient, quotient_wide,
    ratio, saturate, Scalar, Wide, ONE,
};

verus! {

/// A vector in the plane. A plain value: any pair of scalars is a vector.
#[derive(Clone, Copy, Debug, PartialEq, Eq, Structural)]
pub struct Vec2 {
    pub x: Scalar,
    pub y: Scalar,
}

/// One times one: the scale of a product of two scalars.
pub const ONE_SQUARED: Wide = 4_294_967_296;

impl Vec2 {
    /// The sum of two vectors, component by component.
    pub open spec fn plus(self, rhs: Vec2) -> Vec2 {
        Vec2 { x: saturate(self.x + rhs.x) as Scalar, y: saturate(self.y + rhs.y) as Scalar }
    }

    /// The difference of two vectors, component by component.
    pub open spec fn minus(self, rhs: Vec2) -> Vec2 {
        Vec2 { x: saturate(self.x - rhs.x) as Scalar, y: saturate(self.y - rhs.y) as Scalar }
    }

    /// The vector with both components multiplied by `factor`.
    pub open spec fn scaled(self, factor: Scalar) -> Vec2 {
        Vec2 {
            x: product(self.x as int, factor as int) as Scalar,
            y: product(self.y as int, factor as int) as Scalar,
        }
    }

    /// The vector with both components divided by `factor`. A zero factor
    /// sends each component to the end of the range on its own side, and
    /// leaves a zero component at zero.
    pub open spec fn divided(self, factor: Scalar) -> Vec2 {
        Vec2 {
            x: ratio(self.x as int, factor as int) as Scalar,
            y: ratio(self.y as int, factor as int) as Scalar,
        }
    }

    /// The vector turned by a quarter of a turn: `(y, -x)`.
    pub open spec fn spec_rot90(self) -> Vec2 {
        Vec2 { x: self.y, y: saturate(-self.x) as Scalar }
    }

    /// The exact sum of the squares of the stored components.
    pub open spec fn norm_squared(self) -> int {
        self.x * self.x + self.y * self.y
    }

    /// The Euclidean norm of the stored components, rounded down. It may
    /// exceed the range of a scalar.
    pub open spec fn norm(self) -> int {
        floor_sqrt(self.norm_squared())
    }

    /// The Euclidean norm at a scale finer by the factor `ONE`, rounded down:
    /// the norm with sixteen more bits after the point.
    pub open spec fn fine_norm(self) -> int {
        floor_sqrt(self.norm_squared() * ONE_SQUARED)
    }

    /// The vector of norm one that points the way `self` does: each component
    /// divided by the norm, which is taken at the finer scale so that short
    /// vectors lose nothing. The zero vector, which points nowhere, is its
    /// own direction.
    pub open spec fn spec_normalized(self) -> Vec2 {
        if self.norm() <= 0 {
            self
        } else {
            Vec2 {
                x: quotient(self.x * ONE_SQUARED, self.fine_norm()) as Scalar,
                y: quotient(self.y * ONE_SQUARED, self.fine_norm()) as Scalar,
            }
        }
    }

    /// The norm, held to the range of a scalar.
    pub open spec fn spec_length(self) -> Scalar {
        saturate(self.norm()) as Scalar
    }

    /// The square of the norm, at the scale of a scalar. It always fits.
    pub open spec fn spec_length_sq(self) -> Wide {
        quotient(self.norm_squared(), ONE as int) as Wide
    }

    /// The exact sum of the squares of the components.
    fn sum_of_squares(self) -> (r: u128)
        ensures
            r == self.norm_squared(),
            r <= 0x8000_0000_0000_0000,
    {
        let xx: i128 = product_wide(self.x as i128, self.x as i128);
        let yy: i128 = product_wide(self.y as i128, self.y as i128);
        assert(0 <= xx <= 0x4000_0000_0000_0000 && 0 <= yy <= 0x4000_0000_0000_0000)
            by (nonlinear_arith)
            requires
                xx == self.x * self.x,
                yy == self.y * self.y,
                -0x8000_0000 <= self.x <= 0x8000_0000,
                -0x8000_0000 <= self.y <= 0x8000_0000,
        ;
        (xx + yy) as u128
    }

    /// The vector of norm one that points the way `self` does. The zero
    /// vector is returned as it is.
    #[verifier::when_used_as_spec(spec_normalized)]
    pub fn normalized(self) -> (r: Vec2)
        ensures
            r == self.spec_normalized(),
            self.x == 0 && self.y == 0 ==> r == self,
            self.x != 0 || self.y != 0 ==> {
                &&& r.x == quotient(self.x * ONE_SQUARED, self.fine_norm())
                &&& r.y == quotient(self.y * ONE_SQUARED, self.fine_norm())
                &&& -ONE <= r.x <= ONE
                &&& -ONE <= r.y <= ONE
            },
    {
        proof {
            lemma_norm_of_zero(self);
        }
        if self.x == 0 && self.y == 0 {
            return self;
        }
        let sum: u128 = self.sum_of_squares();
        let fine: u128 = integer_sqrt(sum * 0x1_0000_0000);
        proof {
            lemma_direction_components(self);
        }
        let nx: i128 = quotient_wide(product_wide(self.x as i128, 0x1_0000_0000), fine as i128);
        let ny: i128 = quotient_wide(product_wide(self.y as i128, 0x1_0000_0000), fine as i128);
        Vec2 { x: nx as Scalar, y: ny as Scalar }
    }

    /// The vector turned by a quarter of a turn: `(y, -x)`.
    #[verifier::when_used_as_spec(spec_rot90)]
    pub fn rot90(self) -> (r: Vec2)
        ensures
            r == self.spec_rot90(),
    {
        vec2(self.y, narrow(-(self.x as i128)))
    }

    /// The Euclidean length, rounded down. The squares are summed exactly,
    /// so nothing overflows on the way; only a length beyond the range of a
    /// scalar is held to the top of the range.
    #[verifier::when_used_as_spec(spec_length)]
    pub fn length(self) -> (r: Scalar)
        ensures
            r == self.spec_length(),
            r == saturate(self.norm()),
            r >= 0,
    {
        let sum: u128 = self.sum_of_squares();
        let len: u128 = integer_sqrt(sum);
        narrow(len as i128)
    }

    /// The square of the Euclidean length, rounded down. The result is twice
    /// as wide as a scalar, so that it holds the square of every length and
    /// longer vectors have larger squares.
    #[verifier::when_used_as_spec(spec_length_sq)]
    pub fn length_sq(self) -> (r: Wide)
        ensures
            r == self.spec_length_sq(),
            r == quotient(self.norm_squared(), ONE as int),
            r >= 0,
    {
        let sum: u128 = self.sum_of_squares();
        (sum / 65_536) as Wide
    }
}

/// The norm is zero for the zero vector and for no other.
pub proof fn lemma_norm_of_zero(v: Vec2)
    ensures
        v.norm() == 0 <==> v.x == 0 && v.y == 0,
        v.norm() >= 0,
        v.norm_squared() >= 0,
{
    assert(v.norm_squared() >= 0) by (nonlinear_arith)
        requires
            v.norm_squared() == v.x * v.x + v.y * v.y,
    ;
    lemma_floor_sqrt_exists(v.norm_squared());
    if v.x == 0 && v.y == 0 {
        assert(v.norm_squared() == 0);
        lemma_floor_sqrt_unique(0, 0);
    } else {
        assert(v.norm_squared() >= 1) by (nonlinear_arith)
            requires
                v.norm_squared() == v.x * v.x + v.y * v.y,
                v.x != 0 || v.y != 0,
        ;
        let r = v.norm();
        assert(r == 0 ==> (r + 1) * (r + 1) == 1) by (nonlinear_arith);
    }
}

/// A vector with the larger sum of squares has the larger squared length.
pub proof fn lemma_length_sq_orders(a: Vec2, b: Vec2)
    requires
        a.norm_squared() <= b.norm_squared(),
    ensures
        a.length_sq() <= b.length_sq(),
{
    lemma_norm_of_zero(a);
    lemma_norm_of_zero(b);
    lemma_length_sq_fits(a);
    lemma_length_sq_fits(b);
}

/// The squared length of any vector fits in the wide type.
pub proof fn lemma_length_sq_fits(v: Vec2)
    ensures
        0 <= quotient(v.norm_squared(), ONE as int) <= 0x8000_0000_0000,
        v.length_sq() == quotient(v.norm_squared(), ONE as int),
{
    assert(0 <= v.norm_squared() <= 0x8000_0000_0000_0000) by (nonlinear_arith)
        requires
            v.norm_squared() == v.x * v.x + v.y * v.y,
            -0x8000_0000 <= v.x <= 0x8000_0000,
            -0x8000_0000 <= v.y <= 0x8000_0000,
    ;
}

/// For a vector that is not zero, the norm at the finer scale is at least
/// one, and each component divided by it lies between minus one and one, so
/// that the components of the direction are the quotients themselves.
pub proof fn lemma_direction_components(v: Vec2)
    requires
        v.x != 0 || v.y != 0,
    ensures
        is_floor_sqrt(v.fine_norm(), v.norm_squared() * ONE_SQUARED),
        v.fine_norm() >= ONE,
        magnitude(v.x as int) * ONE <= v.fine_norm(),
        magnitude(v.y as int) * ONE <= v.fine_norm(),
        -ONE <= quotient(v.x * ONE_SQUARED, v.fine_norm()) <= ONE,
        -ONE <= quotient(v.y * ONE_SQUARED, v.fine_norm()) <= ONE,
        v.normalized().x == quotient(v.x * ONE_SQUARED, v.fine_norm()),
        v.normalized().y == quotient(v.y * ONE_SQUARED, v.fine_norm()),
{
    lemma_norm_of_zero(v);
    let s = v.norm_squared();
    assert(s >= 1) by (nonlinear_arith)
        requires
            s == v.x * v.x + v.y * v.y,
            v.x != 0 || v.y != 0,
    ;
    let w = s * ONE_SQUARED;
    lemma_floor_sqrt_exists(w);
    let root = v.fine_norm();
    let one = ONE as int;
    assert(root >= one) by (nonlinear_arith)
        requires
            root >= 0,
            w < (root + 1) * (root + 1),
            w >= one * one,
            one == 65536,
    ;
    lemma_component_below_norm(v.x as int, v.y as int, root);
    lemma_component_below_norm(v.y as int, v.x as int, root);
}

/// A component, at the finer scale, is no larger than the norm taken there,
/// and its quotient by that norm lies between minus one and one.
proof fn lemma_component_below_norm(x: int, y: int, root: int)
    requires
        root >= ONE,
        is_floor_sqrt(root, (x * x + y * y) * ONE_SQUARED),
    ensures
        magnitude(x) * ONE <= root,
        -ONE <= quotient(x * ONE_SQUARED, root) <= ONE,
{
    let a = magnitude(x);
    let one = ONE as int;
    assert((a * one) * (a * one) <= (x * x + y * y) * 4294967296) by (nonlinear_arith)
        requires
            a == x || a == -x,
            one == 65536,
    ;
    assert(a * one <= root) by (nonlinear_arith)
        requires
            a * one >= 0,
            root >= 0,
            (a * one) * (a * one) < (root + 1) * (root + 1),
    ;
    let t = a * 4294967296;
    assert(0 <= t <= root * one) by (nonlinear_arith)
        requires
            t == a * 4294967296,
            0 <= a,
            a * one <= root,
            one == 65536,
    ;
    assert(0 <= t / root <= one) by (nonlinear_arith)
        requires
            0 <= t <= root * one,
            root > 0,
    ;
    if x >= 0 {
        assert(x * ONE_SQUARED == t);
    } else {
        assert(-(x * ONE_SQUARED) == t);
    }
}

impl Default for Vec2 {
    /// The zero vector.
    fn default() -> (r: Vec2)
        ensures
            r == (Vec2 { x: 0, y: 0 }),
    {
        Vec2 { x: 0, y: 0 }
    }
}

impl core::ops::AddAssign for Vec2 {
    fn add_assign(&mut self, other: Vec2)
        ensures
            *final(self) == old(self).plus(other),
    {
        *self = Vec2 {
            x: narrow(self.x as i128 + other.x as i128),
            y: narrow(self.y as i128 + other.y as i128),
        };
    }
}

impl core::ops::Add for Vec2 {
    type Output = Vec2;

    fn add(self, rhs: Vec2) -> (r: Vec2)
        ensures
            r == self.plus(rhs),
    {
        Vec2 {
            x: narrow(self.x as i128 + rhs.x as i128),
            y: narrow(self.y as i128 + rhs.y as i128),
        }
    }
}

impl AddSpecImpl for Vec2 {
    open spec fn obeys_add_spec() -> bool {
        true
    }

    open spec fn add_req(self, rhs: Vec2) -> bool {
        true
    }

    open spec fn add_spec(self, rhs: Vec2) -> Vec2 {
        self.plus(rhs)
    }
}

impl core::ops::Sub for Vec2 {
    type Output = Vec2;

    fn sub(self, rhs: Vec2) -> (r: Vec2)
        ensures
            r == self.minus(rhs),
    {
        Vec2 {
            x: narrow(self.x as i128 - rhs.x as i128),
            y: narrow(self.y as i128 - rhs.y as i128),
        }
    }
}

impl SubSpecImpl for Vec2 {
    open spec fn obeys_sub_spec() -> bool {
        true
    }

    open spec fn sub_req(self, rhs: Vec2) -> bool {
        true
    }

    open spec fn sub_spec(self, rhs: Vec2) -> Vec2 {
        self.minus(rhs)
    }
}

impl core::ops::Mul<Scalar> for Vec2 {
    type Output = Vec2;

    fn mul(self, factor: Scalar) -> (r: Vec2)
        ensures
            r == self.scaled(factor),
    {
        Vec2 { x: multiply(self.x, factor), y: multiply(self.y, factor) }
    }
}

impl MulSpecImpl<Scalar> for Vec2 {
    open spec fn obeys_mul_spec() -> bool {
        true
    }

    open spec fn mul_req(self, factor: Scalar) -> bool {
        true
    }

    open spec fn mul_spec(self, factor: Scalar) -> Vec2 {
        self.scaled(factor)
    }
}

impl core::ops::Mul<Vec2> for Scalar {
    type Output = Vec2;

    fn mul(self, vec: Vec2) -> (r: Vec2)
        ensures
            r == vec.scaled(self),
    {
        Vec2 { x: multiply(vec.x, self), y: multiply(vec.y, self) }
    }
}

impl MulSpecImpl<Vec2> for Scalar {
    open spec fn obeys_mul_spec() -> bool {
        true
    }

    open spec fn mul_req(self, vec: Vec2) -> bool {
        true
    }

    open spec fn mul_spec(self, vec: Vec2) -> Vec2 {
        vec.scaled(self)
    }
}

impl core::ops::Div<Scalar> for Vec2 {
    type Output = Vec2;

    fn div(self, factor: Scalar) -> (r: Vec2)
        ensures
            r == self.divided(factor),
    {
        Vec2 { x: divide(self.x, factor), y: divide(self.y, factor) }
    }
}

impl DivSpecImpl<Scalar> for Vec2 {
    open spec fn obeys_div_spec() -> bool {
        true
    }

    open spec fn div_req(self, factor: Scalar) -> bool {
        true
    }

    open spec fn div_spec(self, factor: Scalar) -> Vec2 {
        self.divided(factor)
    }
}

/// The square of a rounded-down quotient, scaled back up by the divisor,
/// falls short of the square of the dividend by less than twice the dividend
/// times the divisor.
proof fn lemma_quotient_square(t: int, len: int)
    requires
        t >= 0,
        len >= 1,
    ensures
        0 <= t / len,
        ((t / len) * len) * ((t / len) * len) <= t * t,
        ((t / len) * len) * ((t / len) * len) >= t * t - 2 * ((len - 1) * t),
{
    let p = t / len;
    let r = t % len;
    assert(t == len * p + r && 0 <= r <= len - 1 && p >= 0) by (nonlinear_arith)
        requires
            t >= 0,
            len >= 1,
            p == t / len,
            r == t % len,
    ;
    let u = p * len;
    assert(u == t - r) by (nonlinear_arith)
        requires
            t == len * p + r,
            u == p * len,
    ;
    assert(u * u <= t * t) by (nonlinear_arith)
        requires
            u == t - r,
            0 <= r <= t,
    ;
    assert(u * u >= t * t - 2 * ((len - 1) * t)) by (nonlinear_arith)
        requires
            u == t - r,
            0 <= r <= len - 1,
            t >= 0,
    ;
}

/// The direction of every vector that is not zero is one long, to within
/// rounding: its norm lies between `ONE - 2` and `ONE`, and so does its
/// length.
pub proof fn lemma_normalized_length(v: Vec2)
    requires
        v.norm() > 0,
    ensures
        ONE - 2 <= v.normalized().norm() <= ONE,
        ONE - 2 <= v.normalized().length() <= ONE,
{
    lemma_norm_of_zero(v);
    lemma_direction_components(v);
    let root = v.fine_norm();
    let n = v.normalized();
    let a = magnitude(v.x as int);
    let b = magnitude(v.y as int);
    let s: int = ONE as int;
    let t: int = ONE_SQUARED as int;
    let w = v.norm_squared() * t;
    let p = (a * t) / root;
    let q = (b * t) / root;
    lemma_quotient_square(a * t, root);
    lemma_quotient_square(b * t, root);
    assert(n.x == p || n.x == -p);
    assert(n.y == q || n.y == -q);
    let n2 = n.norm_squared();
    assert(n2 == p * p + q * q && n2 >= 0) by (nonlinear_arith)
        requires
            n2 == n.x * n.x + n.y * n.y,
            n.x == p || n.x == -p,
            n.y == q || n.y == -q,
    ;
    let rr = root * root;
    assert(rr >= 1) by (nonlinear_arith)
        requires
            root >= 1,
            rr == root * root,
    ;
    let u = (p * root) * (p * root) + (q * root) * (q * root);
    assert(u == n2 * rr) by (nonlinear_arith)
        requires
            u == (p * root) * (p * root) + (q * root) * (q * root),
            n2 == p * p + q * q,
            rr == root * root,
    ;
    assert((a * t) * (a * t) + (b * t) * (b * t) == t * w) by (nonlinear_arith)
        requires
            w == (v.x * v.x + v.y * v.y) * t,
            a == v.x || a == -v.x,
            b == v.y || b == -v.y,
    ;
    assert(t * w < (s * (root + 1)) * (s * (root + 1))) by (nonlinear_arith)
        requires
            w < (root + 1) * (root + 1),
            t == s * s,
            s > 0,
    ;
    assert(t * w >= t * rr) by (nonlinear_arith)
        requires
            w >= rr,
            t > 0,
    ;
    let e = (a + b) * s;
    assert(e * e <= 2 * w) by (nonlinear_arith)
        requires
            e == (a + b) * s,
            w == (v.x * v.x + v.y * v.y) * t,
            a == v.x || a == -v.x,
            b == v.y || b == -v.y,
            t == s * s,
    ;
    let c = (root - 1) * e;
    let f = (root - 1) * (root + 1);
    assert(c * c <= 2 * (f * f)) by (nonlinear_arith)
        requires
            c == (root - 1) * e,
            f == (root - 1) * (root + 1),
            e * e <= 2 * ((root + 1) * (root + 1)),
    ;
    assert(0 <= f < rr) by (nonlinear_arith)
        requires
            f == (root - 1) * (root + 1),
            rr == root * root,
            root >= 1,
    ;
    assert(f * f <= rr * rr) by (nonlinear_arith)
        requires
            0 <= f < rr,
    ;
    assert(c >= 0) by (nonlinear_arith)
        requires
            c == (root - 1) * e,
            e == (a + b) * s,
            root >= 1,
            a >= 0,
            b >= 0,
            s > 0,
    ;
    assert(2 * c <= 3 * rr) by (nonlinear_arith)
        requires
            c >= 0,
            rr >= 1,
            c * c <= 2 * (rr * rr),
    ;
    assert((root - 1) * (a * t) + (root - 1) * (b * t) == c * s) by (nonlinear_arith)
        requires
            c == (root - 1) * e,
            e == (a + b) * s,
            t == s * s,
    ;
    assert(u >= (t - 3 * s) * rr) by (nonlinear_arith)
        requires
            u >= t * rr - 2 * ((root - 1) * (a * t)) - 2 * ((root - 1) * (b * t)),
            (root - 1) * (a * t) + (root - 1) * (b * t) == c * s,
            2 * c <= 3 * rr,
            s > 0,
    ;
    lemma_floor_sqrt_exists(n2);
    let m = n.norm();
    assert(m * root < s * (root + 1)) by (nonlinear_arith)
        requires
            m >= 0,
            root >= 1,
            s > 0,
            m * m <= n2,
            rr == root * root,
            n2 * rr < (s * (root + 1)) * (s * (root + 1)),
    ;
    assert(m <= s) by (nonlinear_arith)
        requires
            m * root < s * (root + 1),
            root >= s,
            s > 0,
            m >= 0,
    ;
    assert(n2 >= t - 3 * s) by (nonlinear_arith)
        requires
            n2 * rr >= (t - 3 * s) * rr,
            rr >= 1,
    ;
    assert(m >= s - 2) by (nonlinear_arith)
        requires
            m >= 0,
            n2 < (m + 1) * (m + 1),
            n2 >= t - 3 * s,
            s == 65536,
            t == 4294967296,
    ;
}

/// Two quarter turns negate a vector, and four bring it back to where it
/// was. (A component at the very bottom of the range has no negative, which
/// leaves such vectors out.)
pub proof fn lemma_four_quarter_turns(v: Vec2)
    requires
        v.x != Scalar::MIN,
        v.y != Scalar::MIN,
    ensures
        v.rot90().rot90() == (Vec2 { x: (-v.x) as Scalar, y: (-v.y) as Scalar }),
        v.rot90().rot90().rot90().rot90() == v,
{
}

/// The vector with the components `x` and `y`.
pub fn vec2(x: Scalar, y: Scalar) -> (r: Vec2)
    ensures
        r == (Vec2 { x, y }),
{
    Vec2 { x, y }
}

} // verus!
