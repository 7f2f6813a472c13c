//! An axis-aligned rectangle, held as its minimum corner and its size.
//!
//! Every other point of a rectangle (its centre, its maximum corner, the
//! points named after its edges and corners) is computed from those two on
//! demand.

use vstd::prelude::*;
use crate::scalar::{narrow, quotient, saturate, Scalar, HALF};
use crate::vec2::{vec2, Vec2};

verus! {

/// The half of `s`, rounded toward zero.
pub open spec fn half(s: int) -> int {
    quotient(s, 2)
}

/// An axis-aligned rectangle. The size is expected to be non-negative, but
/// nothing enforces it: see [`Rect::is_proper`].
#[derive(Clone, Copy, Debug, PartialEq, Eq, Structural)]
pub struct Rect {
    /// The minimum corner.
    pub pos: Vec2,
    /// The width and the height.
    pub size: Vec2,
}

impl Rect {
    /// Whether neither the width nor the height is negative. The points a
    /// rectangle computes lie in it only where this holds.
    pub open spec fn is_proper(self) -> bool {
        self.size.x >= 0 && self.size.y >= 0
    }

    /// Whether `p` lies between the minimum and the maximum corner, edges included.
    pub open spec fn spec_contains(&self, p: Vec2) -> bool {
        &&& self.pos.x <= p.x <= saturate(self.pos.x + self.size.x)
        &&& self.pos.y <= p.y <= saturate(self.pos.y + self.size.y)
    }

    /// The point half the size past the minimum corner.
    pub open spec fn spec_center(&self) -> Vec2 {
        Vec2 {
            x: saturate(self.pos.x + half(self.size.x as int)) as Scalar,
            y: saturate(self.pos.y + half(self.size.y as int)) as Scalar,
        }
    }

    /// The minimum corner.
    pub open spec fn spec_min(&self) -> Vec2 {
        self.pos
    }

    /// The minimum corner plus the size.
    pub open spec fn spec_max(&self) -> Vec2 {
        self.pos.plus(self.size)
    }

    /// The width and the height.
    pub open spec fn spec_size(&self) -> Vec2 {
        self.size
    }

    /// The corner at the minimum of both axes.
    pub open spec fn spec_left_top(&self) -> Vec2 {
        Vec2 { x: self.spec_min().x, y: self.spec_min().y }
    }

    /// The middle of the edge at the minimum of the second axis.
    pub open spec fn spec_center_top(&self) -> Vec2 {
        Vec2 { x: self.spec_center().x, y: self.spec_min().y }
    }

    /// The corner at the maximum of the first axis and the minimum of the second.
    pub open spec fn spec_right_top(&self) -> Vec2 {
        Vec2 { x: self.spec_max().x, y: self.spec_min().y }
    }

    /// The middle of the edge at the minimum of the first axis.
    pub open spec fn spec_left_center(&self) -> Vec2 {
        Vec2 { x: self.spec_min().x, y: self.spec_center().y }
    }

    /// The middle of the edge at the maximum of the first axis.
    pub open spec fn spec_right_center(&self) -> Vec2 {
        Vec2 { x: self.spec_max().x, y: self.spec_center().y }
    }

    /// The corner at the minimum of the first axis and the maximum of the second.
    pub open spec fn spec_left_bottom(&self) -> Vec2 {
        Vec2 { x: self.spec_min().x, y: self.spec_max().y }
    }

    /// The middle of the edge at the maximum of the second axis.
    pub open spec fn spec_center_bottom(&self) -> Vec2 {
        Vec2 { x: self.spec_center().x, y: self.spec_max().y }
    }

    /// The corner at the maximum of both axes.
    pub open spec fn spec_right_bottom(&self) -> Vec2 {
        Vec2 { x: self.spec_max().x, y: self.spec_max().y }
    }

    /// The rectangle with the minimum corner `min` and the size `size`.
    pub fn from_min_size(min: Vec2, size: Vec2) -> (r: Rect)
        ensures
            r == (Rect { pos: min, size }),
    {
        Rect { pos: min, size }
    }

    /// The rectangle of the size `size` around `center`: its minimum corner
    /// lies half the size before the centre.
    pub fn from_center_size(center: Vec2, size: Vec2) -> (r: Rect)
        ensures
            r.size == size,
            r.pos == center.minus(size.scaled(HALF)),
            r.pos.x == saturate(center.x - half(size.x as int)),
            r.pos.y == saturate(center.y - half(size.y as int)),
    {
        Rect { pos: center - size * HALF, size }
    }

    /// Whether `p` lies in the rectangle. All four edges belong to it.
    #[verifier::when_used_as_spec(spec_contains)]
    pub fn contains(&self, p: Vec2) -> (r: bool)
        ensures
            r == self.spec_contains(p),
    {
        self.pos.x <= p.x && p.x <= narrow(self.pos.x as i128 + self.size.x as i128)
            && self.pos.y <= p.y && p.y <= narrow(self.pos.y as i128 + self.size.y as i128)
    }

    /// The point half the size past the minimum corner.
    #[verifier::when_used_as_spec(spec_center)]
    pub fn center(&self) -> (r: Vec2)
        ensures
            r == self.spec_center(),
    {
        Vec2 {
            x: narrow(self.pos.x as i128 + (self.size.x / 2) as i128),
            y: narrow(self.pos.y as i128 + (self.size.y / 2) as i128),
        }
    }

    /// The minimum corner.
    #[verifier::when_used_as_spec(spec_min)]
    pub fn min(&self) -> (r: Vec2)
        ensures
            r == self.spec_min(),
    {
        self.pos
    }

    /// The maximum corner: the minimum corner plus the size.
    #[verifier::when_used_as_spec(spec_max)]
    pub fn max(&self) -> (r: Vec2)
        ensures
            r == self.spec_max(),
    {
        self.pos + self.size
    }

    /// The width and the height.
    #[verifier::when_used_as_spec(spec_size)]
    pub fn size(&self) -> (r: Vec2)
        ensures
            r == self.spec_size(),
    {
        self.size
    }

    /// The corner at the minimum of both axes.
    #[verifier::when_used_as_spec(spec_left_top)]
    pub fn left_top(&self) -> (r: Vec2)
        ensures
            r == self.spec_left_top(),
    {
        vec2(self.min().x, self.min().y)
    }

    /// The middle of the edge at the minimum of the second axis.
    #[verifier::when_used_as_spec(spec_center_top)]
    pub fn center_top(&self) -> (r: Vec2)
        ensures
            r == self.spec_center_top(),
    {
        vec2(self.center().x, self.min().y)
    }

    /// The corner at the maximum of the first axis and the minimum of the second.
    #[verifier::when_used_as_spec(spec_right_top)]
    pub fn right_top(&self) -> (r: Vec2)
        ensures
            r == self.spec_right_top(),
    {
        vec2(self.max().x, self.min().y)
    }

    /// The middle of the edge at the minimum of the first axis.
    #[verifier::when_used_as_spec(spec_left_center)]
    pub fn left_center(&self) -> (r: Vec2)
        ensures
            r == self.spec_left_center(),
    {
        vec2(self.min().x, self.center().y)
    }

    /// The middle of the edge at the maximum of the first axis.
    #[verifier::when_used_as_spec(spec_right_center)]
    pub fn right_center(&self) -> (r: Vec2)
        ensures
            r == self.spec_right_center(),
    {
        vec2(self.max().x, self.center().y)
    }

    /// The corner at the minimum of the first axis and the maximum of the second.
    #[verifier::when_used_as_spec(spec_left_bottom)]
    pub fn left_bottom(&self) -> (r: Vec2)
        ensures
            r == self.spec_left_bottom(),
    {
        vec2(self.min().x, self.max().y)
    }

    /// The middle of the edge at the maximum of the second axis.
    #[verifier::when_used_as_spec(spec_center_bottom)]
    pub fn center_bottom(&self) -> (r: Vec2)
        ensures
            r == self.spec_center_bottom(),
    {
        vec2(self.center().x, self.max().y)
    }

    /// The corner at the maximum of both axes.
    #[verifier::when_used_as_spec(spec_right_bottom)]
    pub fn right_bottom(&self) -> (r: Vec2)
        ensures
            r == self.spec_right_bottom(),
    {
        vec2(self.max().x, self.max().y)
    }
}

impl Default for Rect {
    /// The rectangle of no size at the origin.
    fn default() -> (r: Rect)
        ensures
            r == (Rect { pos: Vec2 { x: 0, y: 0 }, size: Vec2 { x: 0, y: 0 } }),
    {
        Rect { pos: Vec2 { x: 0, y: 0 }, size: Vec2 { x: 0, y: 0 } }
    }
}

/// The centre of a proper rectangle built around a centre is that centre,
/// unless the minimum corner would lie below the range of a scalar.
pub proof fn lemma_center_of_centered(center: Vec2, size: Vec2)
    requires
        size.x >= 0 && size.y >= 0,
        center.x - half(size.x as int) >= Scalar::MIN,
        center.y - half(size.y as int) >= Scalar::MIN,
    ensures
        (Rect { pos: center.minus(size.scaled(HALF)), size }).center() == center,
{
}

/// A proper rectangle contains its own centre.
pub proof fn lemma_center_contained(r: Rect)
    requires
        r.is_proper(),
    ensures
        r.contains(r.center()),
{
}

/// A proper rectangle contains both of its corners and every point named
/// after its edges and corners.
pub proof fn lemma_anchors_contained(r: Rect)
    requires
        r.is_proper(),
    ensures
        r.contains(r.min()),
        r.contains(r.max()),
        r.contains(r.left_top()),
        r.contains(r.center_top()),
        r.contains(r.right_top()),
        r.contains(r.left_center()),
        r.contains(r.right_center()),
        r.contains(r.left_bottom()),
        r.contains(r.center_bottom()),
        r.contains(r.right_bottom()),
{
}

} // verus!
