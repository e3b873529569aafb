//! Two-dimensional integer vector.

use vstd::prelude::*;

verus! {

/// A point or displacement on the integer pixel grid.
#[derive(Debug, Copy, Clone, PartialEq, Eq, Structural)]
pub struct IVec2 {
    pub x: i64,
    pub y: i64,
}

impl IVec2 {
    /// The vector with the given components.
    pub fn new(x: i64, y: i64) -> (v: IVec2)
        ensures
            v.x == x,
            v.y == y,
    {
        IVec2 { x, y }
    }

    /// The origin.
    pub fn zero() -> (v: IVec2)
        ensures
            v.x == 0,
            v.y == 0,
    {
        IVec2 { x: 0, y: 0 }
    }

    /// Componentwise sum.
    pub fn add(self, other: IVec2) -> (v: IVec2)
        requires
            i64::MIN <= self.x + other.x <= i64::MAX,
            i64::MIN <= self.y + other.y <= i64::MAX,
        ensures
            v.x == self.x + other.x,
            v.y == self.y + other.y,
    {
        IVec2 { x: self.x + other.x, y: self.y + other.y }
    }

    /// Componentwise difference.
    pub fn sub(self, other: IVec2) -> (v: IVec2)
        requires
            i64::MIN <= self.x - other.x <= i64::MAX,
            i64::MIN <= self.y - other.y <= i64::MAX,
        ensures
            v.x == self.x - other.x,
            v.y == self.y - other.y,
    {
        IVec2 { x: self.x - other.x, y: self.y - other.y }
    }

    /// Both components scaled by an integer.
    pub fn mul(self, scalar: i64) -> (v: IVec2)
        requires
            i64::MIN <= self.x * scalar <= i64::MAX,
            i64::MIN <= self.y * scalar <= i64::MAX,
        ensures
            v.x == self.x * scalar,
            v.y == self.y * scalar,
    {
        IVec2 { x: self.x * scalar, y: self.y * scalar }
    }

    /// Add another vector in place.
    pub fn add_assign(&mut self, rhs: IVec2)
        requires
            i64::MIN <= old(self).x + rhs.x <= i64::MAX,
            i64::MIN <= old(self).y + rhs.y <= i64::MAX,
        ensures
            final(self).x == old(self).x + rhs.x,
            final(self).y == old(self).y + rhs.y,
    {
        self.x = self.x + rhs.x;
        self.y = self.y + rhs.y;
    }
}

} // verus!
