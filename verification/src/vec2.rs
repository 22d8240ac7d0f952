//! Plane vectors with exact `i64` coordinates.

use vstd::prelude::*;

verus! {

use crate::coord_finite;
use crate::math::sqrt_floor;

#[derive(Clone, Copy, PartialEq, Eq, Structural, Debug)]
pub struct Vec2 {
    pub x: i64,
    pub y: i64,
}

impl Vec2 {
    /// Both coordinates lie inside the world range.
    pub open spec fn finite(self) -> bool {
        coord_finite(self.x) && coord_finite(self.y)
    }

    /// The squared Euclidean length, as a mathematical integer.
    pub open spec fn norm_sq(self) -> int {
        self.x * self.x + self.y * self.y
    }

    /// The integer (floor) Euclidean length.
    pub open spec fn len_floor(self) -> int {
        sqrt_floor(self.norm_sq() as nat) as int
    }

    pub fn zero() -> (r: Vec2)
        ensures
            r == (Vec2 { x: 0, y: 0 }),
    {
        Vec2 { x: 0, y: 0 }
    }

    pub fn is_finite(&self) -> (r: bool)
        ensures
            r == self.finite(),
    {
        -crate::MAX_COORD <= self.x && self.x <= crate::MAX_COORD && -crate::MAX_COORD <= self.y
            && self.y <= crate::MAX_COORD
    }

    /// Floor of the Euclidean length of a finite vector.
    pub fn length_floor(&self) -> (l: u64)
        requires
            self.finite(),
        ensures
            l == self.len_floor(),
            l * l <= self.norm_sq() < (l + 1) * (l + 1),
    {
        proof {
            crate::math::lemma_square_bounds(self.x as int, crate::MAX_COORD as int);
            crate::math::lemma_square_bounds(self.y as int, crate::MAX_COORD as int);
        }
        let xx = (self.x as i128) * (self.x as i128);
        let yy = (self.y as i128) * (self.y as i128);
        let l = crate::math::isqrt64((xx + yy) as u64);
        proof {
            crate::math::lemma_sqrt_floor_bounds(self.norm_sq() as nat);
        }
        l
    }
}

} // verus!
