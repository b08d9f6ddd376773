//! Two-dimensional fixed-point vectors.

use crate::math::fx::{fits_i32, mul_bits, Fx};
use vstd::prelude::*;

verus! {

/// A 2D fixed-point vector. Used for positions, velocities, and offsets.
#[derive(Clone, Copy, PartialEq, Eq, Structural, Hash, Debug, Default)]
pub struct V2 {
    pub x: Fx,
    pub y: Fx,
}

impl V2 {
    /// The zero vector.
    pub fn zero() -> (r: V2)
        ensures
            r.x.bits == 0,
            r.y.bits == 0,
    {
        V2 { x: Fx::zero(), y: Fx::zero() }
    }

    /// The vector with components `x` and `y`.
    pub fn new(x: Fx, y: Fx) -> (r: V2)
        ensures
            r.x == x,
            r.y == y,
    {
        V2 { x, y }
    }

    /// Component-wise sum.
    pub fn add(self, o: V2) -> (r: V2)
        requires
            fits_i32(self.x.bits + o.x.bits),
            fits_i32(self.y.bits + o.y.bits),
        ensures
            r.x.bits == self.x.bits + o.x.bits,
            r.y.bits == self.y.bits + o.y.bits,
    {
        V2 { x: self.x.add(o.x), y: self.y.add(o.y) }
    }

    /// Component-wise difference.
    pub fn sub(self, o: V2) -> (r: V2)
        requires
            fits_i32(self.x.bits - o.x.bits),
            fits_i32(self.y.bits - o.y.bits),
        ensures
            r.x.bits == self.x.bits - o.x.bits,
            r.y.bits == self.y.bits - o.y.bits,
    {
        V2 { x: self.x.sub(o.x), y: self.y.sub(o.y) }
    }

    /// Scale both components by a fixed-point factor.
    pub fn scale(self, s: Fx) -> (r: V2)
        requires
            fits_i32(mul_bits(self.x.bits as int, s.bits as int)),
            fits_i32(mul_bits(self.y.bits as int, s.bits as int)),
        ensures
            r.x.bits == mul_bits(self.x.bits as int, s.bits as int),
            r.y.bits == mul_bits(self.y.bits as int, s.bits as int),
    {
        V2 { x: self.x.mul(s), y: self.y.mul(s) }
    }
}

} // verus!
