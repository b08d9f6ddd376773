//! The engine-wide fixed-point scalar: 16 integer bits, 16 fractional bits.
//!
//! A value is held as its raw bits (`value * 2^16` as an `i32`); every
//! arithmetic operation is carried out by the `fixed` crate's `I16F16`.

use fixed::types::I16F16;
use vstd::prelude::*;

verus! {

/// Number of fractional bits' worth of scale: one unit is `2^16` raw bits.
pub const ONE_BITS: i32 = 65536;

/// Whether `x` is representable as an `i32`.
pub open spec fn fits_i32(x: int) -> bool {
    i32::MIN <= x <= i32::MAX
}

/// Integer division rounding toward zero (Rust's `/` on integers).
pub open spec fn trunc_div(x: int, y: int) -> int {
    if (x < 0) == (y < 0) {
        if x < 0 { (-x) / (-y) } else { x / y }
    } else {
        if x < 0 { -((-x) / y) } else { -(x / (-y)) }
    }
}

/// Raw bits of the product of two `I16F16` values: the exact product,
/// rounded toward negative infinity.
pub open spec fn mul_bits(a: int, b: int) -> int {
    (a * b) / 65536
}

/// Raw bits of the quotient of two `I16F16` values: the exact quotient,
/// rounded toward zero.
pub open spec fn div_bits(a: int, b: int) -> int {
    trunc_div(a * 65536, b)
}

/// `I16F16 + I16F16` (`fixed`'s `Add`): adds the raw bits; panics on
/// overflow when debug assertions are on, so the sum must fit.
#[verifier::external_body]
fn fixed_add(a: i32, b: i32) -> (r: i32)
    requires
        fits_i32(a + b),
    ensures
        r == a + b,
{
    (I16F16::from_bits(a) + I16F16::from_bits(b)).to_bits()
}

/// `I16F16 - I16F16` (`fixed`'s `Sub`): subtracts the raw bits; panics on
/// overflow when debug assertions are on, so the difference must fit.
#[verifier::external_body]
fn fixed_sub(a: i32, b: i32) -> (r: i32)
    requires
        fits_i32(a - b),
    ensures
        r == a - b,
{
    (I16F16::from_bits(a) - I16F16::from_bits(b)).to_bits()
}

/// `I16F16 * I16F16` (`fixed`'s `Mul`): widens to `i64`, multiplies by the
/// other operand shifted left by 16 and keeps the upper 32 bits, i.e. the
/// product rounded toward negative infinity. The debug assertion fires
/// exactly when that result does not fit an `i32`.
#[verifier::external_body]
fn fixed_mul(a: i32, b: i32) -> (r: i32)
    requires
        fits_i32(mul_bits(a as int, b as int)),
    ensures
        r == mul_bits(a as int, b as int),
{
    (I16F16::from_bits(a) * I16F16::from_bits(b)).to_bits()
}

/// `I16F16 / I16F16` (`fixed`'s `Div`): divides `a << 16` by `b` in `i64`,
/// rounding toward zero. Panics on a zero divisor, and (debug assertions)
/// when the quotient does not fit an `i32`.
#[verifier::external_body]
fn fixed_div(a: i32, b: i32) -> (r: i32)
    requires
        b != 0,
        fits_i32(div_bits(a as int, b as int)),
    ensures
        r == div_bits(a as int, b as int),
{
    (I16F16::from_bits(a) / I16F16::from_bits(b)).to_bits()
}

/// `I16F16::from_num` on an `i32`: the integer scaled by `2^16`; panics
/// (debug assertions) when that does not fit.
#[verifier::external_body]
fn fixed_from_int(n: i32) -> (r: i32)
    requires
        -32768 <= n <= 32767,
    ensures
        r == n * 65536,
{
    I16F16::from_num(n).to_bits()
}

/// A fixed-point number with 16 integer and 16 fractional bits, held as its
/// raw bits. Its value is `bits / 2^16`.
#[derive(Clone, Copy, PartialEq, Eq, Structural, PartialOrd, Ord, Hash, Debug, Default)]
pub struct Fx {
    pub bits: i32,
}

impl Fx {
    /// Zero.
    pub fn zero() -> (r: Fx)
        ensures
            r.bits == 0,
    {
        Fx { bits: 0 }
    }

    /// The value whose raw bits are `bits`.
    pub fn from_bits(bits: i32) -> (r: Fx)
        ensures
            r.bits == bits,
    {
        Fx { bits }
    }

    /// The raw bits of this value.
    pub fn to_bits(self) -> (r: i32)
        ensures
            r == self.bits,
    {
        self.bits
    }

    /// The integer `n` as a fixed-point value.
    pub fn from_num(n: i32) -> (r: Fx)
        requires
            -32768 <= n <= 32767,
        ensures
            r.bits == n * 65536,
    {
        Fx { bits: fixed_from_int(n) }
    }

    /// Sum.
    pub fn add(self, o: Fx) -> (r: Fx)
        requires
            fits_i32(self.bits + o.bits),
        ensures
            r.bits == self.bits + o.bits,
    {
        Fx { bits: fixed_add(self.bits, o.bits) }
    }

    /// Difference.
    pub fn sub(self, o: Fx) -> (r: Fx)
        requires
            fits_i32(self.bits - o.bits),
        ensures
            r.bits == self.bits - o.bits,
    {
        Fx { bits: fixed_sub(self.bits, o.bits) }
    }

    /// Product, rounded toward negative infinity.
    pub fn mul(self, o: Fx) -> (r: Fx)
        requires
            fits_i32(mul_bits(self.bits as int, o.bits as int)),
        ensures
            r.bits == mul_bits(self.bits as int, o.bits as int),
    {
        Fx { bits: fixed_mul(self.bits, o.bits) }
    }

    /// Quotient, rounded toward zero.
    pub fn div(self, o: Fx) -> (r: Fx)
        requires
            o.bits != 0,
            fits_i32(div_bits(self.bits as int, o.bits as int)),
        ensures
            r.bits == div_bits(self.bits as int, o.bits as int),
    {
        Fx { bits: fixed_div(self.bits, o.bits) }
    }
}

} // verus!
