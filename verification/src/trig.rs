//! Trigonometric evaluation, taken from the `cordic` crate.
//!
//! The values of cosine, sine and the two-argument arc tangent are not
//! computed by this library: each call goes to `cordic` on the same 64-bit
//! fixed-point representation (`fixed::types::I32F32`), and the result is
//! only *named* here, since the value of a CORDIC approximation is a pure
//! function of its argument but has no short closed form.  The verified
//! entry points below restrict each call to arguments on which `cordic`'s
//! arithmetic cannot overflow, and make the one exact case — an angle of
//! zero, a vector on the positive x axis — explicit in verified code.

use vstd::prelude::*;
use crate::fx::{Fx, SCALE, iabs, abs_bits};
use crate::angle::TAU_BITS;

verus! {

/// Fixed-point image of `pi / 2`; exactly half of `PI_BITS`.
pub const HALF_PI_BITS: i64 = 6746518852;

/// The bits that `cordic::cos` returns for an angle with the given bits.
pub uninterp spec fn cos_of(a: int) -> int;

/// The bits that `cordic::sin` returns for an angle with the given bits.
pub uninterp spec fn sin_of(a: int) -> int;

/// The bits that `cordic::atan2` returns for a vector with the given bits.
pub uninterp spec fn atan2_of(y: int, x: int) -> int;

/// Relies on `cordic::cos` on `fixed::types::I32F32`: the result depends on
/// the angle bits alone.  For an angle in `[0, TAU_BITS)` the internal range
/// reduction subtracts `pi` at most four times and the rotation stage works
/// on values of magnitude below 2, so no step overflows.
#[verifier::external_body]
fn cos_raw(a: Fx) -> (r: Fx)
    requires
        0 <= a.bits < TAU_BITS,
    ensures
        r.bits == cos_of(a.bits as int),
{
    let v = fixed::types::I32F32::from_bits(a.bits);
    Fx { bits: cordic::cos(v).to_bits() }
}

/// Relies on `cordic::sin` on `fixed::types::I32F32`: the result depends on
/// the angle bits alone; the argument range is safe as for `cordic::cos`.
#[verifier::external_body]
fn sin_raw(a: Fx) -> (r: Fx)
    requires
        0 <= a.bits < TAU_BITS,
    ensures
        r.bits == sin_of(a.bits as int),
{
    let v = fixed::types::I32F32::from_bits(a.bits);
    Fx { bits: cordic::sin(v).to_bits() }
}

/// Relies on `cordic::atan2` on `fixed::types::I32F32`: the result depends on
/// the two coordinates alone, and a vector on the positive x axis is mapped
/// to exactly zero (the `y == zero`, `x >= zero` branch of its source).  The
/// bound `|y| <= |x| * 2^29` keeps the internal quotient `y / x` below `2^29`,
/// so neither the division nor the rotation stage (whose values stay within a
/// factor of about 1.7 of the quotient) can overflow, and excluding the
/// minimal bit pattern keeps the quadrant negations in range.
#[verifier::external_body]
fn atan2_raw(y: Fx, x: Fx) -> (r: Fx)
    requires
        x.bits != 0,
        x.bits > i64::MIN,
        y.bits > i64::MIN,
        iabs(y.bits as int) <= iabs(x.bits as int) * 536870912,
    ensures
        r.bits == atan2_of(y.bits as int, x.bits as int),
        y.bits == 0 && x.bits > 0 ==> r.bits == 0,
{
    let vy = fixed::types::I32F32::from_bits(y.bits);
    let vx = fixed::types::I32F32::from_bits(x.bits);
    Fx { bits: cordic::atan2(vy, vx).to_bits() }
}

/// The cosine used by the library: exactly 1 at angle 0, `cordic`'s value
/// elsewhere.
pub open spec fn cos_model(a: int) -> int {
    if a == 0 {
        SCALE as int
    } else {
        cos_of(a)
    }
}

/// The sine used by the library: exactly 0 at angle 0, `cordic`'s value
/// elsewhere.
pub open spec fn sin_model(a: int) -> int {
    if a == 0 {
        0
    } else {
        sin_of(a)
    }
}

/// The polar angle used by the library for the direction `(x, y)`.
///
/// The axes are exact: a vector on the positive x axis (including the zero
/// vector) has angle 0, and a vector within `2^-29` of the y axis is snapped
/// to `pi/2` or `-pi/2`, which is below the resolution of the CORDIC
/// approximation used elsewhere.  The minimal bit pattern is treated as its
/// successor so that every magnitude is representable.
pub open spec fn theta_model(y0: int, x0: int) -> int {
    let y = if y0 == i64::MIN { i64::MIN + 1 } else { y0 };
    let x = if x0 == i64::MIN { i64::MIN + 1 } else { x0 };
    if y == 0 && x >= 0 {
        0
    } else if iabs(y) > iabs(x) * 536870912 || x == 0 {
        if y > 0 {
            HALF_PI_BITS as int
        } else {
            -(HALF_PI_BITS as int)
        }
    } else {
        atan2_of(y, x)
    }
}

/// Cosine of an angle already normalized into `[0, TAU_BITS)`.
pub fn cos_fx(a: Fx) -> (r: Fx)
    requires
        0 <= a.bits < TAU_BITS,
    ensures
        r.bits == cos_model(a.bits as int),
{
    if a.bits == 0 {
        Fx { bits: SCALE }
    } else {
        cos_raw(a)
    }
}

/// Sine of an angle already normalized into `[0, TAU_BITS)`.
pub fn sin_fx(a: Fx) -> (r: Fx)
    requires
        0 <= a.bits < TAU_BITS,
    ensures
        r.bits == sin_model(a.bits as int),
{
    if a.bits == 0 {
        Fx { bits: 0 }
    } else {
        sin_raw(a)
    }
}

/// The polar angle of the direction `(x, y)`, following `theta_model`.
pub fn theta_of(y0: Fx, x0: Fx) -> (r: Fx)
    ensures
        r.bits == theta_model(y0.bits as int, x0.bits as int),
{
    let y: Fx = if y0.bits == i64::MIN {
        Fx { bits: i64::MIN + 1 }
    } else {
        y0
    };
    let x: Fx = if x0.bits == i64::MIN {
        Fx { bits: i64::MIN + 1 }
    } else {
        x0
    };
    if y.bits == 0 && x.bits >= 0 {
        Fx { bits: 0 }
    } else {
        let my: u64 = abs_bits(y.bits);
        let mx: u64 = abs_bits(x.bits);
        if (my as u128) > (mx as u128) * 536870912u128 || x.bits == 0 {
            if y.bits > 0 {
                Fx { bits: HALF_PI_BITS }
            } else {
                Fx { bits: -HALF_PI_BITS }
            }
        } else {
            atan2_raw(y, x)
        }
    }
}

} // verus!
