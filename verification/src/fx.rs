//! The fixed-point scalar that all geometric quantities are measured in.
//!
//! A scalar is stored as a signed 64-bit count of `1 / 2^32` units, so the
//! real value of a scalar is `bits / SCALE`.  Addition, subtraction and
//! negation saturate at the ends of the `i64` range; multiplication and
//! division truncate the exact product or quotient toward zero and then
//! saturate.  The square root rounds the exact value down.

use vstd::prelude::*;

verus! {

/// Number of representation units that stand for the real value 1.
pub const SCALE: i64 = 4294967296;

/// A fixed-point scalar: the real value is `bits / SCALE`.
#[derive(Copy, Clone, Debug, PartialEq, Eq, Structural)]
pub struct Fx {
    pub bits: i64,
}

/// Clip an unbounded integer into the `i64` range.
pub open spec fn sat64(x: int) -> int {
    if x > i64::MAX {
        i64::MAX as int
    } else if x < i64::MIN {
        i64::MIN as int
    } else {
        x
    }
}

/// Absolute value of an unbounded integer.
pub open spec fn iabs(x: int) -> int {
    if x >= 0 {
        x
    } else {
        -x
    }
}

/// Quotient of `p / d` truncated toward zero (`d != 0`).
pub open spec fn tdiv(p: int, d: int) -> int {
    if (p >= 0) == (d >= 0) {
        iabs(p) / iabs(d)
    } else {
        -(iabs(p) / iabs(d))
    }
}

/// The bits of the saturating sum of two scalars given by their bits.
pub open spec fn fx_add(a: int, b: int) -> int {
    sat64(a + b)
}

/// The bits of the saturating difference of two scalars given by their bits.
pub open spec fn fx_sub(a: int, b: int) -> int {
    sat64(a - b)
}

/// The bits of the saturating negation of a scalar given by its bits.
pub open spec fn fx_neg(a: int) -> int {
    sat64(-a)
}

/// The bits of the truncating, saturating product of two scalars.
pub open spec fn fx_mul(a: int, b: int) -> int {
    sat64(tdiv(a * b, SCALE as int))
}

/// The bits of the truncating, saturating quotient of two scalars (`b != 0`).
pub open spec fn fx_div(a: int, b: int) -> int {
    sat64(tdiv(a * SCALE, b))
}

/// `r` is the square root of `n`, rounded down to an integer.
pub open spec fn is_floor_sqrt(n: int, r: int) -> bool {
    0 <= r && r * r <= n && n < (r + 1) * (r + 1)
}

/// The square root of `n`, rounded down to an integer.
pub open spec fn sqrt_floor(n: int) -> int {
    choose|r: int| is_floor_sqrt(n, r)
}

/// The rounded-down square root of a nonnegative integer is unique.
pub proof fn lemma_floor_sqrt_unique(n: int, r1: int, r2: int)
    requires
        is_floor_sqrt(n, r1),
        is_floor_sqrt(n, r2),
    ensures
        r1 == r2,
{
    if r1 < r2 {
        assert(r2 * r2 <= n);
        assert((r1 + 1) * (r1 + 1) <= r2 * r2) by (nonlinear_arith)
            requires
                0 <= r1,
                r1 + 1 <= r2,
        ;
    }
    if r2 < r1 {
        assert(r1 * r1 <= n);
        assert((r2 + 1) * (r2 + 1) <= r1 * r1) by (nonlinear_arith)
            requires
                0 <= r2,
                r2 + 1 <= r1,
        ;
    }
}

/// Multiplying by the scalar 0 gives 0.
pub proof fn lemma_fx_mul_zero(x: int)
    ensures
        fx_mul(x, 0) == 0,
        fx_mul(0, x) == 0,
{
    vstd::arithmetic::div_mod::lemma_div_basics(SCALE as int);
    assert(iabs(x * 0) == 0);
    assert(iabs(0 * x) == 0);
}

/// Multiplying by the scalar 1 (whose bits are `SCALE`) keeps the value.
pub proof fn lemma_fx_mul_unit(x: int)
    requires
        i64::MIN <= x <= i64::MAX,
    ensures
        fx_mul(x, SCALE as int) == x,
        fx_mul(SCALE as int, x) == x,
{
    assert(iabs(x * SCALE) == iabs(x) * SCALE && iabs(SCALE * x) == iabs(x) * SCALE
        && ((x * SCALE >= 0) == (x >= 0)) && ((SCALE * x >= 0) == (x >= 0))) by (nonlinear_arith)
        requires
            SCALE == 4294967296i64,
    ;
    assert((SCALE as int * iabs(x)) / (SCALE as int) == iabs(x)) by {
        vstd::arithmetic::div_mod::lemma_div_multiples_vanish(iabs(x), SCALE as int);
    }
    assert(iabs(x) * SCALE == SCALE as int * iabs(x)) by (nonlinear_arith);
}

/// A scalar times itself is nonnegative.
pub proof fn lemma_fx_square_nonneg(x: int)
    ensures
        fx_mul(x, x) >= 0,
{
    assert(x * x >= 0) by (nonlinear_arith);
    assert(iabs(x * x) == x * x);
    vstd::arithmetic::div_mod::lemma_div_pos_is_pos(x * x, SCALE as int);
}

/// Dividing the scalar 0 by any nonzero scalar gives 0.
pub proof fn lemma_fx_div_zero(d: int)
    requires
        d != 0,
    ensures
        fx_div(0, d) == 0,
{
    assert(iabs(0 * SCALE) == 0);
    vstd::arithmetic::div_mod::lemma_div_basics(iabs(d));
}

/// The rounded-down square root of 0 is 0.
pub proof fn lemma_sqrt_floor_zero()
    ensures
        sqrt_floor(0) == 0,
{
    assert(is_floor_sqrt(0, 0));
    lemma_floor_sqrt_unique(0, sqrt_floor(0), 0);
}

/// Every nonnegative integer has a rounded-down square root.
pub proof fn lemma_sqrt_floor_exists(n: int)
    requires
        n >= 0,
    ensures
        is_floor_sqrt(n, sqrt_floor(n)),
    decreases n,
{
    if n == 0 {
        assert(is_floor_sqrt(0, 0));
    } else {
        lemma_sqrt_floor_exists(n - 1);
        let r = sqrt_floor(n - 1);
        assert((r + 1) * (r + 1) < (r + 2) * (r + 2)) by (nonlinear_arith)
            requires
                r >= 0,
        ;
        if (r + 1) * (r + 1) <= n {
            assert(is_floor_sqrt(n, r + 1));
        } else {
            assert(is_floor_sqrt(n, r));
        }
    }
}

/// A positive integer has a positive rounded-down square root.
pub proof fn lemma_sqrt_floor_positive(n: int)
    requires
        n >= 1,
    ensures
        sqrt_floor(n) >= 1,
{
    lemma_sqrt_floor_exists(n);
}

/// Magnitude of a signed 64-bit value as an unsigned one.
pub(crate) fn abs_bits(x: i64) -> (r: u64)
    ensures
        r == iabs(x as int),
{
    if x >= 0 {
        x as u64
    } else if x == i64::MIN {
        9223372036854775808u64
    } else {
        (-x) as u64
    }
}

/// A magnitude with a sign, clipped into the scalar range.
fn from_sign_magnitude(neg: bool, m: u128) -> (r: Fx)
    ensures
        r.bits == sat64(if neg { -(m as int) } else { m as int }),
{
    if neg {
        if m >= 9223372036854775808u128 {
            Fx { bits: i64::MIN }
        } else {
            Fx { bits: -(m as i64) }
        }
    } else {
        if m > 9223372036854775807u128 {
            Fx { bits: i64::MAX }
        } else {
            Fx { bits: m as i64 }
        }
    }
}

impl Fx {
    /// The scalar whose representation is `bits`, that is the real value
    /// `bits / SCALE`.
    pub fn from_bits(bits: i64) -> (r: Fx)
        ensures
            r.bits == bits,
    {
        Fx { bits }
    }

    /// The scalar 0.
    pub fn zero() -> (r: Fx)
        ensures
            r.bits == 0,
    {
        Fx { bits: 0 }
    }

    /// The scalar 1.
    pub fn one() -> (r: Fx)
        ensures
            r.bits == SCALE,
    {
        Fx { bits: SCALE }
    }

    /// Saturating sum.
    pub fn plus(self, o: Fx) -> (r: Fx)
        ensures
            r.bits == fx_add(self.bits as int, o.bits as int),
    {
        if let Some(s) = self.bits.checked_add(o.bits) {
            Fx { bits: s }
        } else if self.bits > 0 {
            Fx { bits: i64::MAX }
        } else {
            Fx { bits: i64::MIN }
        }
    }

    /// Saturating difference.
    pub fn minus(self, o: Fx) -> (r: Fx)
        ensures
            r.bits == fx_sub(self.bits as int, o.bits as int),
    {
        if let Some(s) = self.bits.checked_sub(o.bits) {
            Fx { bits: s }
        } else if self.bits >= 0 {
            Fx { bits: i64::MAX }
        } else {
            Fx { bits: i64::MIN }
        }
    }

    /// Saturating negation.
    pub fn negate(self) -> (r: Fx)
        ensures
            r.bits == fx_neg(self.bits as int),
    {
        if self.bits == i64::MIN {
            Fx { bits: i64::MAX }
        } else {
            Fx { bits: -self.bits }
        }
    }

    /// Truncating, saturating product.
    pub fn times(self, o: Fx) -> (r: Fx)
        ensures
            r.bits == fx_mul(self.bits as int, o.bits as int),
    {
        let neg: bool = (self.bits < 0) != (o.bits < 0);
        let ma: u64 = abs_bits(self.bits);
        let mb: u64 = abs_bits(o.bits);
        proof {
            assert((ma as int) * (mb as int) <= u128::MAX) by (nonlinear_arith)
                requires
                    ma <= 9223372036854775808u64,
                    mb <= 9223372036854775808u64,
            ;
        }
        let p: u128 = (ma as u128) * (mb as u128);
        let q: u128 = p / 4294967296u128;
        proof {
            lemma_signed_product(self.bits as int, o.bits as int, ma as int, mb as int, neg);
            assert(iabs(SCALE as int) == SCALE as int);
        }
        from_sign_magnitude(neg, q)
    }

    /// Truncating, saturating quotient.
    pub fn over(self, o: Fx) -> (r: Fx)
        requires
            o.bits != 0,
        ensures
            r.bits == fx_div(self.bits as int, o.bits as int),
    {
        let neg: bool = (self.bits < 0) != (o.bits < 0);
        let ma: u64 = abs_bits(self.bits);
        let mb: u64 = abs_bits(o.bits);
        let p: u128 = (ma as u128) * 4294967296u128;
        let q: u128 = p / (mb as u128);
        proof {
            lemma_signed_product(self.bits as int, SCALE as int, ma as int, SCALE as int, self.bits < 0);
            assert(iabs(self.bits * SCALE) == (ma as int) * (SCALE as int));
            lemma_sign_of_scaled(self.bits as int, o.bits as int, neg);
        }
        from_sign_magnitude(neg, q)
    }

    /// The square root of a nonnegative scalar, rounded down to the
    /// representation's resolution.
    pub fn sqrt(self) -> (r: Fx)
        requires
            self.bits >= 0,
        ensures
            0 <= r.bits,
            r.bits as int == sqrt_floor(self.bits * SCALE),
            is_floor_sqrt(self.bits * SCALE, r.bits as int),
    {
        let n: u128 = (self.bits as u128) * 4294967296u128;
        let root: u64 = isqrt128(n);
        proof {
            assert(root < 281474976710656u64) by (nonlinear_arith)
                requires
                    (root as int) * (root as int) <= n,
                    n <= 9223372036854775807u128 as int * 4294967296,
            ;
        }
        Fx { bits: root as i64 }
    }
}

/// The rounded-down square root of an unsigned 128-bit value (bounded so
/// that the root fits the search range).
pub(crate) fn isqrt128(n: u128) -> (r: u64)
    requires
        n <= 0x80000000000000000000000000000000u128,
    ensures
        is_floor_sqrt(n as int, r as int),
        r as int == sqrt_floor(n as int),
{
    let mut lo: u64 = 0;
    let mut hi: u64 = 18446744073709551615;
    proof {
        assert(n < (hi as int) * (hi as int)) by (nonlinear_arith)
            requires
                n <= 0x80000000000000000000000000000000u128,
                hi == 18446744073709551615u64,
        ;
    }
    while hi - lo > 1
        invariant
            lo < hi <= 18446744073709551615u64,
            (lo as int) * (lo as int) <= n,
            n < (hi as int) * (hi as int),
        decreases hi - lo,
    {
        let mid: u64 = lo + (hi - lo) / 2;
        proof {
            assert((mid as int) * (mid as int) <= u128::MAX) by (nonlinear_arith)
                requires
                    mid <= 18446744073709551615u64,
            ;
        }
        let sq: u128 = (mid as u128) * (mid as u128);
        if sq <= n {
            lo = mid;
        } else {
            hi = mid;
        }
    }
    proof {
        assert(is_floor_sqrt(n as int, lo as int));
        lemma_sqrt_floor_exists(n as int);
        lemma_floor_sqrt_unique(n as int, sqrt_floor(n as int), lo as int);
    }
    lo
}

/// A signed product equals its sign applied to the product of the magnitudes.
proof fn lemma_signed_product(a: int, b: int, ma: int, mb: int, neg: bool)
    requires
        ma == iabs(a),
        mb == iabs(b),
        neg == ((a < 0) != (b < 0)),
    ensures
        a * b == if neg {
            -(ma * mb)
        } else {
            ma * mb
        },
        tdiv(a * b, SCALE as int) == if neg {
            -((ma * mb) / (SCALE as int))
        } else {
            (ma * mb) / (SCALE as int)
        },
{
    assert(a * b == if neg {
        -(ma * mb)
    } else {
        ma * mb
    }) by (nonlinear_arith)
        requires
            ma == iabs(a),
            mb == iabs(b),
            neg == ((a < 0) != (b < 0)),
    ;
    assert(ma * mb >= 0) by (nonlinear_arith)
        requires
            ma >= 0,
            mb >= 0,
    ;
    if neg {
        assert(iabs(a * b) == ma * mb);
    } else {
        assert(iabs(a * b) == ma * mb);
    }
}

/// The sign of a scaled quotient follows the signs of its operands.
proof fn lemma_sign_of_scaled(a: int, b: int, neg: bool)
    requires
        b != 0,
        neg == ((a < 0) != (b < 0)),
    ensures
        tdiv(a * SCALE, b) == if neg {
            -(iabs(a * SCALE) / iabs(b))
        } else {
            iabs(a * SCALE) / iabs(b)
        },
{
    assert(a * SCALE >= 0 <==> a >= 0) by (nonlinear_arith)
        requires
            SCALE == 4294967296i64,
    ;
    if a == 0 {
        assert(iabs(a * SCALE) == 0);
        assert(iabs(a * SCALE) / iabs(b) == 0);
    }
}

} // verus!
