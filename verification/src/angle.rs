//! Angle normalization.
//!
//! An angle is an ordinary scalar measured in radians.  Because an arc may
//! subtend more than one full turn, normalization reports both the canonical
//! residue in `[0, 2*pi)` and the whole number of revolutions that was
//! subtracted to reach it.  The constants below are the library's fixed-point
//! images of `pi` and `2*pi` (the exact real values rounded down to the
//! representation's resolution); `TAU_BITS == 2 * PI_BITS + 1`, so the signed
//! shortest difference always lands in `[-PI_BITS, PI_BITS]`.

use vstd::prelude::*;
use vstd::arithmetic::div_mod::{lemma_fundamental_div_mod, lemma_fundamental_div_mod_converse,
    lemma_mod_bound};
use crate::fx::{Fx, fx_sub};

verus! {

/// Fixed-point image of `pi`.
pub const PI_BITS: i64 = 13493037704;

/// Fixed-point image of `2 * pi`.
pub const TAU_BITS: i64 = 26986075409;

/// The canonical residue of an angle: its bits reduced into `[0, TAU_BITS)`.
pub open spec fn norm_residue(a: int) -> int {
    a % (TAU_BITS as int)
}

/// The whole number of revolutions subtracted by normalization.
pub open spec fn norm_turns(a: int) -> int {
    a / (TAU_BITS as int)
}

/// The signed shortest angular difference from `s` to `e`, in
/// `[-PI_BITS, PI_BITS]`.
pub open spec fn delta_spec(s: int, e: int) -> int {
    let n = norm_residue(fx_sub(e, s));
    if n > PI_BITS {
        n - TAU_BITS
    } else {
        n
    }
}

/// Reduce an angle into `[0, 2*pi)` and report the number of full revolutions
/// subtracted, so that `residue + turns * 2*pi` is exactly the input.
pub fn norm_angle(ang: Fx) -> (r: (Fx, i64))
    ensures
        0 <= r.0.bits < TAU_BITS,
        r.0.bits + r.1 * TAU_BITS == ang.bits,
        r.0.bits == norm_residue(ang.bits as int),
        r.1 == norm_turns(ang.bits as int),
{
    let m: u64 = if ang.bits >= 0 {
        ang.bits as u64
    } else if ang.bits == i64::MIN {
        9223372036854775808u64
    } else {
        (-ang.bits) as u64
    };
    let rm: u64 = m % 26986075409u64;
    let q: u64 = m / 26986075409u64;
    proof {
        lemma_fundamental_div_mod(m as int, TAU_BITS as int);
        assert(q * 26986075409 <= m);
    }
    let residue: i64;
    let turns: i64;
    if ang.bits >= 0 {
        residue = rm as i64;
        turns = q as i64;
    } else if rm == 0 {
        residue = 0;
        turns = -(q as i64);
    } else {
        residue = 26986075409i64 - rm as i64;
        turns = -(q as i64) - 1;
    }
    proof {
        assert(residue + turns * TAU_BITS == ang.bits);
        lemma_fundamental_div_mod_converse(
            ang.bits as int,
            TAU_BITS as int,
            turns as int,
            residue as int,
        );
    }
    (Fx { bits: residue }, turns)
}

/// The signed shortest angular difference from `start` to `end`, normalized
/// into `[-PI_BITS, PI_BITS]`; two equal angles have difference 0.
pub fn angle_delta(start: Fx, end: Fx) -> (r: Fx)
    ensures
        r.bits == delta_spec(start.bits as int, end.bits as int),
        -PI_BITS <= r.bits <= PI_BITS,
        start.bits == end.bits ==> r.bits == 0,
{
    let d: Fx = end.minus(start);
    let (n, _turns) = norm_angle(d);
    let r: Fx = if n.bits > PI_BITS {
        Fx { bits: n.bits - TAU_BITS }
    } else {
        n
    };
    proof {
        lemma_mod_bound(d.bits as int, TAU_BITS as int);
        if start.bits == end.bits {
            assert(d.bits == 0);
            assert(norm_residue(0) == 0) by {
                lemma_fundamental_div_mod_converse(0, TAU_BITS as int, 0, 0);
            }
        }
    }
    r
}

/// The shortest angular difference lies in `[-PI_BITS, PI_BITS]` for every
/// pair of angles, and is 0 for a pair of equal angles.
pub proof fn lemma_delta_range(s: int, e: int)
    ensures
        -PI_BITS <= delta_spec(s, e) <= PI_BITS,
        s == e ==> delta_spec(s, e) == 0,
{
    lemma_mod_bound(fx_sub(e, s), TAU_BITS as int);
    if s == e {
        assert(fx_sub(e, s) == 0);
        assert(norm_residue(0) == 0) by {
            lemma_fundamental_div_mod_converse(0, TAU_BITS as int, 0, 0);
        }
    }
}

} // verus!
