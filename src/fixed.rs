//! Fixed-point arithmetic: scaling a base value by `1 + multiplier` and
//! rounding the product to the nearest integer.

use vstd::arithmetic::div_mod::{lemma_fundamental_div_mod, lemma_fundamental_div_mod_converse, lemma_mod_bound};
use vstd::prelude::*;

verus! {

/// The fixed-point representation of 1.0: values count ten-thousandths.
pub const FIXED_ONE: i64 = 10_000;

/// The integer nearest to `n / d` (for `d > 0`), halves rounded away from zero.
pub open spec fn round_div(n: int, d: int) -> int {
    if n >= 0 {
        (2 * n + d) / (2 * d)
    } else {
        -((-2 * n + d) / (2 * d))
    }
}

/// `x` saturated to the range of `i32`.
pub open spec fn clamp_i32(x: int) -> int {
    if x > i32::MAX {
        i32::MAX as int
    } else if x < i32::MIN {
        i32::MIN as int
    } else {
        x
    }
}

/// The exact value `base * (1 + multiplier)` in fixed point, rounded to the
/// nearest integer (halves away from zero).
pub open spec fn effective(base: int, multiplier: int) -> int {
    round_div(base * (FIXED_ONE + multiplier), FIXED_ONE * FIXED_ONE)
}

/// Rounding a nonnegative quotient from its floor and remainder.
proof fn lemma_round_from_floor(n: int, d: int, q: int, r: int)
    requires
        d > 0,
        0 <= r < d,
        n == q * d + r,
    ensures
        (2 * n + d) / (2 * d) == if 2 * r >= d { q + 1 } else { q },
{
    if 2 * r >= d {
        assert(2 * n + d == (q + 1) * (2 * d) + (2 * r - d)) by (nonlinear_arith)
            requires
                n == q * d + r,
        ;
        lemma_fundamental_div_mod_converse(2 * n + d, 2 * d, q + 1, 2 * r - d);
    } else {
        assert(2 * n + d == q * (2 * d) + (2 * r + d)) by (nonlinear_arith)
            requires
                n == q * d + r,
        ;
        lemma_fundamental_div_mod_converse(2 * n + d, 2 * d, q, 2 * r + d);
    }
}

/// Rounds a nonnegative `n` divided by a positive `d` to the nearest integer,
/// halves upward.
fn round_div_nonneg(n: u128, d: u128) -> (r: u128)
    requires
        d > 0,
        n <= u128::MAX / 2,
    ensures
        r == round_div(n as int, d as int),
{
    let q = n / d;
    let rem = n % d;
    proof {
        lemma_fundamental_div_mod(n as int, d as int);
        lemma_mod_bound(n as int, d as int);
        assert(n == q * d + rem) by (nonlinear_arith)
            requires
                n == d * q + rem,
        ;
        lemma_round_from_floor(n as int, d as int, q as int, rem as int);
    }
    if rem >= d - rem {
        q + 1
    } else {
        q
    }
}

/// Scales `base` by `1 + multiplier` (both fixed-point) and rounds the result
/// to the nearest integer, halves away from zero; a result beyond the range
/// of `i32` saturates to its nearest bound.
pub fn apply_multiplier(base: i64, multiplier: i64) -> (r: i32)
    ensures
        r == clamp_i32(effective(base as int, multiplier as int)),
{
    let factor: i128 = FIXED_ONE as i128 + multiplier as i128;
    assert(-0x8000_0000_0000_0000_0000_0000_0000_0000 < base * factor < 0x8000_0000_0000_0000_0000_0000_0000_0000) by (nonlinear_arith)
        requires
            -0x8000_0000_0000_0000 <= base < 0x8000_0000_0000_0000,
            -0x8000_0000_0000_0000 + 10_000 <= factor < 0x8000_0000_0000_0000 + 10_000,
    ;
    let n: i128 = base as i128 * factor;
    let one = FIXED_ONE as u128;
    assert(one == 10_000);
    let d: u128 = one * one;
    if n >= 0 {
        let m = round_div_nonneg(n as u128, d);
        if m > i32::MAX as u128 {
            i32::MAX
        } else {
            m as i32
        }
    } else {
        let m = round_div_nonneg((-n) as u128, d);
        if m > 0x8000_0000u128 {
            i32::MIN
        } else {
            (-(m as i64)) as i32
        }
    }
}

} // verus!
