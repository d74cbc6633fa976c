//! Laws relating construction, `add_multiplier`, `sub_multiplier` and
//! `get_stat`, stated over the state model [`StatsView`].

use crate::fixed::{clamp_i32, effective, round_div, FIXED_ONE};
use crate::stats::{fresh, MultiplierView, Stat, StatsView};
use vstd::arithmetic::div_mod::{
    lemma_div_multiples_vanish_quotient, lemma_fundamental_div_mod, lemma_fundamental_div_mod_converse,
    lemma_mod_bound,
};
use vstd::prelude::*;

verus! {

/// A change of a [`StatsView`]: one `add_multiplier` or one `sub_multiplier`.
pub enum StatChange {
    Add(MultiplierView),
    Sub(MultiplierView),
}

impl StatChange {
    /// How much this change moves the accumulated multiplier of `s`.
    pub open spec fn delta(self, s: Stat) -> int {
        match self {
            StatChange::Add(m) => if m.stat == s { m.value } else { 0 },
            StatChange::Sub(m) => if m.stat == s { -m.value } else { 0 },
        }
    }

    /// The state after this change.
    pub open spec fn apply(self, v: StatsView) -> StatsView {
        match self {
            StatChange::Add(m) => v.add(m),
            StatChange::Sub(m) => v.sub(m),
        }
    }
}

/// The state after applying `changes` in order.
pub open spec fn apply_changes(v: StatsView, changes: Seq<StatChange>) -> StatsView
    decreases changes.len(),
{
    if changes.len() == 0 {
        v
    } else {
        changes.last().apply(apply_changes(v, changes.drop_last()))
    }
}

/// The total by which `changes` move the accumulated multiplier of `s`.
pub open spec fn net_change(changes: Seq<StatChange>, s: Stat) -> int
    decreases changes.len(),
{
    if changes.len() == 0 {
        0
    } else {
        net_change(changes.drop_last(), s) + changes.last().delta(s)
    }
}

/// The state after `add_multiplier(m)` called `n` times.
pub open spec fn add_times(v: StatsView, m: MultiplierView, n: nat) -> StatsView
    decreases n,
{
    if n == 0 {
        v
    } else {
        add_times(v, m, (n - 1) as nat).add(m)
    }
}

/// The state after `sub_multiplier(m)` called `n` times.
pub open spec fn sub_times(v: StatsView, m: MultiplierView, n: nat) -> StatsView
    decreases n,
{
    if n == 0 {
        v
    } else {
        sub_times(v, m, (n - 1) as nat).sub(m)
    }
}

/// The multiplier with the same stat and the opposite value.
pub open spec fn negated(m: MultiplierView) -> MultiplierView {
    MultiplierView { stat: m.stat, value: -m.value }
}

/// A fresh instance reports each configured stat as its base value rounded
/// to the nearest integer (halves away from zero, saturated to `i32`).
pub proof fn lemma_fresh_value(base: Map<Stat, int>, s: Stat)
    requires
        base.contains_key(s),
    ensures
        fresh(base).value(s) == clamp_i32(round_div(base[s], FIXED_ONE as int)),
{
    let b = base[s];
    let one = FIXED_ONE as int;
    assert(fresh(base).multiplier(s) == 0);
    assert(b * (one + 0) == one * b) by (nonlinear_arith);
    if b >= 0 {
        lemma_div_multiples_vanish_quotient(one, 2 * b + one, 2 * one);
        assert(one * (2 * b + one) == 2 * (one * b) + one * one) by (nonlinear_arith);
        assert(one * (2 * one) == 2 * (one * one)) by (nonlinear_arith);
    } else {
        lemma_div_multiples_vanish_quotient(one, -2 * b + one, 2 * one);
        assert(one * (-2 * b + one) == -2 * (one * b) + one * one) by (nonlinear_arith);
        assert(one * (2 * one) == 2 * (one * one)) by (nonlinear_arith);
    }
}

/// After one `add_multiplier` with value `P` on a fresh instance, a stat with
/// base value `B` reads `round(B * (1 + P))`.
pub proof fn lemma_single_multiplier(base: Map<Stat, int>, m: MultiplierView)
    requires
        base.contains_key(m.stat),
    ensures
        fresh(base).add(m).value(m.stat) == clamp_i32(
            round_div(base[m.stat] * (FIXED_ONE + m.value), FIXED_ONE * FIXED_ONE),
        ),
{
}

/// Adding `m` `n` times moves the accumulated multiplier of `m`'s stat by
/// `n` times its value, and leaves everything else as it was.
pub proof fn lemma_add_times(v: StatsView, m: MultiplierView, n: nat)
    ensures
        add_times(v, m, n).base == v.base,
        add_times(v, m, n).multiplier(m.stat) == v.multiplier(m.stat) + n * m.value,
        forall|t: Stat| t != m.stat ==> add_times(v, m, n).multiplier(t) == v.multiplier(t),
    decreases n,
{
    if n > 0 {
        lemma_add_times(v, m, (n - 1) as nat);
        assert((n - 1) * m.value + m.value == n * m.value) by (nonlinear_arith);
    }
}

/// Subtracting `m` `n` times moves the accumulated multiplier of `m`'s stat
/// back by `n` times its value, and leaves everything else as it was.
pub proof fn lemma_sub_times(v: StatsView, m: MultiplierView, n: nat)
    ensures
        sub_times(v, m, n).base == v.base,
        sub_times(v, m, n).multiplier(m.stat) == v.multiplier(m.stat) - n * m.value,
        forall|t: Stat| t != m.stat ==> sub_times(v, m, n).multiplier(t) == v.multiplier(t),
    decreases n,
{
    if n > 0 {
        lemma_sub_times(v, m, (n - 1) as nat);
        assert((n - 1) * m.value + m.value == n * m.value) by (nonlinear_arith);
    }
}

/// Adding the same multiplier `N` times on a fresh instance reads as one
/// multiplier of value `N * P`: `round(B * (1 + N * P))`.
pub proof fn lemma_repeated_multiplier(base: Map<Stat, int>, m: MultiplierView, n: nat)
    requires
        base.contains_key(m.stat),
    ensures
        add_times(fresh(base), m, n).value(m.stat) == fresh(base).add(
            MultiplierView { stat: m.stat, value: n * m.value },
        ).value(m.stat),
        add_times(fresh(base), m, n).value(m.stat) == clamp_i32(
            effective(base[m.stat], n * m.value),
        ),
{
    lemma_add_times(fresh(base), m, n);
}

/// `add_multiplier(m)` followed by `sub_multiplier(m)` leaves every stat
/// reading as before.
pub proof fn lemma_add_then_sub(v: StatsView, m: MultiplierView)
    ensures
        v.add(m).sub(m).base == v.base,
        forall|t: Stat| #[trigger] v.add(m).sub(m).multiplier(t) == v.multiplier(t),
        forall|t: Stat| v.base.contains_key(t) ==> #[trigger] v.add(m).sub(m).value(t) == v.value(t),
{
    assert forall|t: Stat| #[trigger] v.add(m).sub(m).multiplier(t) == v.multiplier(t) by {}
}

/// `N` calls of `add_multiplier(m)` followed by `N` calls of
/// `sub_multiplier(m)` leave every stat reading as before.
pub proof fn lemma_add_then_sub_times(v: StatsView, m: MultiplierView, n: nat)
    ensures
        sub_times(add_times(v, m, n), m, n).base == v.base,
        forall|t: Stat| v.base.contains_key(t) ==> #[trigger] sub_times(add_times(v, m, n), m, n).value(t) == v.value(t),
{
    lemma_add_times(v, m, n);
    lemma_sub_times(add_times(v, m, n), m, n);
}

/// Any sequence of adds and subs moves each stat's accumulated multiplier by
/// its net change and leaves the base values alone.
pub proof fn lemma_apply_changes(v: StatsView, changes: Seq<StatChange>)
    ensures
        apply_changes(v, changes).base == v.base,
        forall|t: Stat| #[trigger] apply_changes(v, changes).multiplier(t) == v.multiplier(t) + net_change(changes, t),
    decreases changes.len(),
{
    if changes.len() > 0 {
        let prev = apply_changes(v, changes.drop_last());
        lemma_apply_changes(v, changes.drop_last());
        assert forall|t: Stat| #[trigger] apply_changes(v, changes).multiplier(t) == v.multiplier(t) + net_change(changes, t) by {
            assert(prev.multiplier(t) == v.multiplier(t) + net_change(changes.drop_last(), t));
            match changes.last() {
                StatChange::Add(m) => {},
                StatChange::Sub(m) => {},
            }
        }
    }
}

/// A balanced sequence of adds and subs (one whose net change of every stat
/// is zero) leaves every stat reading as before.
pub proof fn lemma_balanced_changes(v: StatsView, changes: Seq<StatChange>)
    requires
        forall|t: Stat| net_change(changes, t) == 0,
    ensures
        apply_changes(v, changes).base == v.base,
        forall|t: Stat| v.base.contains_key(t) ==> #[trigger] apply_changes(v, changes).value(t) == v.value(t),
{
    lemma_apply_changes(v, changes);
}

/// Adding a negative multiplier is the same as removing the positive one, and
/// the two move the unrounded stat by opposite amounts.
pub proof fn lemma_negative_multiplier(v: StatsView, m: MultiplierView, b: int)
    ensures
        v.add(negated(m)) == v.sub(m),
        b * (FIXED_ONE + negated(m).value) - b * FIXED_ONE == -(b * (FIXED_ONE + m.value) - b * FIXED_ONE),
{
    assert(b * (FIXED_ONE - m.value) - b * FIXED_ONE == -(b * (FIXED_ONE + m.value) - b * FIXED_ONE)) by (nonlinear_arith);
}

/// The rounded value of `x / d` is `k` whenever `x / d` lies strictly within
/// one half of `k`.
proof fn lemma_round_to_nearest(x: int, d: int, k: int)
    requires
        d > 0,
        2 * k * d - d < 2 * x < 2 * k * d + d,
    ensures
        round_div(x, d) == k,
{
    if x >= 0 {
        assert(2 * x + d == k * (2 * d) + (2 * x + d - 2 * k * d)) by (nonlinear_arith);
        lemma_fundamental_div_mod_converse(2 * x + d, 2 * d, k, 2 * x + d - 2 * k * d);
    } else {
        assert(-2 * x + d == (-k) * (2 * d) + (-2 * x + d + 2 * k * d)) by (nonlinear_arith);
        lemma_fundamental_div_mod_converse(-2 * x + d, 2 * d, -k, -2 * x + d + 2 * k * d);
    }
}

/// Shifting an exact value by a whole number `w` shifts its rounding by `w`,
/// unless the value lies exactly halfway between two integers.
proof fn lemma_round_shift(w: int, e: int, d: int)
    requires
        d > 0,
        2 * (e % d) != d,
    ensures
        round_div(w * d + e, d) == w + round_div(e, d),
{
    let q = e / d;
    let r = e % d;
    lemma_fundamental_div_mod(e, d);
    lemma_mod_bound(e, d);
    assert(e == q * d + r) by (nonlinear_arith)
        requires
            e == d * q + r,
    ;
    let k = if 2 * r < d { q } else { q + 1 };
    assert(2 * k * d - d < 2 * e < 2 * k * d + d) by (nonlinear_arith)
        requires
            e == q * d + r,
            0 <= r < d,
            2 * r != d,
            k == if 2 * r < d { q } else { q + 1 },
    ;
    assert(2 * (w + k) * d - d < 2 * (w * d + e) < 2 * (w + k) * d + d) by (nonlinear_arith)
        requires
            2 * k * d - d < 2 * e < 2 * k * d + d,
    ;
    lemma_round_to_nearest(e, d, k);
    lemma_round_to_nearest(w * d + e, d, w + k);
}

/// For a whole base value `W`, multipliers `P` and `-P` move the rounded
/// stat by opposite amounts, unless the exact change `W * P` lies halfway
/// between two integers (both sides then round away from zero).
pub proof fn lemma_mirrored_rounding(w: int, p: int)
    requires
        2 * ((w * FIXED_ONE * p) % (FIXED_ONE * FIXED_ONE)) != FIXED_ONE * FIXED_ONE,
    ensures
        effective(w * FIXED_ONE, -p) - w == -(effective(w * FIXED_ONE, p) - w),
{
    let one = FIXED_ONE as int;
    let d = one * one;
    let e = w * one * p;
    assert(w * one * (one + p) == w * d + e) by (nonlinear_arith)
        requires
            d == one * one,
            e == w * one * p,
    ;
    assert(w * one * (one + -p) == w * d + (-e)) by (nonlinear_arith)
        requires
            d == one * one,
            e == w * one * p,
    ;
    lemma_round_shift(w, e, d);
    lemma_mod_bound(e, d);
    lemma_fundamental_div_mod(e, d);
    let q = e / d;
    let r = e % d;
    if r == 0 {
        assert(-e == (-q) * d + 0) by (nonlinear_arith)
            requires
                e == d * q + r,
                r == 0,
        ;
        lemma_fundamental_div_mod_converse(-e, d, -q, 0);
    } else {
        assert(-e == (-q - 1) * d + (d - r)) by (nonlinear_arith)
            requires
                e == d * q + r,
        ;
        lemma_fundamental_div_mod_converse(-e, d, -q - 1, d - r);
    }
    lemma_round_shift(w, -e, d);
    lemma_round_symmetric(e, d);
}

/// Rounding is symmetric around zero: negating the exact value negates the
/// rounded one.
pub proof fn lemma_round_symmetric(n: int, d: int)
    requires
        d > 0,
    ensures
        round_div(-n, d) == -round_div(n, d),
{
    if n == 0 {
        lemma_fundamental_div_mod_converse(d, 2 * d, 0, d);
    }
}

} // verus!
