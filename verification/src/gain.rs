//! Per-track gain records and the sample-stepped linear ramp that carries a
//! gain from its current value to a new target without discontinuities.

use vstd::prelude::*;

use crate::fixed::GAIN_UNIT;

verus! {

/// One track's gain command, as the control side publishes it: the target
/// gain in thousandths, how many samples the ramp toward it may take, and a
/// generation counter that lets the mixer detect a fresh command without
/// comparing values.
#[derive(Clone, Copy, PartialEq, Eq, Structural, Debug)]
pub struct GainCmd {
    pub target_milli: u32,
    pub ramp_frames: u64,
    pub generation: u64,
}

impl GainCmd {
    /// The record every track starts from after a load: unity gain, no ramp.
    pub fn unity() -> (r: GainCmd)
        ensures
            r == (GainCmd { target_milli: GAIN_UNIT, ramp_frames: 0, generation: 0 }),
    {
        GainCmd { target_milli: GAIN_UNIT, ramp_frames: 0, generation: 0 }
    }
}

/// The increment one ramp step adds to the current gain: the remaining
/// distance divided by the remaining step count, truncated toward zero.
pub open spec fn ramp_step(cg: int, tg: int, rem: int) -> int
    recommends
        rem > 0,
{
    if tg >= cg {
        (tg - cg) / rem
    } else {
        -((cg - tg) / rem)
    }
}

/// The gain after `k` ramp steps from current gain `cg`, target `tg` and
/// `rem` remaining steps; once `rem` is spent the gain stays where it is.
pub open spec fn ramp_after(cg: int, tg: int, rem: int, k: int) -> int
    decreases k,
{
    if k <= 0 || rem <= 0 {
        cg
    } else {
        ramp_after(cg + ramp_step(cg, tg, rem), tg, rem - 1, k - 1)
    }
}

/// Steps remaining after `k` of `rem` have been taken.
pub open spec fn ramp_rem_after(rem: int, k: int) -> int {
    if k <= rem {
        rem - k
    } else {
        0
    }
}

/// One ramp step stays on the segment between the current gain and the target.
proof fn lemma_ramp_step_stays_between(cg: int, tg: int, rem: int)
    requires
        rem > 0,
    ensures
        tg >= cg ==> cg <= cg + ramp_step(cg, tg, rem) <= tg,
        tg < cg ==> tg <= cg + ramp_step(cg, tg, rem) <= cg,
{
    if tg >= cg {
        assert(0 <= (tg - cg) / rem <= tg - cg) by (nonlinear_arith)
            requires
                rem > 0,
                tg >= cg,
        ;
    } else {
        assert(0 <= (cg - tg) / rem <= cg - tg) by (nonlinear_arith)
            requires
                rem > 0,
                tg < cg,
        ;
    }
}

/// Every point of the ramp lies between where it started and its target.
pub proof fn lemma_ramp_in_range(cg: int, tg: int, rem: int, k: int)
    ensures
        tg >= cg ==> cg <= ramp_after(cg, tg, rem, k) <= tg,
        tg < cg ==> tg <= ramp_after(cg, tg, rem, k) <= cg,
    decreases k,
{
    if k <= 0 || rem <= 0 {
    } else {
        lemma_ramp_step_stays_between(cg, tg, rem);
        lemma_ramp_in_range(cg + ramp_step(cg, tg, rem), tg, rem - 1, k - 1);
    }
}

/// After its full step count the ramp sits exactly on the target.
pub proof fn lemma_ramp_reaches_target(cg: int, tg: int, rem: int)
    requires
        rem >= 1,
    ensures
        ramp_after(cg, tg, rem, rem) == tg,
    decreases rem,
{
    if rem == 1 {
        vstd::arithmetic::div_mod::lemma_div_basics(tg - cg);
        vstd::arithmetic::div_mod::lemma_div_basics(cg - tg);
        assert(ramp_step(cg, tg, 1) == tg - cg);
        assert(ramp_after(cg, tg, 1, 1) == ramp_after(cg + (tg - cg), tg, 0, 0));
    } else {
        lemma_ramp_reaches_target(cg + ramp_step(cg, tg, rem), tg, rem - 1);
    }
}

/// Ceiling division on nonnegative arguments.
pub open spec fn ceil_div(a: int, b: int) -> int
    recommends
        a >= 0,
        b > 0,
{
    (a + b - 1) / b
}

/// The distance still to cover shrinks at least proportionally: if the
/// distance is within `rem` times the per-step budget `c`, one step keeps it
/// within `rem - 1` times `c`, and the step itself stays within `c`.
proof fn lemma_ramp_step_budget(cg: int, tg: int, rem: int, c: int)
    requires
        rem > 0,
        c >= 0,
        crate::fixed::abs_of(tg - cg) <= rem * c,
    ensures
        crate::fixed::abs_of(ramp_step(cg, tg, rem)) <= c,
        crate::fixed::abs_of(tg - (cg + ramp_step(cg, tg, rem))) <= (rem - 1) * c,
{
    let a = crate::fixed::abs_of(tg - cg);
    let q = a / rem;
    let s = a % rem;
    vstd::arithmetic::div_mod::lemma_fundamental_div_mod(a, rem);
    vstd::arithmetic::div_mod::lemma_mod_bound(a, rem);
    assert(q >= 0) by (nonlinear_arith)
        requires
            a == rem * q + s,
            0 <= s < rem,
            a >= 0,
            rem > 0,
    ;
    assert(q <= c) by (nonlinear_arith)
        requires
            a == rem * q + s,
            0 <= s,
            a <= rem * c,
            rem > 0,
            c >= 0,
            q >= 0,
    ;
    if q == c {
        assert(s == 0) by (nonlinear_arith)
            requires
                a == rem * q + s,
                q == c,
                a <= rem * c,
                0 <= s,
        ;
    }
    assert(a - q <= (rem - 1) * c) by (nonlinear_arith)
        requires
            a == rem * q + s,
            0 <= s < rem,
            0 <= q <= c,
            q == c ==> s == 0,
    ;
    assert(q <= a) by (nonlinear_arith)
        requires
            a == rem * q + s,
            rem > 0,
            q >= 0,
            s >= 0,
    ;
    if tg >= cg {
        assert(ramp_step(cg, tg, rem) == q);
        assert(crate::fixed::abs_of(tg - (cg + q)) == a - q);
    } else {
        assert(ramp_step(cg, tg, rem) == -q);
        assert(crate::fixed::abs_of(tg - (cg + ramp_step(cg, tg, rem))) == a - q);
    }
}

/// No single ramp step moves the gain by more than the ceiling of the total
/// distance over the total step count: a gain ramped over `rem` samples
/// changes by at most `ceil_div(|tg - cg|, rem)` per sample.
pub proof fn lemma_ramp_step_bound(cg: int, tg: int, rem: int, k: int)
    requires
        rem >= 1,
        0 <= k,
    ensures
        crate::fixed::abs_of(
            ramp_after(cg, tg, rem, k + 1) - ramp_after(cg, tg, rem, k),
        ) <= ceil_div(crate::fixed::abs_of(tg - cg), rem),
    decreases k,
{
    let c = ceil_div(crate::fixed::abs_of(tg - cg), rem);
    assert(crate::fixed::abs_of(tg - cg) <= rem * c) by (nonlinear_arith)
        requires
            rem >= 1,
            c == (crate::fixed::abs_of(tg - cg) + rem - 1) / rem,
            crate::fixed::abs_of(tg - cg) >= 0,
    ;
    lemma_ramp_budget_invariant(cg, tg, rem, k, c);
}

/// Helper for the step bound: carried with budget `c` per step, the ramp
/// keeps its remaining distance within the remaining budget, and each step
/// within `c`.
proof fn lemma_ramp_budget_invariant(cg: int, tg: int, rem: int, k: int, c: int)
    requires
        rem >= 1,
        0 <= k,
        c >= 0,
        crate::fixed::abs_of(tg - cg) <= rem * c,
    ensures
        crate::fixed::abs_of(
            ramp_after(cg, tg, rem, k + 1) - ramp_after(cg, tg, rem, k),
        ) <= c,
    decreases k,
{
    if rem <= 0 {
    } else if k == 0 {
        lemma_ramp_step_budget(cg, tg, rem, c);
        assert(ramp_after(cg, tg, rem, 0) == cg);
        assert(ramp_after(cg, tg, rem, 1) == ramp_after(
            cg + ramp_step(cg, tg, rem),
            tg,
            rem - 1,
            0,
        ));
    } else {
        lemma_ramp_step_budget(cg, tg, rem, c);
        let cg1 = cg + ramp_step(cg, tg, rem);
        assert(ramp_after(cg, tg, rem, k + 1) == ramp_after(cg1, tg, rem - 1, k));
        assert(ramp_after(cg, tg, rem, k) == ramp_after(cg1, tg, rem - 1, k - 1));
        if rem == 1 {
            lemma_ramp_same_when_settled(cg1, tg, 0, k);
            lemma_ramp_same_when_settled(cg1, tg, 0, k - 1);
        } else {
            lemma_ramp_budget_invariant(cg1, tg, rem - 1, k - 1, c);
        }
    }
}

/// With no steps remaining the ramp never moves again.
proof fn lemma_ramp_same_when_settled(cg: int, tg: int, rem: int, k: int)
    requires
        rem <= 0,
    ensures
        ramp_after(cg, tg, rem, k) == cg,
{
}

/// The ramp's step `k` seen from the front equals one step taken from the
/// state the ramp reaches after `k` samples; this lets a loop that advances
/// incrementally meet the front-recursive definition.
pub proof fn lemma_ramp_after_snoc(cg: int, tg: int, rem: int, k: int)
    requires
        0 <= k,
        0 <= rem,
    ensures
        ramp_after(cg, tg, rem, k + 1) == if ramp_rem_after(rem, k) > 0 {
            ramp_after(cg, tg, rem, k) + ramp_step(ramp_after(cg, tg, rem, k), tg, ramp_rem_after(rem, k))
        } else {
            ramp_after(cg, tg, rem, k)
        },
        ramp_rem_after(rem, k + 1) == if ramp_rem_after(rem, k) > 0 {
            ramp_rem_after(rem, k) - 1
        } else {
            0
        },
    decreases k,
{
    if rem == 0 {
    } else if k == 0 {
        assert(ramp_after(cg, tg, rem, 1) == ramp_after(cg + ramp_step(cg, tg, rem), tg, rem - 1, 0));
    } else {
        lemma_ramp_after_snoc(cg + ramp_step(cg, tg, rem), tg, rem - 1, k - 1);
    }
}

/// One executable ramp step: advances the current gain toward the target and
/// spends one remaining sample, exactly as the ramp recurrence describes.
pub fn ramp_advance(cg: u32, tg: u32, rem: u64) -> (r: (u32, u64))
    ensures
        rem > 0 ==> r.0 == cg as int + ramp_step(cg as int, tg as int, rem as int),
        rem > 0 ==> r.1 == rem - 1,
        rem == 0 ==> r == (cg, 0u64),
{
    if rem == 0 {
        (cg, 0)
    } else if tg >= cg {
        let d: u64 = (tg - cg) as u64;
        let step: u64 = d / rem;
        proof {
            assert(d as int / rem as int <= d as int) by (nonlinear_arith)
                requires
                    rem as int > 0,
                    d as int >= 0,
            ;
        }
        (cg + step as u32, rem - 1)
    } else {
        let d: u64 = (cg - tg) as u64;
        let step: u64 = d / rem;
        proof {
            assert(d as int / rem as int <= d as int) by (nonlinear_arith)
                requires
                    rem as int > 0,
                    d as int >= 0,
            ;
        }
        (cg - step as u32, rem - 1)
    }
}

} // verus!
