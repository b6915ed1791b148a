//! Integer-accumulator rate conversion between a device sample rate and the
//! fixed pipeline rate.
//!
//! Per device sample the accumulator gains `pipeline_rate`; each full
//! `device_rate` held by the accumulator is exchanged for one pipeline-rate
//! sample advanced. The remainder persists across calls, so the long-run
//! advance count never drifts from the exact rate ratio by more than one
//! sample.

use vstd::prelude::*;
use vstd::arithmetic::div_mod::lemma_fundamental_div_mod;
use vstd::arithmetic::div_mod::lemma_mod_bound;
use vstd::arithmetic::mul::lemma_mul_is_distributive_add;

verus! {

/// Pipeline samples advanced by one device sample, from accumulator `accum`.
pub open spec fn rc_steps(accum: int, pipeline_rate: int, device_rate: int) -> int {
    (accum + pipeline_rate) / device_rate
}

/// Accumulator remainder left by one device sample.
pub open spec fn rc_rem(accum: int, pipeline_rate: int, device_rate: int) -> int {
    (accum + pipeline_rate) % device_rate
}

/// Accumulator after `m` device samples, starting from `accum0`.
pub open spec fn rc_accum_after(accum0: int, p: int, d: int, m: nat) -> int
    decreases m,
{
    if m == 0 {
        accum0
    } else {
        rc_rem(rc_accum_after(accum0, p, d, (m - 1) as nat), p, d)
    }
}

/// Cumulative pipeline samples advanced by `m` device samples, starting from
/// `accum0`.
pub open spec fn rc_advanced_after(accum0: int, p: int, d: int, m: nat) -> int
    decreases m,
{
    if m == 0 {
        0
    } else {
        rc_advanced_after(accum0, p, d, (m - 1) as nat) + rc_steps(
            rc_accum_after(accum0, p, d, (m - 1) as nat),
            p,
            d,
        )
    }
}

/// Conservation law of the converter: what ever entered the accumulator was
/// either paid out as whole device-rate units (one pipeline advance each) or
/// still sits in the accumulator.
pub proof fn lemma_rc_conservation(accum0: int, p: int, d: int, m: nat)
    requires
        1 <= d,
        0 <= p,
        0 <= accum0,
    ensures
        d * rc_advanced_after(accum0, p, d, m) + rc_accum_after(accum0, p, d, m) == accum0 + m * p,
        0 <= rc_accum_after(accum0, p, d, m),
        m >= 1 ==> rc_accum_after(accum0, p, d, m) < d,
        0 <= rc_advanced_after(accum0, p, d, m),
    decreases m,
{
    if m == 0 {
    } else {
        let mp = (m - 1) as nat;
        lemma_rc_conservation(accum0, p, d, mp);
        let a = rc_accum_after(accum0, p, d, mp);
        let adv = rc_advanced_after(accum0, p, d, mp);
        let s = rc_steps(a, p, d);
        lemma_fundamental_div_mod(a + p, d);
        lemma_mod_bound(a + p, d);
        lemma_mul_is_distributive_add(d, adv, s);
        assert(d * adv + d * s + rc_rem(a, p, d) == accum0 + mp * p + p);
        assert(mp * p + p == m * p) by (nonlinear_arith)
            requires
                mp == m - 1,
        ;
        assert(d * s >= 0) by (nonlinear_arith)
            requires
                d >= 1,
                a + p >= 0,
                s == (a + p) / d,
        ;
    }
}

/// Rate conversion drift bound: seeded at `device_rate` (so the first device
/// sample is served immediately), after `m` device samples the cumulative
/// count `k` of pipeline samples advanced satisfies
/// `m * pipeline_rate < device_rate * k <= m * pipeline_rate + device_rate`,
/// that is, `k` is within one sample of the exact ratio
/// `m * pipeline_rate / device_rate`.
pub proof fn lemma_rate_drift_bound(p: int, d: int, m: nat)
    requires
        1 <= d,
        0 <= p,
        1 <= m,
    ensures
        m * p < d * rc_advanced_after(d, p, d, m),
        d * rc_advanced_after(d, p, d, m) <= m * p + d,
{
    lemma_rc_conservation(d, p, d, m);
}

} // verus!
