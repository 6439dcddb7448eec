//! Properties of the update rules, stated on their own.
//!
//! The contracts of the agents and policies describe each operation
//! exactly; the lemmas here state the facts that follow from several of
//! them together: the step-size schedule falls as training proceeds, the
//! backward return scan computes the textbook discounted returns, and
//! repeated decay multiplies the exploration rate by a power of the factor.

use vstd::prelude::*;

use crate::agent::ret_at;
use crate::rat::q_add;
use crate::rat::q_eq;
use crate::rat::q_lt;
use crate::rat::q_mul;
use crate::rat::q_wf;
use vstd::arithmetic::power::pow;

verus! {

/// The Monte-Carlo step size `K / (t + K)` strictly decreases as the step
/// index `t` grows, for any fixed `K >= 1`.
pub proof fn lemma_mc_alpha_strictly_decreasing(k: int, t1: int, t2: int)
    by (nonlinear_arith)
    requires
        k >= 1,
        0 <= t1 < t2,
    ensures
        q_lt((k, t2 + k), (k, t1 + k)),
{
}

/// Discounting a rational respects rational equality: if `a == b` as
/// rationals, then `a * gamma + r == r + gamma * b` as rationals, whatever
/// the raw pairs.
proof fn lemma_scan_step_congruent(r: (int, int), g: (int, int), a: (int, int), b: (int, int))
    requires
        q_wf(r),
        q_wf(g),
        q_wf(a),
        q_wf(b),
        q_eq(a, b),
    ensures
        q_eq(q_add(q_mul(a, g), r), q_add(r, q_mul(g, b))),
        q_wf(q_add(q_mul(a, g), r)),
        q_wf(q_add(r, q_mul(g, b))),
{
    let l0 = a.0 * g.0 * r.1 + r.0 * (a.1 * g.1);
    let l1 = (a.1 * g.1) * r.1;
    let s0 = r.0 * (g.1 * b.1) + (g.0 * b.0) * r.1;
    let s1 = r.1 * (g.1 * b.1);
    let t = g.0 * (g.1 * (r.1 * r.1));
    assert(l0 * s1 == (a.0 * b.1) * t + (r.0 * (a.1 * g.1)) * (r.1 * (g.1 * b.1)))
        by (nonlinear_arith)
        requires
            l0 == a.0 * g.0 * r.1 + r.0 * (a.1 * g.1),
            s1 == r.1 * (g.1 * b.1),
            t == g.0 * (g.1 * (r.1 * r.1)),
    ;
    assert(s0 * l1 == (r.0 * (g.1 * b.1)) * l1 + ((g.0 * b.0) * r.1) * l1) by (nonlinear_arith)
        requires
            s0 == r.0 * (g.1 * b.1) + (g.0 * b.0) * r.1,
    ;
    assert(((g.0 * b.0) * r.1) * l1 == (b.0 * a.1) * t) by (nonlinear_arith)
        requires
            l1 == (a.1 * g.1) * r.1,
            t == g.0 * (g.1 * (r.1 * r.1)),
    ;
    assert((r.0 * (g.1 * b.1)) * l1 == (r.0 * (g.1 * b.1)) * ((a.1 * g.1) * r.1));
    assert(s0 * l1 == (b.0 * a.1) * t + (r.0 * (g.1 * b.1)) * ((a.1 * g.1) * r.1));
    assert((a.0 * b.1) * t == (b.0 * a.1) * t) by (nonlinear_arith)
        requires
            a.0 * b.1 == b.0 * a.1,
    ;
    assert((r.0 * (a.1 * g.1)) * (r.1 * (g.1 * b.1)) == (r.0 * (g.1 * b.1)) * ((a.1 * g.1) * r.1))
        by (nonlinear_arith);
    assert(l0 * s1 == s0 * l1);
    assert(l1 > 0) by (nonlinear_arith)
        requires
            l1 == (a.1 * g.1) * r.1,
            a.1 > 0,
            g.1 > 0,
            r.1 > 0,
    ;
    assert(s1 > 0) by (nonlinear_arith)
        requires
            s1 == r.1 * (g.1 * b.1),
            b.1 > 0,
            g.1 > 0,
            r.1 > 0,
    ;
    assert(q_add(q_mul(a, g), r) == (l0, l1));
    assert(q_add(r, q_mul(g, b)) == (s0, s1));
}

/// The backward scan computes the textbook discounted returns: for an
/// episode with rewards `[r0, r1, r2]` and discount `gamma`, the return at
/// the last step equals `r2`, at step 1 equals `r1 + gamma * r2`, and at
/// step 0 equals `r0 + gamma * (r1 + gamma * r2)` — as rationals.
pub proof fn lemma_returns_three_steps(
    r0: (int, int),
    r1: (int, int),
    r2: (int, int),
    gamma: (int, int),
)
    requires
        q_wf(r0),
        q_wf(r1),
        q_wf(r2),
        q_wf(gamma),
    ensures
        q_eq(ret_at(seq![r0, r1, r2], gamma, 2), r2),
        q_eq(ret_at(seq![r0, r1, r2], gamma, 1), q_add(r1, q_mul(gamma, r2))),
        q_eq(
            ret_at(seq![r0, r1, r2], gamma, 0),
            q_add(r0, q_mul(gamma, q_add(r1, q_mul(gamma, r2)))),
        ),
{
    let rw = seq![r0, r1, r2];
    let g2 = ret_at(rw, gamma, 2);
    let g1 = ret_at(rw, gamma, 1);
    let g0 = ret_at(rw, gamma, 0);
    assert(ret_at(rw, gamma, 3) == (0int, 1int));
    assert(g2 == q_add(q_mul((0int, 1int), gamma), r2));
    assert(q_eq(g2, r2) && q_wf(g2)) by (nonlinear_arith)
        requires
            g2 == q_add(q_mul((0int, 1int), gamma), r2),
            q_wf(r2),
            q_wf(gamma),
    ;
    assert(g1 == q_add(q_mul(g2, gamma), r1));
    lemma_scan_step_congruent(r1, gamma, g2, r2);
    assert(q_eq(g1, q_add(r1, q_mul(gamma, r2))));
    assert(g0 == q_add(q_mul(g1, gamma), r0));
    assert(q_wf(q_add(r1, q_mul(gamma, r2)))) by (nonlinear_arith)
        requires
            q_wf(r1),
            q_wf(gamma),
            q_wf(r2),
    ;
    assert(q_wf(g1)) by (nonlinear_arith)
        requires
            g1 == q_add(q_mul(g2, gamma), r1),
            q_wf(g2),
            q_wf(gamma),
            q_wf(r1),
    ;
    lemma_scan_step_congruent(r0, gamma, g1, q_add(r1, q_mul(gamma, r2)));
    assert(q_eq(g0, q_add(r0, q_mul(gamma, q_add(r1, q_mul(gamma, r2))))));
}

/// The exploration rate after `n` applications of the decay step, each of
/// which multiplies the rate by the decay factor.
pub open spec fn decayed(e: (int, int), d: (int, int), n: nat) -> (int, int)
    decreases n,
{
    if n == 0 {
        e
    } else {
        q_mul(decayed(e, d, (n - 1) as nat), d)
    }
}

/// Applying the decay step `n` times multiplies the original exploration
/// rate by the `n`-th power of the decay factor, exactly.
pub proof fn lemma_decay_power(e: (int, int), d: (int, int), n: nat)
    ensures
        decayed(e, d, n) == (e.0 * pow(d.0, n), e.1 * pow(d.1, n)),
    decreases n,
{
    if n == 0 {
        vstd::arithmetic::power::lemma_pow0(d.0);
        vstd::arithmetic::power::lemma_pow0(d.1);
    } else {
        lemma_decay_power(e, d, (n - 1) as nat);
        vstd::arithmetic::power::lemma_pow1(d.0);
        vstd::arithmetic::power::lemma_pow1(d.1);
        vstd::arithmetic::power::lemma_pow_adds(d.0, (n - 1) as nat, 1nat);
        vstd::arithmetic::power::lemma_pow_adds(d.1, (n - 1) as nat, 1nat);
        assert(decayed(e, d, n) == q_mul((e.0 * pow(d.0, (n - 1) as nat), e.1 * pow(d.1, (n - 1) as nat)), d));
        assert((e.0 * pow(d.0, (n - 1) as nat)) * d.0 == e.0 * (pow(d.0, (n - 1) as nat) * d.0))
            by (nonlinear_arith);
        assert((e.1 * pow(d.1, (n - 1) as nat)) * d.1 == e.1 * (pow(d.1, (n - 1) as nat) * d.1))
            by (nonlinear_arith);
    }
}

} // verus!
