//! Action-selection policies.
//!
//! A policy turns a list of (action, estimated value) candidates into one
//! chosen action. The two concrete policies are epsilon-greedy: with
//! probability epsilon (while in training mode) they explore uniformly at
//! random over all candidates; otherwise they pick uniformly among the
//! candidates of maximal (or, for the `Min` variant, minimal) value, with
//! ties decided by exact rational equality.

use vstd::prelude::*;

use crate::rat::Overflow;
use crate::rat::Rat;
use crate::rat::lemma_q_le_lt_trans;
use crate::rat::q_eq;
use crate::rat::q_fits;
use crate::rat::q_le;
use crate::rat::q_lt;
use crate::rat::q_mul;
use crate::rat::q_wf;
use crate::rat::q_zero;
use crate::sample::draw_u64;
use crate::sample::pick_uniform;

verus! {

/// The draw `u`, read as the binary fraction `u / 2^64`, lies below `e`.
pub open spec fn unit_frac_lt(u: u64, e: (int, int)) -> bool {
    (u as int) * e.1 < e.0 * 0x10000000000000000
}

/// The specification view of a candidate list: each action with the pair
/// of integers its `Rat` value stands for.
pub open spec fn cands_view(cands: Seq<(usize, Rat)>) -> Seq<(usize, (int, int))> {
    cands.map_values(|p: (usize, Rat)| (p.0, p.1@))
}

/// `a` is the action of some candidate.
pub open spec fn is_candidate(cands: Seq<(usize, (int, int))>, a: usize) -> bool {
    exists|i: int| 0 <= i < cands.len() && cands[i].0 == a
}

/// The candidate at `j` has a value no other candidate exceeds.
pub open spec fn is_maximal_at(cands: Seq<(usize, (int, int))>, j: int) -> bool {
    forall|i: int| 0 <= i < cands.len() ==> q_le(cands[i].1, cands[j].1)
}

/// The candidate at `j` has a value no other candidate undercuts.
pub open spec fn is_minimal_at(cands: Seq<(usize, (int, int))>, j: int) -> bool {
    forall|i: int| 0 <= i < cands.len() ==> q_le(cands[j].1, cands[i].1)
}

/// `a` is the action of some candidate of maximal value.
pub open spec fn is_max_choice(cands: Seq<(usize, (int, int))>, a: usize) -> bool {
    exists|j: int| 0 <= j < cands.len() && cands[j].0 == a && is_maximal_at(cands, j)
}

/// `a` is the action of some candidate of minimal value.
pub open spec fn is_min_choice(cands: Seq<(usize, (int, int))>, a: usize) -> bool {
    exists|j: int| 0 <= j < cands.len() && cands[j].0 == a && is_minimal_at(cands, j)
}

/// All candidate values are well-formed rationals.
pub open spec fn cands_wf(cands: Seq<(usize, Rat)>) -> bool {
    forall|i: int| 0 <= i < cands.len() ==> q_wf(#[trigger] cands[i].1@)
}

/// A policy chooses one action out of a non-empty candidate list, or `None`
/// when there is no candidate at all.
pub trait Policy: Sized {
    /// The policy can no longer explore: every selection is greedy.
    spec fn exploits(&self) -> bool;

    /// Which chosen actions count as greedy for this policy.
    spec fn greedy_choice(&self, cands: Seq<(usize, (int, int))>, a: usize) -> bool;

    /// Choose an action. `None` exactly when `action_rewards` is empty; the
    /// choice is always one of the candidates, and a policy that can no
    /// longer explore always makes a greedy choice.
    fn select_action(&mut self, action_rewards: &Vec<(usize, Rat)>) -> (r: Option<usize>)
        requires
            cands_wf(action_rewards@),
        ensures
            *final(self) == *old(self),
            r is Some <==> action_rewards@.len() > 0,
            r matches Some(a) ==> is_candidate(cands_view(action_rewards@), a),
            old(self).exploits() ==> (r matches Some(a) ==> old(self).greedy_choice(
                cands_view(action_rewards@),
                a,
            )),
    ;
}

/// The exploration test: does the 64-bit draw, read as a fraction in
/// `[0, 1)`, fall below the exploration rate?
fn below_unit_frac(u: u64, eps: &Rat) -> (r: bool)
    ensures
        r == unit_frac_lt(u, eps@),
{
    proof {
        use_type_invariant(&*eps);
    }
    let num = eps.num();
    let den = eps.den();
    if num <= 0 {
        proof {
            assert((u as int) * (den as int) >= 0) by (nonlinear_arith)
                requires
                    u >= 0,
                    den > 0,
            ;
            assert((num as int) * 0x10000000000000000 <= 0) by (nonlinear_arith)
                requires
                    num <= 0,
            ;
        }
        false
    } else {
        proof {
            assert((u as u128) as int == u as int);
            assert((den as u128) as int == den as int);
            assert((num as u128) as int == num as int);
            assert((u as int) * (den as int) < 0x100000000000000000000000000000000)
                by (nonlinear_arith)
                requires
                    0 <= (u as int) < 0x10000000000000000,
                    0 <= (den as int) < 0x8000000000000000,
            ;
            assert((num as int) * 0x10000000000000000 < 0x100000000000000000000000000000000)
                by (nonlinear_arith)
                requires
                    0 <= (num as int) < 0x8000000000000000,
            ;
        }
        let lhs: u128 = (u as u128) * (den as u128);
        let rhs: u128 = (num as u128) * 0x10000000000000000u128;
        lhs < rhs
    }
}

/// All actions whose value no candidate exceeds, in candidate order.
pub(crate) fn max_tie_set(arv: &Vec<(usize, Rat)>) -> (r: Vec<usize>)
    requires
        cands_wf(arv@),
        arv@.len() > 0,
    ensures
        r@.len() > 0,
        forall|p: int| 0 <= p < r@.len() ==> is_max_choice(cands_view(arv@), #[trigger] r@[p]),
        forall|j: int|
            0 <= j < arv@.len() && is_maximal_at(cands_view(arv@), j) ==> exists|p: int|
                0 <= p < r@.len() && r@[p] == arv@[j].0,
{
    let n = arv.len();
    let mut best: Rat = arv[0].1;
    let mut acts: Vec<usize> = Vec::new();
    let mut i: usize = 0;
    while i < n
        invariant
            cands_wf(arv@),
            n == arv@.len(),
            0 < n,
            0 <= i <= n,
            q_wf(best@),
            i == 0 ==> best == arv@[0].1 && acts@.len() == 0,
            i > 0 ==> acts@.len() > 0,
            i > 0 ==> exists|p: int| 0 <= p < i && q_eq(#[trigger] arv@[p].1@, best@),
            forall|j: int| 0 <= j < i ==> q_le(#[trigger] arv@[j].1@, best@),
            forall|p: int|
                0 <= p < acts@.len() ==> exists|j: int|
                    0 <= j < i && arv@[j].0 == #[trigger] acts@[p] && q_eq(arv@[j].1@, best@),
            forall|j: int|
                0 <= j < i && q_eq(#[trigger] arv@[j].1@, best@) ==> exists|p: int|
                    0 <= p < acts@.len() && acts@[p] == arv@[j].0,
        decreases n - i,
    {
        let a = arv[i].0;
        let v = arv[i].1;
        if v.gt(&best) {
            proof {
                use_type_invariant(&v);
                assert forall|j: int| 0 <= j < i implies q_lt(#[trigger] arv@[j].1@, v@) by {
                    lemma_q_le_lt_trans(arv@[j].1@, best@, v@);
                }
            }
            best = v;
            acts = Vec::new();
            acts.push(a);
            proof {
                assert(acts@.len() == 1 && acts@[0] == arv@[i as int].0);
            }
        } else if v.equal_to(&best) {
            let ghost old_acts = acts@;
            acts.push(a);
            proof {
                assert forall|j: int|
                    0 <= j < i + 1 && q_eq(#[trigger] arv@[j].1@, best@) implies exists|p: int|
                        0 <= p < acts@.len() && acts@[p] == arv@[j].0 by {
                    if j == i {
                        assert(acts@[acts@.len() - 1] == arv@[j].0);
                    } else {
                        let p = choose|p: int|
                            0 <= p < old_acts.len() && old_acts[p] == arv@[j].0;
                        assert(acts@[p] == arv@[j].0);
                    }
                }
            }
        }
        i += 1;
    }
    proof {
        let cv = cands_view(arv@);
        assert forall|p: int| 0 <= p < acts@.len() implies is_max_choice(cv, #[trigger] acts@[p]) by {
            let j = choose|j: int|
                0 <= j < n && arv@[j].0 == acts@[p] && q_eq(arv@[j].1@, best@);
            assert forall|i2: int| 0 <= i2 < cv.len() implies q_le(
                #[trigger] cv[i2].1,
                cv[j].1,
            ) by {
                crate::rat::lemma_q_le_eq_trans(arv@[i2].1@, best@, arv@[j].1@);
            }
            assert(cv[j].0 == acts@[p]);
            assert(is_maximal_at(cv, j));
        }
        assert forall|j: int| 0 <= j < arv@.len() && is_maximal_at(cv, j) implies exists|p: int|
            0 <= p < acts@.len() && acts@[p] == arv@[j].0 by {
            let w = choose|w: int| 0 <= w < n && q_eq(#[trigger] arv@[w].1@, best@);
            assert(q_le(cv[w].1, cv[j].1));
            assert(q_le(arv@[w].1@, arv@[j].1@));
            crate::rat::lemma_q_eq_le_trans(best@, arv@[w].1@, arv@[j].1@);
            assert(q_le(arv@[j].1@, best@));
            assert(q_eq(arv@[j].1@, best@));
        }
    }
    acts
}

/// All actions whose value no candidate undercuts, in candidate order.
pub(crate) fn min_tie_set(arv: &Vec<(usize, Rat)>) -> (r: Vec<usize>)
    requires
        cands_wf(arv@),
        arv@.len() > 0,
    ensures
        r@.len() > 0,
        forall|p: int| 0 <= p < r@.len() ==> is_min_choice(cands_view(arv@), #[trigger] r@[p]),
        forall|j: int|
            0 <= j < arv@.len() && is_minimal_at(cands_view(arv@), j) ==> exists|p: int|
                0 <= p < r@.len() && r@[p] == arv@[j].0,
{
    let n = arv.len();
    let mut best: Rat = arv[0].1;
    let mut acts: Vec<usize> = Vec::new();
    let mut i: usize = 0;
    while i < n
        invariant
            cands_wf(arv@),
            n == arv@.len(),
            0 < n,
            0 <= i <= n,
            q_wf(best@),
            i == 0 ==> best == arv@[0].1 && acts@.len() == 0,
            i > 0 ==> acts@.len() > 0,
            i > 0 ==> exists|p: int| 0 <= p < i && q_eq(#[trigger] arv@[p].1@, best@),
            forall|j: int| 0 <= j < i ==> q_le(best@, #[trigger] arv@[j].1@),
            forall|p: int|
                0 <= p < acts@.len() ==> exists|j: int|
                    0 <= j < i && arv@[j].0 == #[trigger] acts@[p] && q_eq(arv@[j].1@, best@),
            forall|j: int|
                0 <= j < i && q_eq(#[trigger] arv@[j].1@, best@) ==> exists|p: int|
                    0 <= p < acts@.len() && acts@[p] == arv@[j].0,
        decreases n - i,
    {
        let a = arv[i].0;
        let v = arv[i].1;
        if v.lt(&best) {
            proof {
                use_type_invariant(&v);
                assert forall|j: int| 0 <= j < i implies q_lt(v@, #[trigger] arv@[j].1@) by {
                    crate::rat::lemma_q_lt_le_trans(v@, best@, arv@[j].1@);
                }
            }
            best = v;
            acts = Vec::new();
            acts.push(a);
            proof {
                assert(acts@.len() == 1 && acts@[0] == arv@[i as int].0);
            }
        } else if v.equal_to(&best) {
            let ghost old_acts = acts@;
            acts.push(a);
            proof {
                assert forall|j: int|
                    0 <= j < i + 1 && q_eq(#[trigger] arv@[j].1@, best@) implies exists|p: int|
                        0 <= p < acts@.len() && acts@[p] == arv@[j].0 by {
                    if j == i {
                        assert(acts@[acts@.len() - 1] == arv@[j].0);
                    } else {
                        let p = choose|p: int|
                            0 <= p < old_acts.len() && old_acts[p] == arv@[j].0;
                        assert(acts@[p] == arv@[j].0);
                    }
                }
            }
        }
        i += 1;
    }
    proof {
        let cv = cands_view(arv@);
        assert forall|p: int| 0 <= p < acts@.len() implies is_min_choice(cv, #[trigger] acts@[p]) by {
            let j = choose|j: int|
                0 <= j < n && arv@[j].0 == acts@[p] && q_eq(arv@[j].1@, best@);
            assert forall|i2: int| 0 <= i2 < cv.len() implies q_le(
                cv[j].1,
                #[trigger] cv[i2].1,
            ) by {
                crate::rat::lemma_q_eq_le_trans(arv@[j].1@, best@, arv@[i2].1@);
            }
            assert(cv[j].0 == acts@[p]);
            assert(is_minimal_at(cv, j));
        }
        assert forall|j: int| 0 <= j < arv@.len() && is_minimal_at(cv, j) implies exists|p: int|
            0 <= p < acts@.len() && acts@[p] == arv@[j].0 by {
            let w = choose|w: int| 0 <= w < n && q_eq(#[trigger] arv@[w].1@, best@);
            assert(q_le(cv[j].1, cv[w].1));
            assert(q_le(arv@[j].1@, arv@[w].1@));
            crate::rat::lemma_q_le_eq_trans(arv@[j].1@, arv@[w].1@, best@);
            assert(q_le(best@, arv@[j].1@));
            assert(q_eq(arv@[j].1@, best@));
        }
    }
    acts
}

/// Epsilon-greedy policy, exploiting by maximal value.
pub struct EGreedyPolicy {
    epsilon: Rat,
    decay: Rat,
    random: bool,
}

impl EGreedyPolicy {
    /// The current exploration rate.
    pub closed spec fn epsilon_spec(&self) -> (int, int) {
        self.epsilon@
    }

    /// The multiplicative decay factor.
    pub closed spec fn decay_spec(&self) -> (int, int) {
        self.decay@
    }

    /// True while the policy is in training mode.
    pub closed spec fn train_spec(&self) -> bool {
        self.random
    }

    /// A new policy in training mode.
    pub fn new(epsilon: Rat, decay: Rat) -> (r: EGreedyPolicy)
        ensures
            r.epsilon_spec() == epsilon@,
            r.decay_spec() == decay@,
            r.train_spec(),
    {
        EGreedyPolicy { epsilon, decay, random: true }
    }

    /// Multiply the exploration rate by the decay factor, exactly.
    /// Fails, leaving the policy unchanged, exactly when the raw product
    /// leaves the representable range.
    pub fn decay_epsilon(&mut self) -> (r: Result<(), Overflow>)
        ensures
            r is Ok <==> q_fits(q_mul(old(self).epsilon_spec(), old(self).decay_spec())),
            r is Ok ==> final(self).epsilon_spec() == q_mul(
                old(self).epsilon_spec(),
                old(self).decay_spec(),
            ),
            r is Err ==> final(self).epsilon_spec() == old(self).epsilon_spec(),
            final(self).decay_spec() == old(self).decay_spec(),
            final(self).train_spec() == old(self).train_spec(),
    {
        match self.epsilon.checked_mul(&self.decay) {
            Some(e) => {
                self.epsilon = e;
                Ok(())
            },
            None => Err(Overflow),
        }
    }

    /// The current exploration rate.
    pub fn epsilon(&self) -> (r: Rat)
        ensures
            r@ == self.epsilon_spec(),
    {
        self.epsilon
    }

    /// Leave training mode: from here on every selection is greedy.
    pub fn eval(&mut self)
        ensures
            !final(self).train_spec(),
            final(self).epsilon_spec() == old(self).epsilon_spec(),
            final(self).decay_spec() == old(self).decay_spec(),
    {
        self.random = false;
    }
}

impl Policy for EGreedyPolicy {
    /// Exploration is impossible: evaluation mode, or a rate at most zero.
    open spec fn exploits(&self) -> bool {
        !self.train_spec() || q_le(self.epsilon_spec(), q_zero())
    }

    open spec fn greedy_choice(&self, cands: Seq<(usize, (int, int))>, a: usize) -> bool {
        is_max_choice(cands, a)
    }

    fn select_action(&mut self, action_rewards: &Vec<(usize, Rat)>) -> (r: Option<usize>) {
        if action_rewards.len() == 0 {
            return None;
        }
        let u = draw_u64();
        if self.random && below_unit_frac(u, &self.epsilon) {
            proof {
                use_type_invariant(&self.epsilon);
                assert(self.epsilon@.0 > 0) by (nonlinear_arith)
                    requires
                        (u as int) * self.epsilon@.1 < self.epsilon@.0 * 0x10000000000000000,
                        u >= 0,
                        self.epsilon@.1 > 0,
                ;
            }
            let n = action_rewards.len();
            let mut acts: Vec<usize> = Vec::new();
            let mut i: usize = 0;
            while i < n
                invariant
                    n == action_rewards@.len(),
                    0 <= i <= n,
                    acts@.len() == i,
                    forall|j: int| 0 <= j < i ==> #[trigger] acts@[j] == action_rewards@[j].0,
                decreases n - i,
            {
                acts.push(action_rewards[i].0);
                i += 1;
            }
            match pick_uniform(&acts) {
                Some(a) => {
                    proof {
                        let i = choose|i: int| 0 <= i < acts@.len() && acts@[i] == a;
                        assert(cands_view(action_rewards@)[i].0 == a);
                    }
                    Some(a)
                },
                None => None,
            }
        } else {
            let ties = max_tie_set(action_rewards);
            match pick_uniform(&ties) {
                Some(a) => {
                    proof {
                        let p = choose|p: int| 0 <= p < ties@.len() && ties@[p] == a;
                        assert(is_max_choice(cands_view(action_rewards@), a));
                        let cv = cands_view(action_rewards@);
                        let j = choose|j: int|
                            0 <= j < cv.len() && cv[j].0 == a && is_maximal_at(cv, j);
                        assert(cv[j].0 == a);
                    }
                    Some(a)
                },
                None => None,
            }
        }
    }
}

/// Epsilon-greedy policy, exploiting by minimal value (for agents that
/// estimate a cost instead of a reward).
pub struct EGreedyPolicyMin {
    epsilon: Rat,
    decay: Rat,
    random: bool,
}

impl EGreedyPolicyMin {
    /// The current exploration rate.
    pub closed spec fn epsilon_spec(&self) -> (int, int) {
        self.epsilon@
    }

    /// The multiplicative decay factor.
    pub closed spec fn decay_spec(&self) -> (int, int) {
        self.decay@
    }

    /// True while the policy is in training mode.
    pub closed spec fn train_spec(&self) -> bool {
        self.random
    }

    /// A new policy in training mode.
    pub fn new(epsilon: Rat, decay: Rat) -> (r: EGreedyPolicyMin)
        ensures
            r.epsilon_spec() == epsilon@,
            r.decay_spec() == decay@,
            r.train_spec(),
    {
        EGreedyPolicyMin { epsilon, decay, random: true }
    }

    /// Multiply the exploration rate by the decay factor, exactly.
    /// Fails, leaving the policy unchanged, exactly when the raw product
    /// leaves the representable range.
    pub fn decay_epsilon(&mut self) -> (r: Result<(), Overflow>)
        ensures
            r is Ok <==> q_fits(q_mul(old(self).epsilon_spec(), old(self).decay_spec())),
            r is Ok ==> final(self).epsilon_spec() == q_mul(
                old(self).epsilon_spec(),
                old(self).decay_spec(),
            ),
            r is Err ==> final(self).epsilon_spec() == old(self).epsilon_spec(),
            final(self).decay_spec() == old(self).decay_spec(),
            final(self).train_spec() == old(self).train_spec(),
    {
        match self.epsilon.checked_mul(&self.decay) {
            Some(e) => {
                self.epsilon = e;
                Ok(())
            },
            None => Err(Overflow),
        }
    }

    /// The current exploration rate.
    pub fn epsilon(&self) -> (r: Rat)
        ensures
            r@ == self.epsilon_spec(),
    {
        self.epsilon
    }

    /// Leave training mode: from here on every selection is greedy.
    pub fn eval(&mut self)
        ensures
            !final(self).train_spec(),
            final(self).epsilon_spec() == old(self).epsilon_spec(),
            final(self).decay_spec() == old(self).decay_spec(),
    {
        self.random = false;
    }
}

impl Policy for EGreedyPolicyMin {
    /// Exploration is impossible: evaluation mode, or a rate at most zero.
    open spec fn exploits(&self) -> bool {
        !self.train_spec() || q_le(self.epsilon_spec(), q_zero())
    }

    open spec fn greedy_choice(&self, cands: Seq<(usize, (int, int))>, a: usize) -> bool {
        is_min_choice(cands, a)
    }

    fn select_action(&mut self, action_rewards: &Vec<(usize, Rat)>) -> (r: Option<usize>) {
        if action_rewards.len() == 0 {
            return None;
        }
        let u = draw_u64();
        if self.random && below_unit_frac(u, &self.epsilon) {
            proof {
                use_type_invariant(&self.epsilon);
                assert(self.epsilon@.0 > 0) by (nonlinear_arith)
                    requires
                        (u as int) * self.epsilon@.1 < self.epsilon@.0 * 0x10000000000000000,
                        u >= 0,
                        self.epsilon@.1 > 0,
                ;
            }
            let n = action_rewards.len();
            let mut acts: Vec<usize> = Vec::new();
            let mut i: usize = 0;
            while i < n
                invariant
                    n == action_rewards@.len(),
                    0 <= i <= n,
                    acts@.len() == i,
                    forall|j: int| 0 <= j < i ==> #[trigger] acts@[j] == action_rewards@[j].0,
                decreases n - i,
            {
                acts.push(action_rewards[i].0);
                i += 1;
            }
            match pick_uniform(&acts) {
                Some(a) => {
                    proof {
                        let i = choose|i: int| 0 <= i < acts@.len() && acts@[i] == a;
                        assert(cands_view(action_rewards@)[i].0 == a);
                    }
                    Some(a)
                },
                None => None,
            }
        } else {
            let ties = min_tie_set(action_rewards);
            match pick_uniform(&ties) {
                Some(a) => {
                    proof {
                        let p = choose|p: int| 0 <= p < ties@.len() && ties@[p] == a;
                        assert(is_min_choice(cands_view(action_rewards@), a));
                        let cv = cands_view(action_rewards@);
                        let j = choose|j: int|
                            0 <= j < cv.len() && cv[j].0 == a && is_minimal_at(cv, j);
                        assert(cv[j].0 == a);
                    }
                    Some(a)
                },
                None => None,
            }
        }
    }
}

} // verus!
