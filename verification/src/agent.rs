//! Tabular learning agents.
//!
//! Four agents share one shape: a value table, an action-selection step that
//! scores the legal actions and hands the choice to a policy, and an update
//! step that moves table entries toward an observed or bootstrapped return.
//!
//! * `VEveryVisitMC` estimates state values from whole episodes of
//!   (state, reward) pairs, by backward discounted returns.
//! * `QEveryVisitMC` does the same for (state, action) pairs from episodes
//!   of (state, action, reward) triples.
//! * `QTD0` applies a one-step bootstrapped update per transition, seeking
//!   the maximal next action value; `QTD0Min` mirrors it with the minimum.
//!
//! All arithmetic is exact; an update whose raw intermediate values would
//! leave the representable range fails without touching the table.

use vstd::prelude::*;

use crate::env::Env;
use crate::policy::Policy;
use crate::policy::cands_view;
use crate::policy::cands_wf;
use crate::policy::is_candidate;
use crate::policy::max_tie_set;
use crate::policy::min_tie_set;
use crate::rat::Rat;
use crate::rat::q_add;
use crate::rat::q_fits;
use crate::rat::q_le;
use crate::rat::q_mul;
use crate::rat::q_sub;
use crate::rat::q_zero;
use crate::sample::pick_uniform;
use crate::table::QTable;
use crate::table::VTable;
use crate::table::q_lookup;
use crate::table::v_lookup;

verus! {

/// Why an update was rejected. Both cases leave the agent unchanged:
/// an empty episode is a caller error the run must treat as fatal, and an
/// out-of-range result means the exact arithmetic left the representable
/// range.
#[derive(Clone, Copy, Debug, PartialEq, Eq, Structural)]
pub enum UpdateError {
    EmptyEpisode,
    OutOfRange,
}

/// The discounted return at step `t` of a reward sequence, computed as the
/// backward scan does it: zero past the end, then
/// `ret(t) = ret(t + 1) * gamma + reward(t)`.
pub open spec fn ret_at(rewards: Seq<(int, int)>, gamma: (int, int), t: int) -> (int, int)
    decreases rewards.len() - t,
{
    if t < 0 || t >= rewards.len() {
        q_zero()
    } else {
        q_add(q_mul(ret_at(rewards, gamma, t + 1), gamma), rewards[t])
    }
}

/// The backward scan from step `t` on stays in range.
pub open spec fn ret_ok(rewards: Seq<(int, int)>, gamma: (int, int), t: int) -> bool
    decreases rewards.len() - t,
{
    if t < 0 || t >= rewards.len() {
        true
    } else {
        ret_ok(rewards, gamma, t + 1) && q_fits(q_mul(ret_at(rewards, gamma, t + 1), gamma))
            && q_fits(ret_at(rewards, gamma, t))
    }
}

proof fn lemma_ret_ok_at(rewards: Seq<(int, int)>, gamma: (int, int), t: int, u: int)
    requires
        ret_ok(rewards, gamma, t),
        0 <= t <= u,
    ensures
        ret_ok(rewards, gamma, u),
    decreases u - t,
{
    if t < u && t < rewards.len() {
        lemma_ret_ok_at(rewards, gamma, t + 1, u);
    }
}

/// One incremental move of a stored value toward the return `g`, with the
/// step size `k / (t + k)`.
pub open spec fn mc_step(v: (int, int), g: (int, int), t: int, k: int) -> (int, int) {
    q_add(v, q_mul((k, t + k), q_sub(g, v)))
}

/// The whole move of `mc_step` at step `t` stays in range.
pub open spec fn mc_step_ok(v: (int, int), g: (int, int), t: int, k: int) -> bool {
    t + k <= i64::MAX && q_fits(q_sub(g, v)) && q_fits(q_mul((k, t + k), q_sub(g, v))) && q_fits(
        mc_step(v, g, t, k),
    )
}

/// The rewards of a (state, reward) episode.
pub open spec fn v_rewards(ep: Seq<(usize, (int, int))>) -> Seq<(int, int)> {
    ep.map_values(|p: (usize, (int, int))| p.1)
}

/// The state-value table after the every-visit Monte-Carlo pass over the
/// episode from step `i` on: one write per step, each toward that step's
/// discounted return.
pub open spec fn mc_v_fold(
    tab: Map<usize, (int, int)>,
    ep: Seq<(usize, (int, int))>,
    gamma: (int, int),
    k: int,
    i: int,
) -> Map<usize, (int, int)>
    decreases ep.len() - i,
{
    if i < 0 || i >= ep.len() {
        tab
    } else {
        let g = ret_at(v_rewards(ep), gamma, i);
        let v = v_lookup(tab, ep[i].0);
        mc_v_fold(tab.insert(ep[i].0, mc_step(v, g, i, k)), ep, gamma, k, i + 1)
    }
}

/// Every write of the Monte-Carlo pass from step `i` on stays in range.
pub open spec fn mc_v_fold_ok(
    tab: Map<usize, (int, int)>,
    ep: Seq<(usize, (int, int))>,
    gamma: (int, int),
    k: int,
    i: int,
) -> bool
    decreases ep.len() - i,
{
    if i < 0 || i >= ep.len() {
        true
    } else {
        let g = ret_at(v_rewards(ep), gamma, i);
        let v = v_lookup(tab, ep[i].0);
        mc_step_ok(v, g, i, k) && mc_v_fold_ok(
            tab.insert(ep[i].0, mc_step(v, g, i, k)),
            ep,
            gamma,
            k,
            i + 1,
        )
    }
}

/// The candidate list a state-value agent builds at `s`: each legal action
/// that leads somewhere, paired with the stored value of its successor.
pub open spec fn v_cands_rec<E: Env>(
    tab: Map<usize, (int, int)>,
    env: E,
    s: usize,
    acts: Seq<usize>,
) -> Seq<(usize, (int, int))>
    decreases acts.len(),
{
    if acts.len() == 0 {
        Seq::empty()
    } else {
        let rest = v_cands_rec(tab, env, s, acts.drop_last());
        let a = acts.last();
        let nxt = env.transition_spec(s, Some(a)).0;
        if nxt is Some {
            rest.push((a, v_lookup(tab, nxt->Some_0)))
        } else {
            rest
        }
    }
}

/// The candidates a state-value agent offers the policy at `s`.
pub open spec fn v_candidates<E: Env>(tab: Map<usize, (int, int)>, env: E, s: usize) -> Seq<
    (usize, (int, int)),
> {
    v_cands_rec(tab, env, s, env.avail_spec(s))
}

/// The candidates an action-value agent offers the policy at `s`: every
/// legal action, paired with its stored value.
pub open spec fn q_candidates(tab: Map<(usize, usize), (int, int)>, s: usize, acts: Seq<usize>) -> Seq<
    (usize, (int, int)),
> {
    acts.map_values(|a: usize| (a, q_lookup(tab, s, a)))
}

/// The specification view of a (state, action, reward) episode: each step
/// as its (state, action) key with the reward's integer pair.
pub open spec fn triples_view(ep: Seq<(usize, usize, Rat)>) -> Seq<((usize, usize), (int, int))> {
    ep.map_values(|p: (usize, usize, Rat)| ((p.0, p.1), p.2@))
}

/// The rewards of a (state, action, reward) episode view.
pub open spec fn q_rewards(ep: Seq<((usize, usize), (int, int))>) -> Seq<(int, int)> {
    ep.map_values(|p: ((usize, usize), (int, int))| p.1)
}

/// The action-value table after the every-visit Monte-Carlo pass over the
/// episode from step `i` on: one write per step, each toward that step's
/// discounted return.
pub open spec fn mc_q_fold(
    tab: Map<(usize, usize), (int, int)>,
    ep: Seq<((usize, usize), (int, int))>,
    gamma: (int, int),
    k: int,
    i: int,
) -> Map<(usize, usize), (int, int)>
    decreases ep.len() - i,
{
    if i < 0 || i >= ep.len() {
        tab
    } else {
        let g = ret_at(q_rewards(ep), gamma, i);
        let v = q_lookup(tab, ep[i].0.0, ep[i].0.1);
        mc_q_fold(tab.insert(ep[i].0, mc_step(v, g, i, k)), ep, gamma, k, i + 1)
    }
}

/// Every write of the Monte-Carlo pass from step `i` on stays in range.
pub open spec fn mc_q_fold_ok(
    tab: Map<(usize, usize), (int, int)>,
    ep: Seq<((usize, usize), (int, int))>,
    gamma: (int, int),
    k: int,
    i: int,
) -> bool
    decreases ep.len() - i,
{
    if i < 0 || i >= ep.len() {
        true
    } else {
        let g = ret_at(q_rewards(ep), gamma, i);
        let v = q_lookup(tab, ep[i].0.0, ep[i].0.1);
        mc_step_ok(v, g, i, k) && mc_q_fold_ok(
            tab.insert(ep[i].0, mc_step(v, g, i, k)),
            ep,
            gamma,
            k,
            i + 1,
        )
    }
}

/// State-value agent: every-visit Monte-Carlo estimation of state values.
pub struct VEveryVisitMC {
    table: VTable,
    gamma: Rat,
    k: i64,
}

impl VEveryVisitMC {
    #[verifier::type_invariant]
    spec fn type_inv(self) -> bool {
        self.k >= 1
    }

    /// The state-value table.
    pub closed spec fn table_spec(&self) -> Map<usize, (int, int)> {
        self.table@
    }

    /// The discount factor.
    pub closed spec fn gamma_spec(&self) -> (int, int) {
        self.gamma@
    }

    /// The step-size constant `K` of the schedule `K / (t + K)`.
    pub closed spec fn k_spec(&self) -> int {
        self.k as int
    }

    /// A fresh agent with an empty table. `k` is the step-size constant of
    /// the schedule `K / (t + K)`.
    pub fn new(gamma: Rat, k: i64) -> (r: VEveryVisitMC)
        requires
            k >= 1,
        ensures
            r.table_spec() == Map::<usize, (int, int)>::empty(),
            r.gamma_spec() == gamma@,
            r.k_spec() == k as int,
    {
        VEveryVisitMC { table: VTable::new(), gamma, k }
    }

    /// Overwrite the stored value of one state.
    pub fn update_value(&mut self, state: usize, value: Rat)
        ensures
            final(self).table_spec() == old(self).table_spec().insert(state, value@),
            final(self).gamma_spec() == old(self).gamma_spec(),
            final(self).k_spec() == old(self).k_spec(),
    {
        proof {
            use_type_invariant(&*self);
        }
        let mut tb = VTable::new();
        core::mem::swap(&mut tb, &mut self.table);
        tb.set(state, value);
        self.table = tb;
    }

    /// The stored value of `state`; exactly zero for a state never written.
    pub fn get_value(&self, state: usize) -> (r: Rat)
        ensures
            r@ == v_lookup(self.table_spec(), state),
    {
        self.table.get(state)
    }

    /// The written entries of the value table, in insertion order, for
    /// reporting by a driver.
    pub fn entries(&self) -> (r: &Vec<(usize, Rat)>)
        ensures
            r@.len() == self.table_spec().dom().len(),
            forall|i: int|
                0 <= i < r@.len() ==> self.table_spec().contains_key(#[trigger] r@[i].0)
                    && self.table_spec()[r@[i].0] == r@[i].1@,
            forall|k: usize|
                self.table_spec().contains_key(k) ==> exists|i: int|
                    0 <= i < r@.len() && r@[i].0 == k,
    {
        self.table.entries()
    }

    /// Score each available action by the stored value of its successor
    /// (one-step lookahead through the environment) and let the policy
    /// choose. `None` exactly when no scored candidate exists.
    pub fn select_action<P: Policy, E: Env>(&self, state: usize, policy: &mut P, env: &E) -> (r:
        Option<usize>)
        requires
            env.wf(),
            env.state_ok(state),
        ensures
            *final(policy) == *old(policy),
            r is Some <==> v_candidates(self.table_spec(), *env, state).len() > 0,
            r matches Some(a) ==> is_candidate(v_candidates(self.table_spec(), *env, state), a),
            old(policy).exploits() ==> (r matches Some(a) ==> old(policy).greedy_choice(
                v_candidates(self.table_spec(), *env, state),
                a,
            )),
    {
        let actions = env.available_actions(state);
        let m = actions.len();
        let mut cands: Vec<(usize, Rat)> = Vec::new();
        let mut i: usize = 0;
        while i < m
            invariant
                env.wf(),
                env.state_ok(state),
                m == actions@.len(),
                actions@ == env.avail_spec(state),
                forall|j: int| 0 <= j < m ==> env.action_ok(state, #[trigger] actions@[j]),
                0 <= i <= m,
                cands_wf(cands@),
                cands_view(cands@) == v_cands_rec(
                    self.table_spec(),
                    *env,
                    state,
                    actions@.take(i as int),
                ),
            decreases m - i,
        {
            let a = actions[i];
            let ghost prefix = actions@.take(i as int);
            let ghost prefix1 = actions@.take(i + 1);
            proof {
                assert(prefix1.drop_last() =~= prefix);
                assert(prefix1.last() == actions@[i as int]);
            }
            let tr = env.transition(state, Some(a));
            match tr.0 {
                Some(s2) => {
                    let v = self.table.get(s2);
                    let ghost before = cands@;
                    proof {
                        use_type_invariant(&v);
                    }
                    cands.push((a, v));
                    proof {
                        assert(cands_view(cands@) =~= cands_view(before).push((a as usize, v@)));
                    }
                },
                None => {},
            }
            i += 1;
        }
        proof {
            assert(actions@.take(m as int) =~= actions@);
        }
        policy.select_action(&cands)
    }

    /// The every-visit Monte-Carlo update. Computes the discounted return
    /// at every step by a backward scan, then moves each visited state's
    /// value toward its return with step size `K / (t + K)`, one write per
    /// step in episode order. An empty episode is rejected as a fatal
    /// caller error; an out-of-range intermediate leaves the agent
    /// untouched.
    pub fn update(&mut self, info: &Vec<(usize, Rat)>) -> (r: Result<(), UpdateError>)
        ensures
            final(self).gamma_spec() == old(self).gamma_spec(),
            final(self).k_spec() == old(self).k_spec(),
            r is Ok <==> (info@.len() > 0 && ret_ok(v_rewards(cands_view(info@)), old(self).gamma_spec(), 0)
                && mc_v_fold_ok(
                old(self).table_spec(),
                cands_view(info@),
                old(self).gamma_spec(),
                old(self).k_spec(),
                0,
            )),
            r is Ok ==> final(self).table_spec() == mc_v_fold(
                old(self).table_spec(),
                cands_view(info@),
                old(self).gamma_spec(),
                old(self).k_spec(),
                0,
            ),
            r is Err ==> final(self).table_spec() == old(self).table_spec(),
            (r == Err::<(), UpdateError>(UpdateError::EmptyEpisode)) <==> info@.len() == 0,
    {
        proof {
            use_type_invariant(&*self);
        }
        let ghost ep = cands_view(info@);
        let ghost rw = v_rewards(ep);
        let ghost g0 = self.gamma@;
        let n = info.len();
        if n == 0 {
            return Err(UpdateError::EmptyEpisode);
        }
        proof {
            assert(rw.len() == n);
        }
        // Backward scan: returns at each step, stored back to front.
        let mut rev: Vec<Rat> = Vec::new();
        let mut acc = Rat::zero();
        let mut t = n;
        while t > 0
            invariant
                n == info@.len(),
                ep == cands_view(info@),
                rw == v_rewards(ep),
                g0 == self.gamma@,
                0 <= t <= n,
                acc@ == ret_at(rw, g0, t as int),
                ret_ok(rw, g0, t as int),
                rev@.len() == n - t,
                forall|j: int|
                    0 <= j < rev@.len() ==> #[trigger] rev@[j]@ == ret_at(rw, g0, n - 1 - j),
            decreases t,
        {
            t -= 1;
            let prod = match acc.checked_mul(&self.gamma) {
                Some(x) => x,
                None => {
                    proof {
                        assert(!ret_ok(rw, g0, t as int));
                        if ret_ok(rw, g0, 0) {
                            lemma_ret_ok_at(rw, g0, 0, t as int);
                        }
                    }
                    return Err(UpdateError::OutOfRange);
                },
            };
            proof {
                assert(info@[t as int].1@ == rw[t as int]);
            }
            acc = match prod.checked_add(&info[t].1) {
                Some(x) => x,
                None => {
                    proof {
                        assert(!ret_ok(rw, g0, t as int));
                        if ret_ok(rw, g0, 0) {
                            lemma_ret_ok_at(rw, g0, 0, t as int);
                        }
                    }
                    return Err(UpdateError::OutOfRange);
                },
            };
            rev.push(acc);
        }
        // Forward pass over a scratch copy: one write per step.
        let mut scratch = self.table.duplicate();
        let mut i: usize = 0;
        while i < n
            invariant
                n == info@.len(),
                n > 0,
                ep == cands_view(info@),
                rw == v_rewards(ep),
                g0 == self.gamma@,
                self.k >= 1,
                rev@.len() == n,
                forall|j: int|
                    0 <= j < n ==> #[trigger] rev@[j]@ == ret_at(rw, g0, n - 1 - j),
                0 <= i <= n,
                mc_v_fold(scratch@, ep, g0, self.k as int, i as int) == mc_v_fold(
                    old(self).table_spec(),
                    ep,
                    g0,
                    self.k as int,
                    0,
                ),
                mc_v_fold_ok(scratch@, ep, g0, self.k as int, i as int) == mc_v_fold_ok(
                    old(self).table_spec(),
                    ep,
                    g0,
                    self.k as int,
                    0,
                ),
                self.table@ == old(self).table_spec(),
                self.gamma == old(self).gamma,
                self.k == old(self).k,
            decreases n - i,
        {
            let s = info[i].0;
            proof {
                assert(ep[i as int] == (info@[i as int].0, info@[i as int].1@));
            }
            let g = rev[n - 1 - i];
            proof {
                assert(g@ == ret_at(rw, g0, i as int));
            }
            let v = scratch.get(s);
            if (i as i128) + (self.k as i128) > (i64::MAX as i128) {
                return Err(UpdateError::OutOfRange);
            }
            let alpha = Rat::new(self.k, (i as i64) + self.k);
            let diff = match g.checked_sub(&v) {
                Some(x) => x,
                None => {
                    return Err(UpdateError::OutOfRange);
                },
            };
            let scaled = match alpha.checked_mul(&diff) {
                Some(x) => x,
                None => {
                    return Err(UpdateError::OutOfRange);
                },
            };
            let nv = match v.checked_add(&scaled) {
                Some(x) => x,
                None => {
                    return Err(UpdateError::OutOfRange);
                },
            };
            scratch.set(s, nv);
            i += 1;
        }
        self.table = scratch;
        Ok(())
    }
}

/// Action-value agent: every-visit Monte-Carlo estimation of
/// (state, action) values.
pub struct QEveryVisitMC {
    table: QTable,
    gamma: Rat,
    k: i64,
}

impl QEveryVisitMC {
    #[verifier::type_invariant]
    spec fn type_inv(self) -> bool {
        self.k >= 1
    }

    /// The action-value table.
    pub closed spec fn table_spec(&self) -> Map<(usize, usize), (int, int)> {
        self.table@
    }

    /// The discount factor.
    pub closed spec fn gamma_spec(&self) -> (int, int) {
        self.gamma@
    }

    /// The step-size constant `K` of the schedule `K / (t + K)`.
    pub closed spec fn k_spec(&self) -> int {
        self.k as int
    }

    /// A fresh agent with an empty table. `k` is the step-size constant of
    /// the schedule `K / (t + K)`.
    pub fn new(gamma: Rat, k: i64) -> (r: QEveryVisitMC)
        requires
            k >= 1,
        ensures
            r.table_spec() == Map::<(usize, usize), (int, int)>::empty(),
            r.gamma_spec() == gamma@,
            r.k_spec() == k as int,
    {
        QEveryVisitMC { table: QTable::new(), gamma, k }
    }

    /// Overwrite the stored value of one (state, action) pair.
    pub fn update_value(&mut self, state: usize, action: usize, value: Rat)
        ensures
            final(self).table_spec() == old(self).table_spec().insert((state, action), value@),
            final(self).gamma_spec() == old(self).gamma_spec(),
            final(self).k_spec() == old(self).k_spec(),
    {
        proof {
            use_type_invariant(&*self);
        }
        let mut tb = QTable::new();
        core::mem::swap(&mut tb, &mut self.table);
        tb.set(state, action, value);
        self.table = tb;
    }

    /// The stored value of `(state, action)`; exactly zero for a pair never
    /// written.
    pub fn get_action_value(&self, state: usize, action: usize) -> (r: Rat)
        ensures
            r@ == q_lookup(self.table_spec(), state, action),
    {
        self.table.get(state, action)
    }

    /// The written entries of the action-value table, in insertion order,
    /// for reporting by a driver.
    pub fn entries(&self) -> (r: &Vec<((usize, usize), Rat)>)
        ensures
            r@.len() == self.table_spec().dom().len(),
            forall|i: int|
                0 <= i < r@.len() ==> self.table_spec().contains_key(#[trigger] r@[i].0)
                    && self.table_spec()[r@[i].0] == r@[i].1@,
            forall|k: (usize, usize)|
                self.table_spec().contains_key(k) ==> exists|i: int|
                    0 <= i < r@.len() && r@[i].0 == k,
    {
        self.table.entries()
    }

    /// Score each available action by its stored value and let the policy
    /// choose. `None` exactly when the state has no legal action.
    pub fn select_action<P: Policy, E: Env>(&self, state: usize, policy: &mut P, env: &E) -> (r:
        Option<usize>)
        requires
            env.wf(),
            env.state_ok(state),
        ensures
            *final(policy) == *old(policy),
            r is Some <==> env.avail_spec(state).len() > 0,
            r matches Some(a) ==> is_candidate(
                q_candidates(self.table_spec(), state, env.avail_spec(state)),
                a,
            ),
            old(policy).exploits() ==> (r matches Some(a) ==> old(policy).greedy_choice(
                q_candidates(self.table_spec(), state, env.avail_spec(state)),
                a,
            )),
    {
        let actions = env.available_actions(state);
        let cands = q_score(&self.table, state, &actions);
        proof {
            assert(cands_view(cands@).len() == cands@.len());
            assert(q_candidates(self.table_spec(), state, env.avail_spec(state)).len()
                == env.avail_spec(state).len());
        }
        policy.select_action(&cands)
    }

    /// The every-visit Monte-Carlo update over a (state, action, reward)
    /// episode: discounted returns by a backward scan, then one write per
    /// step toward that step's return with step size `K / (t + K)`. An
    /// empty episode is rejected as a fatal caller error; an out-of-range
    /// intermediate leaves the agent untouched.
    pub fn update(&mut self, info: &Vec<(usize, usize, Rat)>) -> (r: Result<(), UpdateError>)
        ensures
            final(self).gamma_spec() == old(self).gamma_spec(),
            final(self).k_spec() == old(self).k_spec(),
            r is Ok <==> (info@.len() > 0 && ret_ok(
                q_rewards(triples_view(info@)),
                old(self).gamma_spec(),
                0,
            ) && mc_q_fold_ok(
                old(self).table_spec(),
                triples_view(info@),
                old(self).gamma_spec(),
                old(self).k_spec(),
                0,
            )),
            r is Ok ==> final(self).table_spec() == mc_q_fold(
                old(self).table_spec(),
                triples_view(info@),
                old(self).gamma_spec(),
                old(self).k_spec(),
                0,
            ),
            r is Err ==> final(self).table_spec() == old(self).table_spec(),
            (r == Err::<(), UpdateError>(UpdateError::EmptyEpisode)) <==> info@.len() == 0,
    {
        proof {
            use_type_invariant(&*self);
        }
        let ghost ep = triples_view(info@);
        let ghost rw = q_rewards(ep);
        let ghost g0 = self.gamma@;
        let n = info.len();
        if n == 0 {
            return Err(UpdateError::EmptyEpisode);
        }
        proof {
            assert(rw.len() == n);
        }
        // Backward scan: returns at each step, stored back to front.
        let mut rev: Vec<Rat> = Vec::new();
        let mut acc = Rat::zero();
        let mut t = n;
        while t > 0
            invariant
                n == info@.len(),
                ep == triples_view(info@),
                rw == q_rewards(ep),
                g0 == self.gamma@,
                0 <= t <= n,
                acc@ == ret_at(rw, g0, t as int),
                ret_ok(rw, g0, t as int),
                rev@.len() == n - t,
                forall|j: int|
                    0 <= j < rev@.len() ==> #[trigger] rev@[j]@ == ret_at(rw, g0, n - 1 - j),
            decreases t,
        {
            t -= 1;
            let prod = match acc.checked_mul(&self.gamma) {
                Some(x) => x,
                None => {
                    proof {
                        assert(!ret_ok(rw, g0, t as int));
                        if ret_ok(rw, g0, 0) {
                            lemma_ret_ok_at(rw, g0, 0, t as int);
                        }
                    }
                    return Err(UpdateError::OutOfRange);
                },
            };
            proof {
                assert(info@[t as int].2@ == rw[t as int]);
            }
            acc = match prod.checked_add(&info[t].2) {
                Some(x) => x,
                None => {
                    proof {
                        assert(!ret_ok(rw, g0, t as int));
                        if ret_ok(rw, g0, 0) {
                            lemma_ret_ok_at(rw, g0, 0, t as int);
                        }
                    }
                    return Err(UpdateError::OutOfRange);
                },
            };
            rev.push(acc);
        }
        // Forward pass over a scratch copy: one write per step.
        let mut scratch = self.table.duplicate();
        let mut i: usize = 0;
        while i < n
            invariant
                n == info@.len(),
                n > 0,
                ep == triples_view(info@),
                rw == q_rewards(ep),
                g0 == self.gamma@,
                self.k >= 1,
                rev@.len() == n,
                forall|j: int|
                    0 <= j < n ==> #[trigger] rev@[j]@ == ret_at(rw, g0, n - 1 - j),
                0 <= i <= n,
                mc_q_fold(scratch@, ep, g0, self.k as int, i as int) == mc_q_fold(
                    old(self).table_spec(),
                    ep,
                    g0,
                    self.k as int,
                    0,
                ),
                mc_q_fold_ok(scratch@, ep, g0, self.k as int, i as int) == mc_q_fold_ok(
                    old(self).table_spec(),
                    ep,
                    g0,
                    self.k as int,
                    0,
                ),
                self.table@ == old(self).table_spec(),
                self.gamma == old(self).gamma,
                self.k == old(self).k,
            decreases n - i,
        {
            let s = info[i].0;
            let a = info[i].1;
            proof {
                assert(ep[i as int] == ((info@[i as int].0, info@[i as int].1), info@[i as int].2@));
            }
            let g = rev[n - 1 - i];
            proof {
                assert(g@ == ret_at(rw, g0, i as int));
            }
            let v = scratch.get(s, a);
            if (i as i128) + (self.k as i128) > (i64::MAX as i128) {
                return Err(UpdateError::OutOfRange);
            }
            let alpha = Rat::new(self.k, (i as i64) + self.k);
            let diff = match g.checked_sub(&v) {
                Some(x) => x,
                None => {
                    return Err(UpdateError::OutOfRange);
                },
            };
            let scaled = match alpha.checked_mul(&diff) {
                Some(x) => x,
                None => {
                    return Err(UpdateError::OutOfRange);
                },
            };
            let nv = match v.checked_add(&scaled) {
                Some(x) => x,
                None => {
                    return Err(UpdateError::OutOfRange);
                },
            };
            scratch.set(s, a, nv);
            i += 1;
        }
        self.table = scratch;
        Ok(())
    }
}

/// The TD(0) learning rate `c * (t + 1)^(-eta)` as an exact rational:
/// numerator of `c`, denominator of `c` times `(t + 1)^eta`.
pub open spec fn alpha_spec(c: (int, int), t: int, eta: int) -> (int, int) {
    (c.0, c.1 * vstd::arithmetic::power::pow(t + 1, eta as nat))
}

/// The denominator of the TD(0) learning rate stays in range.
pub open spec fn alpha_fits(c: (int, int), t: int, eta: int) -> bool {
    c.1 * vstd::arithmetic::power::pow(t + 1, eta as nat) <= i64::MAX
}

/// The action at `j` has the greatest stored value among `pool` at `s2`.
pub open spec fn q_max_at(
    tab: Map<(usize, usize), (int, int)>,
    s2: usize,
    pool: Seq<usize>,
    j: int,
) -> bool {
    0 <= j < pool.len() && forall|i: int|
        0 <= i < pool.len() ==> q_le(
            q_lookup(tab, s2, #[trigger] pool[i]),
            q_lookup(tab, s2, pool[j]),
        )
}

/// The action at `j` has the least stored value among `pool` at `s2`.
pub open spec fn q_min_at(
    tab: Map<(usize, usize), (int, int)>,
    s2: usize,
    pool: Seq<usize>,
    j: int,
) -> bool {
    0 <= j < pool.len() && forall|i: int|
        0 <= i < pool.len() ==> q_le(
            q_lookup(tab, s2, pool[j]),
            q_lookup(tab, s2, #[trigger] pool[i]),
        )
}

/// The value written by a non-terminal TD(0) step bootstrapping on the
/// next-state value `qn`: the old value plus `alpha * (reward + gamma * qn)`
/// — deliberately without subtracting the old estimate.
pub open spec fn td_step(
    vold: (int, int),
    rw: (int, int),
    gamma: (int, int),
    qn: (int, int),
    al: (int, int),
) -> (int, int) {
    q_add(vold, q_mul(q_add(rw, q_mul(gamma, qn)), al))
}

/// Every intermediate of the non-terminal TD(0) step stays in range.
pub open spec fn td_step_ok(
    vold: (int, int),
    rw: (int, int),
    gamma: (int, int),
    qn: (int, int),
    al: (int, int),
) -> bool {
    q_fits(q_mul(gamma, qn)) && q_fits(q_add(rw, q_mul(gamma, qn))) && q_fits(
        q_mul(q_add(rw, q_mul(gamma, qn)), al),
    ) && q_fits(td_step(vold, rw, gamma, qn, al))
}

/// The value written by a terminal TD(0) step: the old value plus
/// `alpha * (reward - old value)` — here the old estimate is subtracted.
pub open spec fn td_term_step(vold: (int, int), rw: (int, int), al: (int, int)) -> (int, int) {
    q_add(vold, q_mul(q_sub(rw, vold), al))
}

/// Every intermediate of the terminal TD(0) step stays in range.
pub open spec fn td_term_ok(vold: (int, int), rw: (int, int), al: (int, int)) -> bool {
    q_fits(q_sub(rw, vold)) && q_fits(q_mul(q_sub(rw, vold), al)) && q_fits(
        td_term_step(vold, rw, al),
    )
}

proof fn lemma_alpha_base_unfit(c1: int, b: int, eta: nat)
    requires
        1 <= c1,
        b > i64::MAX,
        eta >= 1,
    ensures
        c1 * vstd::arithmetic::power::pow(b, eta) > i64::MAX,
{
    vstd::arithmetic::power::lemma_pow_positive(b, (eta - 1) as nat);
    vstd::arithmetic::power::lemma_pow1(b);
    vstd::arithmetic::power::lemma_pow_adds(b, 1nat, (eta - 1) as nat);
    assert(vstd::arithmetic::power::pow(b, eta) == b * vstd::arithmetic::power::pow(
        b,
        (eta - 1) as nat,
    ));
    assert(c1 * vstd::arithmetic::power::pow(b, eta) > i64::MAX) by (nonlinear_arith)
        requires
            vstd::arithmetic::power::pow(b, eta) == b * vstd::arithmetic::power::pow(
                b,
                (eta - 1) as nat,
            ),
            vstd::arithmetic::power::pow(b, (eta - 1) as nat) >= 1,
            c1 >= 1,
            b > i64::MAX,
    ;
}

proof fn lemma_alpha_step_unfit(c1: int, b: int, j: nat, eta: nat)
    requires
        1 <= c1,
        1 <= b,
        j < eta,
        (c1 * vstd::arithmetic::power::pow(b, j)) * b > i64::MAX,
    ensures
        c1 * vstd::arithmetic::power::pow(b, eta) > i64::MAX,
{
    let pj = vstd::arithmetic::power::pow(b, j);
    let pr = vstd::arithmetic::power::pow(b, (eta - j - 1) as nat);
    vstd::arithmetic::power::lemma_pow_adds(b, (j + 1) as nat, (eta - j - 1) as nat);
    vstd::arithmetic::power::lemma_pow_positive(b, (eta - j - 1) as nat);
    vstd::arithmetic::power::lemma_pow_positive(b, j);
    vstd::arithmetic::power::lemma_pow1(b);
    vstd::arithmetic::power::lemma_pow_adds(b, 1nat, j);
    assert(vstd::arithmetic::power::pow(b, (j + 1) as nat) == b * pj);
    assert(vstd::arithmetic::power::pow(b, eta) == (b * pj) * pr);
    assert(c1 * vstd::arithmetic::power::pow(b, eta) > i64::MAX) by (nonlinear_arith)
        requires
            vstd::arithmetic::power::pow(b, eta) == (b * pj) * pr,
            pr >= 1,
            pj >= 1,
            c1 >= 1,
            b >= 1,
            (c1 * pj) * b > i64::MAX,
    ;
}

/// Action-value agent: one-step TD(0) bootstrapping on the maximal
/// next-state action value.
pub struct QTD0 {
    table: QTable,
    gamma: Rat,
    t: usize,
    c: Rat,
    eta: u32,
}

impl QTD0 {
    /// The action-value table.
    pub closed spec fn table_spec(&self) -> Map<(usize, usize), (int, int)> {
        self.table@
    }

    /// The discount factor.
    pub closed spec fn gamma_spec(&self) -> (int, int) {
        self.gamma@
    }

    /// The step counter `t`, reset at episode boundaries by the driver.
    pub closed spec fn count_spec(&self) -> int {
        self.t as int
    }

    /// The learning-rate coefficient `c`.
    pub closed spec fn c_spec(&self) -> (int, int) {
        self.c@
    }

    /// The learning-rate exponent `eta` of `alpha = c * (t + 1)^(-eta)`.
    pub closed spec fn eta_spec(&self) -> int {
        self.eta as int
    }

    /// A fresh agent with an empty table and the step counter at zero.
    /// The learning rate is `c * (t + 1)^(-eta)` with a natural `eta`.
    pub fn new(gamma: Rat, c: Rat, eta: u32) -> (r: QTD0)
        ensures
            r.table_spec() == Map::<(usize, usize), (int, int)>::empty(),
            r.gamma_spec() == gamma@,
            r.c_spec() == c@,
            r.eta_spec() == eta as int,
            r.count_spec() == 0,
    {
        QTD0 { table: QTable::new(), gamma, t: 0, c, eta }
    }

    /// Overwrite the stored value of one (state, action) pair.
    pub fn update_value(&mut self, state: usize, action: usize, value: Rat)
        ensures
            final(self).table_spec() == old(self).table_spec().insert((state, action), value@),
            final(self).gamma_spec() == old(self).gamma_spec(),
            final(self).c_spec() == old(self).c_spec(),
            final(self).eta_spec() == old(self).eta_spec(),
            final(self).count_spec() == old(self).count_spec(),
    {
        self.table.set(state, action, value);
    }

    /// Add `value` to the stored value of one (state, action) pair.
    /// Fails, leaving the agent unchanged, exactly when the raw sum leaves
    /// the representable range.
    pub fn add_value(&mut self, state: usize, action: usize, value: Rat) -> (r: Result<
        (),
        UpdateError,
    >)
        ensures
            final(self).gamma_spec() == old(self).gamma_spec(),
            final(self).c_spec() == old(self).c_spec(),
            final(self).eta_spec() == old(self).eta_spec(),
            final(self).count_spec() == old(self).count_spec(),
            r is Ok <==> q_fits(
                q_add(q_lookup(old(self).table_spec(), state, action), value@),
            ),
            r is Ok ==> final(self).table_spec() == old(self).table_spec().insert(
                (state, action),
                q_add(q_lookup(old(self).table_spec(), state, action), value@),
            ),
            r is Err ==> final(self).table_spec() == old(self).table_spec() && r == Err::<
                (),
                UpdateError,
            >(UpdateError::OutOfRange),
    {
        let old_v = self.table.get(state, action);
        match old_v.checked_add(&value) {
            Some(nv) => {
                self.table.set(state, action, nv);
                Ok(())
            },
            None => Err(UpdateError::OutOfRange),
        }
    }

    /// Advance the step counter.
    pub fn increment_count(&mut self)
        requires
            old(self).count_spec() < usize::MAX,
        ensures
            final(self).count_spec() == old(self).count_spec() + 1,
            final(self).table_spec() == old(self).table_spec(),
            final(self).gamma_spec() == old(self).gamma_spec(),
            final(self).c_spec() == old(self).c_spec(),
            final(self).eta_spec() == old(self).eta_spec(),
    {
        self.t += 1;
    }

    /// Reset the step counter, as the driver does at episode boundaries.
    pub fn reset_count(&mut self)
        ensures
            final(self).count_spec() == 0,
            final(self).table_spec() == old(self).table_spec(),
            final(self).gamma_spec() == old(self).gamma_spec(),
            final(self).c_spec() == old(self).c_spec(),
            final(self).eta_spec() == old(self).eta_spec(),
    {
        self.t = 0;
    }

    /// The current learning rate `c * (t + 1)^(-eta)`, exactly. `None`
    /// exactly when its denominator leaves the representable range.
    pub fn get_alpha(&self) -> (r: Option<Rat>)
        ensures
            r matches Some(al) ==> al@ == alpha_spec(
                self.c_spec(),
                self.count_spec(),
                self.eta_spec(),
            ),
            r is Some <==> alpha_fits(self.c_spec(), self.count_spec(), self.eta_spec()),
    {
        td_alpha(&self.c, self.t, self.eta)
    }

    /// The stored value of `(state, action)`; exactly zero for a pair never
    /// written.
    pub fn get_action_value(&self, state: usize, action: usize) -> (r: Rat)
        ensures
            r@ == q_lookup(self.table_spec(), state, action),
    {
        self.table.get(state, action)
    }

    /// The written entries of the action-value table, in insertion order,
    /// for reporting by a driver.
    pub fn entries(&self) -> (r: &Vec<((usize, usize), Rat)>)
        ensures
            r@.len() == self.table_spec().dom().len(),
            forall|i: int|
                0 <= i < r@.len() ==> self.table_spec().contains_key(#[trigger] r@[i].0)
                    && self.table_spec()[r@[i].0] == r@[i].1@,
            forall|k: (usize, usize)|
                self.table_spec().contains_key(k) ==> exists|i: int|
                    0 <= i < r@.len() && r@[i].0 == k,
    {
        self.table.entries()
    }

    /// Score each available action by its stored value and let the policy
    /// choose. `None` exactly when the state has no legal action.
    pub fn select_action<P: Policy, E: Env>(&self, state: usize, policy: &mut P, env: &E) -> (r:
        Option<usize>)
        requires
            env.wf(),
            env.state_ok(state),
        ensures
            *final(policy) == *old(policy),
            r is Some <==> env.avail_spec(state).len() > 0,
            r matches Some(a) ==> is_candidate(
                q_candidates(self.table_spec(), state, env.avail_spec(state)),
                a,
            ),
            old(policy).exploits() ==> (r matches Some(a) ==> old(policy).greedy_choice(
                q_candidates(self.table_spec(), state, env.avail_spec(state)),
                a,
            )),
    {
        let actions = env.available_actions(state);
        let cands = q_score(&self.table, state, &actions);
        proof {
            assert(cands_view(cands@).len() == cands@.len());
            assert(q_candidates(self.table_spec(), state, env.avail_spec(state)).len()
                == env.avail_spec(state).len());
        }
        policy.select_action(&cands)
    }

    /// The TD(0) update for one transition `(s, a, reward, next, pool)`.
    /// With a next state, the bootstrapped target `reward + gamma * maxQ`
    /// is added to the entry scaled by alpha, the old estimate not
    /// subtracted; the max is taken over `pool` with ties broken uniformly
    /// at random (tied entries are equal in value, so the written value
    /// does not depend on the draw's outcome beyond its representative).
    /// Without a next state, `alpha * (reward - oldQ)` is added. On
    /// success the step counter advances; a failure leaves the agent
    /// unchanged.
    pub fn update(&mut self, info: &(usize, usize, Rat, Option<usize>, Vec<usize>)) -> (r: Result<
        (),
        UpdateError,
    >)
        requires
            old(self).count_spec() < usize::MAX,
            info.3 is Some ==> info.4@.len() > 0,
        ensures
            final(self).gamma_spec() == old(self).gamma_spec(),
            final(self).c_spec() == old(self).c_spec(),
            final(self).eta_spec() == old(self).eta_spec(),
            r is Ok ==> final(self).count_spec() == old(self).count_spec() + 1,
            r is Err ==> final(self).count_spec() == old(self).count_spec() && final(self).table_spec() == old(self).table_spec() && r == Err::<(), UpdateError>(
                UpdateError::OutOfRange,
            ),
            r is Ok ==> alpha_fits(old(self).c_spec(), old(self).count_spec(), old(self).eta_spec()),
            info.3 is None ==> (r is Ok <==> (alpha_fits(
                old(self).c_spec(),
                old(self).count_spec(),
                old(self).eta_spec(),
            ) && td_term_ok(
                q_lookup(old(self).table_spec(), info.0, info.1),
                info.2@,
                alpha_spec(old(self).c_spec(), old(self).count_spec(), old(self).eta_spec()),
            ))),
            (info.3 is None && r is Ok) ==> final(self).table_spec() == old(self).table_spec().insert(
                (info.0, info.1),
                td_term_step(
                    q_lookup(old(self).table_spec(), info.0, info.1),
                    info.2@,
                    alpha_spec(old(self).c_spec(), old(self).count_spec(), old(self).eta_spec()),
                ),
            ),
            info.3 matches Some(s2) ==> ((alpha_fits(
                old(self).c_spec(),
                old(self).count_spec(),
                old(self).eta_spec(),
            ) && forall|j: int|
                q_max_at(old(self).table_spec(), s2, info.4@, j) ==> td_step_ok(
                    q_lookup(old(self).table_spec(), info.0, info.1),
                    info.2@,
                    old(self).gamma_spec(),
                    q_lookup(old(self).table_spec(), s2, info.4@[j]),
                    alpha_spec(old(self).c_spec(), old(self).count_spec(), old(self).eta_spec()),
                )) ==> r is Ok),
            info.3 matches Some(s2) ==> (r is Ok ==> exists|j: int|
                q_max_at(old(self).table_spec(), s2, info.4@, j) && final(self).table_spec() == old(self).table_spec().insert(
                    (info.0, info.1),
                    td_step(
                        q_lookup(old(self).table_spec(), info.0, info.1),
                        info.2@,
                        old(self).gamma_spec(),
                        q_lookup(old(self).table_spec(), s2, info.4@[j]),
                        alpha_spec(
                            old(self).c_spec(),
                            old(self).count_spec(),
                            old(self).eta_spec(),
                        ),
                    ),
                )),
    {
        let alpha = match self.get_alpha() {
            Some(x) => x,
            None => {
                return Err(UpdateError::OutOfRange);
            },
        };
        match &info.3 {
            Some(s2ref) => {
                let s2 = *s2ref;
                let cands = q_score(&self.table, s2, &info.4);
                proof {
                    assert(cands_view(cands@).len() == cands@.len());
                }
                let ties = max_tie_set(&cands);
                let chosen = match pick_uniform(&ties) {
                    Some(x) => x,
                    None => {
                        // The tie set of a non-empty pool is never empty.
                        proof {
                            assert(false);
                        }
                        return Err(UpdateError::OutOfRange);
                    },
                };
                let ghost tab = self.table@;
                let ghost pool = info.4@;
                let ghost jj: int = choose|j: int|
                    0 <= j < cands_view(cands@).len() && cands_view(cands@)[j].0 == chosen
                        && crate::policy::is_maximal_at(cands_view(cands@), j);
                proof {
                    assert(crate::policy::is_max_choice(cands_view(cands@), chosen));
                    assert(cands_view(cands@)[jj].1 == q_lookup(tab, s2, pool[jj]));
                    assert(pool[jj] == chosen);
                    assert forall|i: int| 0 <= i < pool.len() implies q_le(
                        q_lookup(tab, s2, #[trigger] pool[i]),
                        q_lookup(tab, s2, pool[jj]),
                    ) by {
                        assert(cands_view(cands@)[i].1 == q_lookup(tab, s2, pool[i]));
                    }
                    assert(q_max_at(tab, s2, pool, jj));
                }
                let qn = self.table.get(s2, chosen);
                let ghost al = alpha@;
                let ghost vold_s = q_lookup(tab, info.0, info.1);
                let ghost qnj = q_lookup(tab, s2, pool[jj]);
                let ghost rws = info.2@;
                proof {
                    assert(qn@ == qnj);
                }
                let prod = match self.gamma.checked_mul(&qn) {
                    Some(x) => x,
                    None => {
                        proof {
                            assert(q_max_at(old(self).table_spec(), s2, info.4@, jj));
                            assert(info.4@[jj] == pool[jj]);
                            assert(!td_step_ok(
                                q_lookup(old(self).table_spec(), info.0, info.1),
                                info.2@,
                                old(self).gamma_spec(),
                                q_lookup(old(self).table_spec(), s2, info.4@[jj]),
                                alpha_spec(
                                    old(self).c_spec(),
                                    old(self).count_spec(),
                                    old(self).eta_spec(),
                                ),
                            ));
                        }
                        return Err(UpdateError::OutOfRange);
                    },
                };
                let target = match info.2.checked_add(&prod) {
                    Some(x) => x,
                    None => {
                        proof {
                            assert(q_max_at(old(self).table_spec(), s2, info.4@, jj));
                            assert(info.4@[jj] == pool[jj]);
                            assert(!td_step_ok(
                                q_lookup(old(self).table_spec(), info.0, info.1),
                                info.2@,
                                old(self).gamma_spec(),
                                q_lookup(old(self).table_spec(), s2, info.4@[jj]),
                                alpha_spec(
                                    old(self).c_spec(),
                                    old(self).count_spec(),
                                    old(self).eta_spec(),
                                ),
                            ));
                        }
                        return Err(UpdateError::OutOfRange);
                    },
                };
                let scaled = match target.checked_mul(&alpha) {
                    Some(x) => x,
                    None => {
                        proof {
                            assert(q_max_at(old(self).table_spec(), s2, info.4@, jj));
                            assert(info.4@[jj] == pool[jj]);
                            assert(!td_step_ok(
                                q_lookup(old(self).table_spec(), info.0, info.1),
                                info.2@,
                                old(self).gamma_spec(),
                                q_lookup(old(self).table_spec(), s2, info.4@[jj]),
                                alpha_spec(
                                    old(self).c_spec(),
                                    old(self).count_spec(),
                                    old(self).eta_spec(),
                                ),
                            ));
                        }
                        return Err(UpdateError::OutOfRange);
                    },
                };
                let ghost g_old = self.gamma@;
                match self.add_value(info.0, info.1, scaled) {
                    Ok(()) => {},
                    Err(e) => {
                        proof {
                            assert(q_max_at(old(self).table_spec(), s2, info.4@, jj));
                            assert(info.4@[jj] == pool[jj]);
                            assert(!td_step_ok(
                                q_lookup(old(self).table_spec(), info.0, info.1),
                                info.2@,
                                old(self).gamma_spec(),
                                q_lookup(old(self).table_spec(), s2, info.4@[jj]),
                                alpha_spec(
                                    old(self).c_spec(),
                                    old(self).count_spec(),
                                    old(self).eta_spec(),
                                ),
                            ));
                        }
                        return Err(e);
                    },
                }
                self.increment_count();
                proof {
                    assert(q_max_at(tab, s2, pool, jj));
                    assert(self.table@ == tab.insert(
                        (info.0, info.1),
                        td_step(vold_s, rws, g_old, qnj, al),
                    ));
                }
                Ok(())
            },
            None => {
                let vold = self.table.get(info.0, info.1);
                let diff = match info.2.checked_sub(&vold) {
                    Some(x) => x,
                    None => {
                        return Err(UpdateError::OutOfRange);
                    },
                };
                let scaled = match diff.checked_mul(&alpha) {
                    Some(x) => x,
                    None => {
                        return Err(UpdateError::OutOfRange);
                    },
                };
                match self.add_value(info.0, info.1, scaled) {
                    Ok(()) => {},
                    Err(e) => {
                        return Err(e);
                    },
                }
                self.increment_count();
                Ok(())
            },
        }
    }
}

/// Action-value agent: one-step TD(0) bootstrapping on the minimal
/// next-state action value (for cost-minimising formulations).
pub struct QTD0Min {
    table: QTable,
    gamma: Rat,
    t: usize,
    c: Rat,
    eta: u32,
}

impl QTD0Min {
    /// The action-value table.
    pub closed spec fn table_spec(&self) -> Map<(usize, usize), (int, int)> {
        self.table@
    }

    /// The discount factor.
    pub closed spec fn gamma_spec(&self) -> (int, int) {
        self.gamma@
    }

    /// The step counter `t`, reset at episode boundaries by the driver.
    pub closed spec fn count_spec(&self) -> int {
        self.t as int
    }

    /// The learning-rate coefficient `c`.
    pub closed spec fn c_spec(&self) -> (int, int) {
        self.c@
    }

    /// The learning-rate exponent `eta` of `alpha = c * (t + 1)^(-eta)`.
    pub closed spec fn eta_spec(&self) -> int {
        self.eta as int
    }

    /// A fresh agent with an empty table and the step counter at zero.
    /// The learning rate is `c * (t + 1)^(-eta)` with a natural `eta`.
    pub fn new(gamma: Rat, c: Rat, eta: u32) -> (r: QTD0Min)
        ensures
            r.table_spec() == Map::<(usize, usize), (int, int)>::empty(),
            r.gamma_spec() == gamma@,
            r.c_spec() == c@,
            r.eta_spec() == eta as int,
            r.count_spec() == 0,
    {
        QTD0Min { table: QTable::new(), gamma, t: 0, c, eta }
    }

    /// Overwrite the stored value of one (state, action) pair.
    pub fn update_value(&mut self, state: usize, action: usize, value: Rat)
        ensures
            final(self).table_spec() == old(self).table_spec().insert((state, action), value@),
            final(self).gamma_spec() == old(self).gamma_spec(),
            final(self).c_spec() == old(self).c_spec(),
            final(self).eta_spec() == old(self).eta_spec(),
            final(self).count_spec() == old(self).count_spec(),
    {
        self.table.set(state, action, value);
    }

    /// Add `value` to the stored value of one (state, action) pair.
    /// Fails, leaving the agent unchanged, exactly when the raw sum leaves
    /// the representable range.
    pub fn add_value(&mut self, state: usize, action: usize, value: Rat) -> (r: Result<
        (),
        UpdateError,
    >)
        ensures
            final(self).gamma_spec() == old(self).gamma_spec(),
            final(self).c_spec() == old(self).c_spec(),
            final(self).eta_spec() == old(self).eta_spec(),
            final(self).count_spec() == old(self).count_spec(),
            r is Ok <==> q_fits(
                q_add(q_lookup(old(self).table_spec(), state, action), value@),
            ),
            r is Ok ==> final(self).table_spec() == old(self).table_spec().insert(
                (state, action),
                q_add(q_lookup(old(self).table_spec(), state, action), value@),
            ),
            r is Err ==> final(self).table_spec() == old(self).table_spec() && r == Err::<
                (),
                UpdateError,
            >(UpdateError::OutOfRange),
    {
        let old_v = self.table.get(state, action);
        match old_v.checked_add(&value) {
            Some(nv) => {
                self.table.set(state, action, nv);
                Ok(())
            },
            None => Err(UpdateError::OutOfRange),
        }
    }

    /// Advance the step counter.
    pub fn increment_count(&mut self)
        requires
            old(self).count_spec() < usize::MAX,
        ensures
            final(self).count_spec() == old(self).count_spec() + 1,
            final(self).table_spec() == old(self).table_spec(),
            final(self).gamma_spec() == old(self).gamma_spec(),
            final(self).c_spec() == old(self).c_spec(),
            final(self).eta_spec() == old(self).eta_spec(),
    {
        self.t += 1;
    }

    /// Reset the step counter, as the driver does at episode boundaries.
    pub fn reset_count(&mut self)
        ensures
            final(self).count_spec() == 0,
            final(self).table_spec() == old(self).table_spec(),
            final(self).gamma_spec() == old(self).gamma_spec(),
            final(self).c_spec() == old(self).c_spec(),
            final(self).eta_spec() == old(self).eta_spec(),
    {
        self.t = 0;
    }

    /// The current learning rate `c * (t + 1)^(-eta)`, exactly. `None`
    /// exactly when its denominator leaves the representable range.
    pub fn get_alpha(&self) -> (r: Option<Rat>)
        ensures
            r matches Some(al) ==> al@ == alpha_spec(
                self.c_spec(),
                self.count_spec(),
                self.eta_spec(),
            ),
            r is Some <==> alpha_fits(self.c_spec(), self.count_spec(), self.eta_spec()),
    {
        td_alpha(&self.c, self.t, self.eta)
    }

    /// The stored value of `(state, action)`; exactly zero for a pair never
    /// written.
    pub fn get_action_value(&self, state: usize, action: usize) -> (r: Rat)
        ensures
            r@ == q_lookup(self.table_spec(), state, action),
    {
        self.table.get(state, action)
    }

    /// The written entries of the action-value table, in insertion order,
    /// for reporting by a driver.
    pub fn entries(&self) -> (r: &Vec<((usize, usize), Rat)>)
        ensures
            r@.len() == self.table_spec().dom().len(),
            forall|i: int|
                0 <= i < r@.len() ==> self.table_spec().contains_key(#[trigger] r@[i].0)
                    && self.table_spec()[r@[i].0] == r@[i].1@,
            forall|k: (usize, usize)|
                self.table_spec().contains_key(k) ==> exists|i: int|
                    0 <= i < r@.len() && r@[i].0 == k,
    {
        self.table.entries()
    }

    /// Score each available action by its stored value and let the policy
    /// choose. `None` exactly when the state has no legal action.
    pub fn select_action<P: Policy, E: Env>(&self, state: usize, policy: &mut P, env: &E) -> (r:
        Option<usize>)
        requires
            env.wf(),
            env.state_ok(state),
        ensures
            *final(policy) == *old(policy),
            r is Some <==> env.avail_spec(state).len() > 0,
            r matches Some(a) ==> is_candidate(
                q_candidates(self.table_spec(), state, env.avail_spec(state)),
                a,
            ),
            old(policy).exploits() ==> (r matches Some(a) ==> old(policy).greedy_choice(
                q_candidates(self.table_spec(), state, env.avail_spec(state)),
                a,
            )),
    {
        let actions = env.available_actions(state);
        let cands = q_score(&self.table, state, &actions);
        proof {
            assert(cands_view(cands@).len() == cands@.len());
            assert(q_candidates(self.table_spec(), state, env.avail_spec(state)).len()
                == env.avail_spec(state).len());
        }
        policy.select_action(&cands)
    }

    /// The TD(0) update for one transition `(s, a, reward, next, pool)`.
    /// With a next state, the bootstrapped target `reward + gamma * minQ`
    /// is added to the entry scaled by alpha, the old estimate not
    /// subtracted; the min is taken over `pool` with ties broken uniformly
    /// at random (tied entries are equal in value, so the written value
    /// does not depend on the draw's outcome beyond its representative).
    /// Without a next state, `alpha * (reward - oldQ)` is added. On
    /// success the step counter advances; a failure leaves the agent
    /// unchanged.
    pub fn update(&mut self, info: &(usize, usize, Rat, Option<usize>, Vec<usize>)) -> (r: Result<
        (),
        UpdateError,
    >)
        requires
            old(self).count_spec() < usize::MAX,
            info.3 is Some ==> info.4@.len() > 0,
        ensures
            final(self).gamma_spec() == old(self).gamma_spec(),
            final(self).c_spec() == old(self).c_spec(),
            final(self).eta_spec() == old(self).eta_spec(),
            r is Ok ==> final(self).count_spec() == old(self).count_spec() + 1,
            r is Err ==> final(self).count_spec() == old(self).count_spec() && final(self).table_spec() == old(self).table_spec() && r == Err::<(), UpdateError>(
                UpdateError::OutOfRange,
            ),
            r is Ok ==> alpha_fits(old(self).c_spec(), old(self).count_spec(), old(self).eta_spec()),
            info.3 is None ==> (r is Ok <==> (alpha_fits(
                old(self).c_spec(),
                old(self).count_spec(),
                old(self).eta_spec(),
            ) && td_term_ok(
                q_lookup(old(self).table_spec(), info.0, info.1),
                info.2@,
                alpha_spec(old(self).c_spec(), old(self).count_spec(), old(self).eta_spec()),
            ))),
            (info.3 is None && r is Ok) ==> final(self).table_spec() == old(self).table_spec().insert(
                (info.0, info.1),
                td_term_step(
                    q_lookup(old(self).table_spec(), info.0, info.1),
                    info.2@,
                    alpha_spec(old(self).c_spec(), old(self).count_spec(), old(self).eta_spec()),
                ),
            ),
            info.3 matches Some(s2) ==> ((alpha_fits(
                old(self).c_spec(),
                old(self).count_spec(),
                old(self).eta_spec(),
            ) && forall|j: int|
                q_min_at(old(self).table_spec(), s2, info.4@, j) ==> td_step_ok(
                    q_lookup(old(self).table_spec(), info.0, info.1),
                    info.2@,
                    old(self).gamma_spec(),
                    q_lookup(old(self).table_spec(), s2, info.4@[j]),
                    alpha_spec(old(self).c_spec(), old(self).count_spec(), old(self).eta_spec()),
                )) ==> r is Ok),
            info.3 matches Some(s2) ==> (r is Ok ==> exists|j: int|
                q_min_at(old(self).table_spec(), s2, info.4@, j) && final(self).table_spec() == old(self).table_spec().insert(
                    (info.0, info.1),
                    td_step(
                        q_lookup(old(self).table_spec(), info.0, info.1),
                        info.2@,
                        old(self).gamma_spec(),
                        q_lookup(old(self).table_spec(), s2, info.4@[j]),
                        alpha_spec(
                            old(self).c_spec(),
                            old(self).count_spec(),
                            old(self).eta_spec(),
                        ),
                    ),
                )),
    {
        let alpha = match self.get_alpha() {
            Some(x) => x,
            None => {
                return Err(UpdateError::OutOfRange);
            },
        };
        match &info.3 {
            Some(s2ref) => {
                let s2 = *s2ref;
                let cands = q_score(&self.table, s2, &info.4);
                proof {
                    assert(cands_view(cands@).len() == cands@.len());
                }
                let ties = min_tie_set(&cands);
                let chosen = match pick_uniform(&ties) {
                    Some(x) => x,
                    None => {
                        // The tie set of a non-empty pool is never empty.
                        proof {
                            assert(false);
                        }
                        return Err(UpdateError::OutOfRange);
                    },
                };
                let ghost tab = self.table@;
                let ghost pool = info.4@;
                let ghost jj: int = choose|j: int|
                    0 <= j < cands_view(cands@).len() && cands_view(cands@)[j].0 == chosen
                        && crate::policy::is_minimal_at(cands_view(cands@), j);
                proof {
                    assert(crate::policy::is_min_choice(cands_view(cands@), chosen));
                    assert(cands_view(cands@)[jj].1 == q_lookup(tab, s2, pool[jj]));
                    assert(pool[jj] == chosen);
                    assert forall|i: int| 0 <= i < pool.len() implies q_le(
                        q_lookup(tab, s2, pool[jj]),
                        q_lookup(tab, s2, #[trigger] pool[i]),
                    ) by {
                        assert(cands_view(cands@)[i].1 == q_lookup(tab, s2, pool[i]));
                    }
                    assert(q_min_at(tab, s2, pool, jj));
                }
                let qn = self.table.get(s2, chosen);
                let ghost al = alpha@;
                let ghost vold_s = q_lookup(tab, info.0, info.1);
                let ghost qnj = q_lookup(tab, s2, pool[jj]);
                let ghost rws = info.2@;
                proof {
                    assert(qn@ == qnj);
                }
                let prod = match self.gamma.checked_mul(&qn) {
                    Some(x) => x,
                    None => {
                        proof {
                            assert(q_min_at(old(self).table_spec(), s2, info.4@, jj));
                            assert(info.4@[jj] == pool[jj]);
                            assert(!td_step_ok(
                                q_lookup(old(self).table_spec(), info.0, info.1),
                                info.2@,
                                old(self).gamma_spec(),
                                q_lookup(old(self).table_spec(), s2, info.4@[jj]),
                                alpha_spec(
                                    old(self).c_spec(),
                                    old(self).count_spec(),
                                    old(self).eta_spec(),
                                ),
                            ));
                        }
                        return Err(UpdateError::OutOfRange);
                    },
                };
                let target = match info.2.checked_add(&prod) {
                    Some(x) => x,
                    None => {
                        proof {
                            assert(q_min_at(old(self).table_spec(), s2, info.4@, jj));
                            assert(info.4@[jj] == pool[jj]);
                            assert(!td_step_ok(
                                q_lookup(old(self).table_spec(), info.0, info.1),
                                info.2@,
                                old(self).gamma_spec(),
                                q_lookup(old(self).table_spec(), s2, info.4@[jj]),
                                alpha_spec(
                                    old(self).c_spec(),
                                    old(self).count_spec(),
                                    old(self).eta_spec(),
                                ),
                            ));
                        }
                        return Err(UpdateError::OutOfRange);
                    },
                };
                let scaled = match target.checked_mul(&alpha) {
                    Some(x) => x,
                    None => {
                        proof {
                            assert(q_min_at(old(self).table_spec(), s2, info.4@, jj));
                            assert(info.4@[jj] == pool[jj]);
                            assert(!td_step_ok(
                                q_lookup(old(self).table_spec(), info.0, info.1),
                                info.2@,
                                old(self).gamma_spec(),
                                q_lookup(old(self).table_spec(), s2, info.4@[jj]),
                                alpha_spec(
                                    old(self).c_spec(),
                                    old(self).count_spec(),
                                    old(self).eta_spec(),
                                ),
                            ));
                        }
                        return Err(UpdateError::OutOfRange);
                    },
                };
                let ghost g_old = self.gamma@;
                match self.add_value(info.0, info.1, scaled) {
                    Ok(()) => {},
                    Err(e) => {
                        proof {
                            assert(q_min_at(old(self).table_spec(), s2, info.4@, jj));
                            assert(info.4@[jj] == pool[jj]);
                            assert(!td_step_ok(
                                q_lookup(old(self).table_spec(), info.0, info.1),
                                info.2@,
                                old(self).gamma_spec(),
                                q_lookup(old(self).table_spec(), s2, info.4@[jj]),
                                alpha_spec(
                                    old(self).c_spec(),
                                    old(self).count_spec(),
                                    old(self).eta_spec(),
                                ),
                            ));
                        }
                        return Err(e);
                    },
                }
                self.increment_count();
                proof {
                    assert(q_min_at(tab, s2, pool, jj));
                    assert(self.table@ == tab.insert(
                        (info.0, info.1),
                        td_step(vold_s, rws, g_old, qnj, al),
                    ));
                }
                Ok(())
            },
            None => {
                let vold = self.table.get(info.0, info.1);
                let diff = match info.2.checked_sub(&vold) {
                    Some(x) => x,
                    None => {
                        return Err(UpdateError::OutOfRange);
                    },
                };
                let scaled = match diff.checked_mul(&alpha) {
                    Some(x) => x,
                    None => {
                        return Err(UpdateError::OutOfRange);
                    },
                };
                match self.add_value(info.0, info.1, scaled) {
                    Ok(()) => {},
                    Err(e) => {
                        return Err(e);
                    },
                }
                self.increment_count();
                Ok(())
            },
        }
    }
}

/// The learning rate `c * (t + 1)^(-eta)` of the TD(0) agents, exactly.
fn td_alpha(c: &Rat, t: usize, eta: u32) -> (r: Option<Rat>)
    ensures
        r matches Some(al) ==> al@ == alpha_spec(c@, t as int, eta as int),
        r is Some <==> alpha_fits(c@, t as int, eta as int),
{
    proof {
        use_type_invariant(&*c);
    }
    let c_num = c.num();
    let c_den = c.den();
    if eta == 0 {
        proof {
            vstd::arithmetic::power::lemma_pow0(t as int + 1);
        }
        return Some(Rat::new(c_num, c_den));
    }
    if t as u128 >= i64::MAX as u128 {
        proof {
            lemma_alpha_base_unfit(c_den as int, t as int + 1, eta as nat);
        }
        return None;
    }
    let base: i64 = (t as i64) + 1;
    let mut acc: i64 = c_den;
    let mut j: u32 = 0;
    proof {
        vstd::arithmetic::power::lemma_pow0(base as int);
    }
    while j < eta
        invariant
            1 <= base <= i64::MAX,
            base == t as int + 1,
            c_den == c@.1,
            c_den >= 1,
            0 <= j <= eta,
            acc == c@.1 * vstd::arithmetic::power::pow(base as int, j as nat),
            acc >= 1,
        decreases eta - j,
    {
        proof {
            assert((acc as i128) as int == acc as int);
            assert((base as i128) as int == base as int);
            assert((acc as int) * (base as int) <= 0x7fffffffffffffff * 0x7fffffffffffffff)
                by (nonlinear_arith)
                requires
                    1 <= (acc as int) <= 0x7fffffffffffffff,
                    1 <= (base as int) <= 0x7fffffffffffffff,
            ;
            assert((acc as int) * (base as int) >= 1) by (nonlinear_arith)
                requires
                    1 <= (acc as int),
                    1 <= (base as int),
            ;
        }
        let prod: i128 = (acc as i128) * (base as i128);
        if prod > i64::MAX as i128 {
            proof {
                lemma_alpha_step_unfit(c@.1, base as int, j as nat, eta as nat);
            }
            return None;
        }
        proof {
            vstd::arithmetic::power::lemma_pow_adds(base as int, j as nat, 1nat);
            vstd::arithmetic::power::lemma_pow1(base as int);
            assert(vstd::arithmetic::power::pow(base as int, (j + 1) as nat)
                == vstd::arithmetic::power::pow(base as int, j as nat) * (base as int));
            assert(c@.1 * (vstd::arithmetic::power::pow(base as int, j as nat) * (base as int)) == (
            c@.1 * vstd::arithmetic::power::pow(base as int, j as nat)) * (base as int))
                by (nonlinear_arith);
        }
        acc = prod as i64;
        j += 1;
    }
    Some(Rat::new(c_num, acc))
}

/// Build the candidate list of an action-value agent: each action in
/// `actions`, paired with its stored value at `state`.
fn q_score(table: &QTable, state: usize, actions: &Vec<usize>) -> (r: Vec<(usize, Rat)>)
    ensures
        cands_wf(r@),
        cands_view(r@) == q_candidates(table@, state, actions@),
{
    let m = actions.len();
    let mut cands: Vec<(usize, Rat)> = Vec::new();
    let mut i: usize = 0;
    while i < m
        invariant
            m == actions@.len(),
            0 <= i <= m,
            cands_wf(cands@),
            cands_view(cands@) == q_candidates(table@, state, actions@.take(i as int)),
        decreases m - i,
    {
        let a = actions[i];
        let v = table.get(state, a);
        let ghost before = cands@;
        proof {
            use_type_invariant(&v);
        }
        cands.push((a, v));
        proof {
            assert(cands_view(cands@) =~= cands_view(before).push((a as usize, v@)));
            assert(cands_view(cands@) =~= q_candidates(table@, state, actions@.take(i + 1)));
        }
        i += 1;
    }
    proof {
        assert(actions@.take(m as int) =~= actions@);
    }
    cands
}

} // verus!
