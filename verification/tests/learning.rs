//! Tests of the agents and policies: cold starts, the Monte-Carlo and
//! TD(0) update rules with exact expected values, epsilon decay, and the
//! greedy behaviour of the policies with exploration disabled.

use rlai2::EGreedyPolicy;
use rlai2::EGreedyPolicyMin;
use rlai2::Env;
use rlai2::LineWorld;
use rlai2::Policy;
use rlai2::QEveryVisitMC;
use rlai2::QTD0;
use rlai2::QTD0Min;
use rlai2::Rat;
use rlai2::UpdateError;
use rlai2::VEveryVisitMC;

fn rat(n: i64, d: i64) -> Rat {
    Rat::new(n, d)
}

#[test]
fn unwritten_values_are_exactly_zero() {
    let v = VEveryVisitMC::new(rat(9, 10), 1);
    assert!(v.get_value(42).equal_to(&rat(0, 1)));
    let q = QEveryVisitMC::new(rat(9, 10), 1);
    assert!(q.get_action_value(42, 3).equal_to(&rat(0, 1)));
    let td = QTD0::new(rat(9, 10), rat(1, 10), 0);
    assert!(td.get_action_value(0, 0).equal_to(&rat(0, 1)));
    let tdm = QTD0Min::new(rat(9, 10), rat(1, 10), 0);
    assert!(tdm.get_action_value(0, 0).equal_to(&rat(0, 1)));
}

#[test]
fn empty_episode_is_a_fatal_usage_error() {
    let mut v = VEveryVisitMC::new(rat(9, 10), 1);
    assert_eq!(v.update(&vec![]), Err(UpdateError::EmptyEpisode));
    let mut q = QEveryVisitMC::new(rat(9, 10), 1);
    assert_eq!(q.update(&vec![]), Err(UpdateError::EmptyEpisode));
}

// The backward scan over rewards [1, 1, 1] with discount 1/2 yields the
// returns 7/4, 3/2 and 1; with one visit per state and K = 1 the step
// sizes are 1, 1/2 and 1/3.
#[test]
fn mc_returns_follow_the_backward_scan() {
    let mut v = VEveryVisitMC::new(rat(1, 2), 1);
    let episode = vec![(0usize, rat(1, 1)), (1usize, rat(1, 1)), (2usize, rat(1, 1))];
    assert_eq!(v.update(&episode), Ok(()));
    assert!(v.get_value(0).equal_to(&rat(7, 4)));
    assert!(v.get_value(1).equal_to(&rat(3, 4)));
    assert!(v.get_value(2).equal_to(&rat(1, 3)));
}

// Three visits of one state in one episode produce three writes, each with
// its own step size 1/(t + 1): the stored value walks 3, 5/2, 2.
#[test]
fn mc_every_visit_updates_once_per_step() {
    let mut v = VEveryVisitMC::new(rat(1, 1), 1);
    let episode = vec![(0usize, rat(1, 1)), (0usize, rat(1, 1)), (0usize, rat(1, 1))];
    assert_eq!(v.update(&episode), Ok(()));
    assert!(v.get_value(0).equal_to(&rat(2, 1)));
}

// The same schedule with the constant K = 5: alpha(0) = 1 would become
// 5/5, alpha(1) = 5/6, alpha(2) = 5/7.
#[test]
fn mc_step_size_constant_is_configurable() {
    let mut v = VEveryVisitMC::new(rat(0, 1), 5);
    let episode = vec![(0usize, rat(7, 1)), (1usize, rat(7, 1))];
    assert_eq!(v.update(&episode), Ok(()));
    // state 0 at t = 0: 0 + 5/5 * (7 - 0) = 7
    assert!(v.get_value(0).equal_to(&rat(7, 1)));
    // state 1 at t = 1: 0 + 5/6 * (7 - 0) = 35/6
    assert!(v.get_value(1).equal_to(&rat(35, 6)));
}

#[test]
fn mc_q_episode_updates_pairs() {
    let mut q = QEveryVisitMC::new(rat(1, 2), 1);
    let episode = vec![
        (0usize, 0usize, rat(0, 1)),
        (1usize, 1usize, rat(0, 1)),
        (2usize, 0usize, rat(1, 1)),
    ];
    assert_eq!(q.update(&episode), Ok(()));
    // Returns: 1/4, 1/2, 1; alphas: 1, 1/2, 1/3.
    assert!(q.get_action_value(0, 0).equal_to(&rat(1, 4)));
    assert!(q.get_action_value(1, 1).equal_to(&rat(1, 4)));
    assert!(q.get_action_value(2, 0).equal_to(&rat(1, 3)));
    assert!(q.get_action_value(0, 1).equal_to(&rat(0, 1)));
}

// A single non-terminal TD(0) step with reward 1, gamma 9/10, alpha 1/10
// and next-state maximal value 2 writes 0.1 * (1 + 0.9 * 2) = 0.28, the
// old estimate not subtracted.
#[test]
fn td0_nonterminal_step_adds_bootstrapped_target() {
    let mut td = QTD0::new(rat(9, 10), rat(1, 10), 0);
    td.update_value(5, 0, rat(2, 1));
    let info = (0usize, 0usize, rat(1, 1), Some(5usize), vec![0usize]);
    assert_eq!(td.update(&info), Ok(()));
    assert!(td.get_action_value(0, 0).equal_to(&rat(28, 100)));
}

// A terminal TD(0) step with reward -1, current value 1/2 and alpha 1/5
// writes 0.5 + 0.2 * (-1 - 0.5) = 0.2.
#[test]
fn td0_terminal_step_subtracts_old_estimate() {
    let mut td = QTD0::new(rat(9, 10), rat(1, 5), 0);
    td.update_value(0, 0, rat(1, 2));
    let info = (0usize, 0usize, rat(-1, 1), None, vec![]);
    assert_eq!(td.update(&info), Ok(()));
    assert!(td.get_action_value(0, 0).equal_to(&rat(1, 5)));
}

// The max variant bootstraps on the largest next value, the min variant on
// the smallest.
#[test]
fn td0_variants_pick_max_and_min_targets() {
    let mut td = QTD0::new(rat(1, 1), rat(1, 1), 0);
    td.update_value(9, 0, rat(1, 1));
    td.update_value(9, 1, rat(3, 1));
    let info = (0usize, 0usize, rat(0, 1), Some(9usize), vec![0usize, 1usize]);
    assert_eq!(td.update(&info), Ok(()));
    assert!(td.get_action_value(0, 0).equal_to(&rat(3, 1)));

    let mut tdm = QTD0Min::new(rat(1, 1), rat(1, 1), 0);
    tdm.update_value(9, 0, rat(1, 1));
    tdm.update_value(9, 1, rat(3, 1));
    let info = (0usize, 0usize, rat(0, 1), Some(9usize), vec![0usize, 1usize]);
    assert_eq!(tdm.update(&info), Ok(()));
    assert!(tdm.get_action_value(0, 0).equal_to(&rat(1, 1)));
}

// The learning rate c * (t + 1)^(-eta), exactly: c = 1/2, eta = 2 gives
// 1/2, 1/8, 1/18, ...
#[test]
fn td0_alpha_schedule_is_exact() {
    let mut td = QTD0::new(rat(1, 1), rat(1, 2), 2);
    let a0 = td.get_alpha().unwrap();
    assert!(a0.equal_to(&rat(1, 2)));
    td.increment_count();
    let a1 = td.get_alpha().unwrap();
    assert!(a1.equal_to(&rat(1, 8)));
    td.increment_count();
    let a2 = td.get_alpha().unwrap();
    assert!(a2.equal_to(&rat(1, 18)));
    td.reset_count();
    let a = td.get_alpha().unwrap();
    assert!(a.equal_to(&rat(1, 2)));
}

// Applying the decay k times multiplies the original epsilon by decay^k
// exactly: 1/2 * (9/10)^3 = 729/2000.
#[test]
fn decay_epsilon_multiplies_exactly() {
    let mut p = EGreedyPolicy::new(rat(1, 2), rat(9, 10));
    assert_eq!(p.decay_epsilon(), Ok(()));
    assert_eq!(p.decay_epsilon(), Ok(()));
    assert_eq!(p.decay_epsilon(), Ok(()));
    assert!(p.epsilon().equal_to(&rat(729, 2000)));
    let mut pm = EGreedyPolicyMin::new(rat(1, 2), rat(9, 10));
    assert_eq!(pm.decay_epsilon(), Ok(()));
    assert!(pm.epsilon().equal_to(&rat(9, 20)));
}

// With epsilon = 0 and training mode on, the policy never explores: every
// selection is an action of maximal value.
#[test]
fn zero_epsilon_always_exploits() {
    let mut p = EGreedyPolicy::new(rat(0, 1), rat(1, 1));
    let cands = vec![(7usize, rat(1, 2)), (8usize, rat(3, 4)), (9usize, rat(1, 4))];
    for _ in 0..200 {
        assert_eq!(p.select_action(&cands), Some(8));
    }
}

// With epsilon = 1 the policy always explores: over many trials every
// candidate appears, not only the maximal one.
#[test]
fn full_epsilon_explores_all_candidates() {
    let mut p = EGreedyPolicy::new(rat(1, 1), rat(1, 1));
    let cands = vec![(7usize, rat(1, 2)), (8usize, rat(3, 4)), (9usize, rat(1, 4))];
    let mut seen = [false; 3];
    for _ in 0..2000 {
        let a = p.select_action(&cands).unwrap();
        assert!(a == 7 || a == 8 || a == 9);
        seen[a - 7] = true;
    }
    assert!(seen[0] && seen[1] && seen[2]);
}

// After the eval toggle the policy is deterministic up to ties: every
// selection lies in the maximal-value tie set, whatever the sampled
// randomness.
#[test]
fn eval_mode_only_returns_maximal_ties() {
    let mut p = EGreedyPolicy::new(rat(1, 1), rat(1, 1));
    p.eval();
    let cands = vec![
        (1usize, rat(2, 4)),
        (2usize, rat(3, 4)),
        (3usize, rat(6, 8)),
        (4usize, rat(1, 4)),
    ];
    for _ in 0..200 {
        let a = p.select_action(&cands).unwrap();
        assert!(a == 2 || a == 3);
    }
}

// The min policy mirrors the max policy: with exploration off it returns
// only ties of minimal value.
#[test]
fn min_policy_exploits_by_minimum() {
    let mut p = EGreedyPolicyMin::new(rat(0, 1), rat(1, 1));
    let cands = vec![
        (1usize, rat(2, 4)),
        (2usize, rat(1, 4)),
        (3usize, rat(2, 8)),
        (4usize, rat(3, 4)),
    ];
    for _ in 0..200 {
        let a = p.select_action(&cands).unwrap();
        assert!(a == 2 || a == 3);
    }
}

// No legal action means no choice: the policy signals the case with None.
#[test]
fn empty_candidates_select_none() {
    let mut p = EGreedyPolicy::new(rat(1, 2), rat(9, 10));
    assert_eq!(p.select_action(&vec![]), None);
    let mut pm = EGreedyPolicyMin::new(rat(1, 2), rat(9, 10));
    assert_eq!(pm.select_action(&vec![]), None);
}

// A Q-style agent scores the legal actions from its table; with
// exploration off, the greedy action is returned every time.
#[test]
fn q_agent_selects_greedily_from_its_table() {
    let env = LineWorld::new(6, 1, 5, vec![0]);
    let mut td = QTD0::new(rat(9, 10), rat(1, 10), 0);
    let up = 0usize;
    let down = 1usize;
    td.update_value(3, up, rat(2, 1));
    td.update_value(3, down, rat(1, 1));
    let mut policy = EGreedyPolicy::new(rat(0, 1), rat(1, 1));
    for _ in 0..50 {
        assert_eq!(td.select_action(3, &mut policy, &env), Some(up));
    }
    // The bottom state offers only the move up.
    assert_eq!(td.select_action(0, &mut policy, &env), Some(up));
}

// A short training run on the line world: episodes terminate and updates
// apply until the exact arithmetic runs out of range, which is never a
// panic and never an empty-episode error.
#[test]
fn lineworld_training_loop_runs() {
    let env = LineWorld::new(6, 1, 5, vec![0]);
    let mut agent = VEveryVisitMC::new(rat(9, 10), 5);
    let mut policy = EGreedyPolicy::new(rat(1, 10), rat(1, 1));
    let mut completed = 0usize;
    'training: for _ in 0..50 {
        let mut episode: Vec<(usize, Rat)> = Vec::new();
        let mut state = env.get_init_state();
        for _step in 0..200 {
            let action = agent.select_action(state, &mut policy, &env);
            let (next, reward) = env.transition(state, action);
            episode.push((state, reward));
            match next {
                Some(s) => state = s,
                None => break,
            }
        }
        match agent.update(&episode) {
            Ok(()) => completed += 1,
            Err(UpdateError::OutOfRange) => break 'training,
            Err(UpdateError::EmptyEpisode) => panic!("episode was never empty"),
        }
    }
    for (state, value) in agent.entries() {
        assert!(*state < 6);
        assert!(value.den() > 0);
        assert!(agent.get_value(*state).equal_to(value));
    }
    let _ = completed;
}
