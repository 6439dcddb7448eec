//! Tests of the rational values, the tables and the two worlds.

use rlai2::Env;
use rlai2::GridWorld;
use rlai2::GridWorldAction;
use rlai2::LineWorld;
use rlai2::LineWorldAction;
use rlai2::QTable;
use rlai2::Rat;
use rlai2::VTable;

fn rat(n: i64, d: i64) -> Rat {
    Rat::new(n, d)
}

#[test]
fn rat_arithmetic_is_exact() {
    let a = rat(1, 2);
    let b = rat(1, 3);
    let sum = a.checked_add(&b).unwrap();
    assert!(sum.equal_to(&rat(5, 6)));
    let diff = a.checked_sub(&b).unwrap();
    assert!(diff.equal_to(&rat(1, 6)));
    let prod = a.checked_mul(&b).unwrap();
    assert!(prod.equal_to(&rat(1, 6)));
    assert!(a.gt(&b));
    assert!(b.lt(&a));
    assert!(a.le(&a));
    assert!(rat(2, 4).equal_to(&rat(1, 2)));
    assert!(!rat(2, 4).equal_to(&rat(1, 3)));
}

#[test]
fn rat_reports_out_of_range() {
    let big = rat(i64::MAX, 1);
    assert!(big.checked_add(&big).is_none());
    assert!(big.checked_mul(&big).is_none());
    let small = rat(1, i64::MAX);
    assert!(small.checked_mul(&rat(1, 2)).is_none());
}

#[test]
fn vtable_cold_start_and_overwrite() {
    let mut t = VTable::new();
    assert_eq!(t.len(), 0);
    assert!(t.get(7).equal_to(&rat(0, 1)));
    t.set(7, rat(3, 2));
    t.set(9, rat(-1, 4));
    assert_eq!(t.len(), 2);
    assert!(t.get(7).equal_to(&rat(3, 2)));
    t.set(7, rat(5, 2));
    assert_eq!(t.len(), 2);
    assert!(t.get(7).equal_to(&rat(5, 2)));
    assert!(t.get(9).equal_to(&rat(-1, 4)));
    assert_eq!(t.entries().len(), 2);
}

#[test]
fn qtable_cold_start_and_overwrite() {
    let mut t = QTable::new();
    assert!(t.get(1, 2).equal_to(&rat(0, 1)));
    t.set(1, 2, rat(7, 3));
    t.set(1, 3, rat(1, 3));
    assert_eq!(t.len(), 2);
    assert!(t.get(1, 2).equal_to(&rat(7, 3)));
    assert!(t.get(2, 1).equal_to(&rat(0, 1)));
    t.set(1, 2, rat(8, 3));
    assert_eq!(t.len(), 2);
    assert!(t.get(1, 2).equal_to(&rat(8, 3)));
}

#[test]
fn lineworld_transitions() {
    let env = LineWorld::new(6, 1, 5, vec![0]);
    assert_eq!(env.get_init_state(), 1);
    assert_eq!(env.get_goal_state(), 5);
    assert_eq!(env.get_terminal_state(), &vec![0]);
    assert!(env.is_terminal(0));
    assert!(!env.is_terminal(3));
    assert!(env.is_goal(5));
    assert!(!env.is_goal(4));

    let up = LineWorldAction::Up.index();
    let down = LineWorldAction::Down.index();
    assert_eq!(env.available_actions(0), vec![up]);
    assert_eq!(env.available_actions(5), vec![down]);
    assert_eq!(env.available_actions(3), vec![up, down]);

    let (next, reward) = env.transition(3, Some(up));
    assert_eq!(next, Some(4));
    assert!(reward.equal_to(&Rat::from_int(0)));
    let (next, reward) = env.transition(3, Some(down));
    assert_eq!(next, Some(2));
    assert!(reward.equal_to(&Rat::from_int(0)));
    let (next, reward) = env.transition(0, None);
    assert_eq!(next, None);
    assert!(reward.equal_to(&Rat::from_int(-1)));
    let (next, reward) = env.transition(5, None);
    assert_eq!(next, None);
    assert!(reward.equal_to(&Rat::from_int(1)));
}

#[test]
fn lineworld_action_roundtrip() {
    assert_eq!(LineWorldAction::from_index(0), Some(LineWorldAction::Up));
    assert_eq!(LineWorldAction::from_index(1), Some(LineWorldAction::Down));
    assert_eq!(LineWorldAction::from_index(2), None);
}

#[test]
fn gridworld_transitions() {
    let env = GridWorld::new(4, 3, (0, 0), (3, 2), vec![(1, 1)]);
    assert_eq!(env.get_init_state(), (0, 0));
    assert_eq!(env.get_goal_state(), (3, 2));
    assert_eq!(env.get_terminal_state(), &vec![(1, 1)]);

    let id = |x: usize, y: usize| rlai2::env::gridworld::cell_id(x, y);
    assert!(env.is_terminal(id(1, 1)));
    assert!(!env.is_terminal(id(0, 0)));
    assert!(env.is_goal(id(3, 2)));
    assert!(!env.is_goal(id(2, 2)));

    let up = GridWorldAction::Up.index();
    let down = GridWorldAction::Down.index();
    let left = GridWorldAction::Left.index();
    let right = GridWorldAction::Right.index();

    assert_eq!(env.available_actions(id(0, 0)), vec![right, up]);
    assert_eq!(env.available_actions(id(0, 2)), vec![right, down]);
    assert_eq!(env.available_actions(id(0, 1)), vec![right, up, down]);
    assert_eq!(env.available_actions(id(3, 2)), vec![left, down]);
    assert_eq!(env.available_actions(id(2, 2)), vec![left, right, down]);
    assert_eq!(env.available_actions(id(3, 0)), vec![left, up]);
    assert_eq!(env.available_actions(id(3, 1)), vec![left, up, down]);
    assert_eq!(env.available_actions(id(2, 0)), vec![left, right, up]);
    assert_eq!(env.available_actions(id(2, 1)), vec![left, right, up, down]);

    let (next, reward) = env.transition(id(2, 1), Some(up));
    assert_eq!(next, Some(id(2, 2)));
    assert!(reward.equal_to(&Rat::from_int(0)));
    let (next, _) = env.transition(id(2, 1), Some(down));
    assert_eq!(next, Some(id(2, 0)));
    let (next, _) = env.transition(id(2, 1), Some(left));
    assert_eq!(next, Some(id(1, 1)));
    let (next, _) = env.transition(id(2, 1), Some(right));
    assert_eq!(next, Some(id(3, 1)));
    let (next, reward) = env.transition(id(1, 1), None);
    assert_eq!(next, None);
    assert!(reward.equal_to(&Rat::from_int(-1)));
    let (next, reward) = env.transition(id(3, 2), None);
    assert_eq!(next, None);
    assert!(reward.equal_to(&Rat::from_int(1)));
}

#[test]
fn gridworld_action_roundtrip() {
    for a in [
        GridWorldAction::Up,
        GridWorldAction::Down,
        GridWorldAction::Left,
        GridWorldAction::Right,
    ] {
        assert_eq!(GridWorldAction::from_index(a.index()), Some(a));
    }
    assert_eq!(GridWorldAction::from_index(4), None);
}
