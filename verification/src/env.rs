//! The environment abstraction.
//!
//! An environment presents a finite decision problem over integer-identified
//! states and actions: a one-step transition function, terminal and goal
//! predicates, and the enumeration of the legal actions at a state. The two
//! concrete worlds live in the submodules.

pub mod gridworld;
pub mod lineworld;

use vstd::prelude::*;

use crate::rat::Rat;
use crate::rat::q_wf;

verus! {

/// A finite decision problem. Each method is specified against the trait's
/// own specification functions, which every implementation defines.
pub trait Env: Sized {
    /// The environment's parameters are internally consistent.
    spec fn wf(&self) -> bool;

    /// The states on which the operations below are meaningful.
    spec fn state_ok(&self, s: usize) -> bool;

    /// `s` is a terminal (losing) state.
    spec fn terminal_spec(&self, s: usize) -> bool;

    /// `s` is the goal state.
    spec fn goal_spec(&self, s: usize) -> bool;

    /// The transition out of `s` under `a` is defined.
    spec fn action_ok(&self, s: usize, a: usize) -> bool;

    /// The one-step dynamics: successor (`None` out of a terminal or goal
    /// state) and immediate reward.
    spec fn transition_spec(&self, s: usize, a: Option<usize>) -> (Option<usize>, (int, int));

    /// The legal actions at `s`, in a fixed order.
    spec fn avail_spec(&self, s: usize) -> Seq<usize>;

    /// Whether `s` is terminal.
    fn is_terminal(&self, s: usize) -> (r: bool)
        requires
            self.wf(),
        ensures
            r == self.terminal_spec(s),
    ;

    /// Whether `s` is the goal.
    fn is_goal(&self, s: usize) -> (r: bool)
        requires
            self.wf(),
        ensures
            r == self.goal_spec(s),
    ;

    /// Apply one step of the dynamics. Out of a terminal or goal state the
    /// action is ignored and there is no successor; otherwise the action
    /// must be given and defined at `s`.
    fn transition(&self, s: usize, a: Option<usize>) -> (r: (Option<usize>, Rat))
        requires
            self.wf(),
            self.state_ok(s),
            !self.terminal_spec(s) && !self.goal_spec(s) ==> (a matches Some(x)
                && self.action_ok(s, x)),
        ensures
            r.0 == self.transition_spec(s, a).0,
            r.1@ == self.transition_spec(s, a).1,
            q_wf(r.1@),
            (self.terminal_spec(s) || self.goal_spec(s)) <==> r.0 is None,
    ;

    /// The legal actions at `s`; every returned action has a defined
    /// transition out of `s`.
    fn available_actions(&self, s: usize) -> (r: Vec<usize>)
        requires
            self.wf(),
            self.state_ok(s),
        ensures
            r@ == self.avail_spec(s),
            forall|i: int| 0 <= i < r@.len() ==> self.action_ok(s, #[trigger] r@[i]),
    ;
}

} // verus!
