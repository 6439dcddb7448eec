//! A one-dimensional world: positions `0 .. num_rows`, moving up or down by
//! one. Entering the goal position pays `+1`, a terminal position pays `-1`,
//! every other step pays `0`.

use vstd::prelude::*;

use crate::env::Env;
use crate::rat::Rat;

verus! {

/// Move up (id 0) or down (id 1) the line.
#[derive(Debug, Copy, Clone, PartialEq, Eq, Structural, Hash)]
pub enum LineWorldAction {
    Up,
    Down,
}

/// The action id a `LineWorldAction` stands for.
pub open spec fn line_action_index(a: LineWorldAction) -> int {
    match a {
        LineWorldAction::Up => 0,
        LineWorldAction::Down => 1,
    }
}

impl LineWorldAction {
    /// The action id used by agents and policies.
    pub fn index(self) -> (r: usize)
        ensures
            r == line_action_index(self),
    {
        match self {
            LineWorldAction::Up => 0,
            LineWorldAction::Down => 1,
        }
    }

    /// The action a policy's chosen id stands for.
    pub fn from_index(i: usize) -> (r: Option<LineWorldAction>)
        ensures
            i == 0 ==> r == Some(LineWorldAction::Up),
            i == 1 ==> r == Some(LineWorldAction::Down),
            i >= 2 ==> r is None,
    {
        if i == 0 {
            Some(LineWorldAction::Up)
        } else if i == 1 {
            Some(LineWorldAction::Down)
        } else {
            None
        }
    }
}

/// The line world: `num_rows` positions, one start, one goal, a list of
/// terminal positions.
pub struct LineWorld {
    num_rows: usize,
    init_state: usize,
    goal_state: usize,
    terminal_state: Vec<usize>,
}

impl LineWorld {
    /// The number of positions.
    pub closed spec fn rows_spec(&self) -> int {
        self.num_rows as int
    }

    /// The start position.
    pub closed spec fn init_spec(&self) -> usize {
        self.init_state
    }

    /// The goal position.
    pub closed spec fn goal_spec_pos(&self) -> usize {
        self.goal_state
    }

    /// The terminal positions.
    pub closed spec fn terminals_spec(&self) -> Seq<usize> {
        self.terminal_state@
    }

    /// A new line world.
    pub fn new(
        num_rows: usize,
        init_state: usize,
        goal_state: usize,
        terminal_state: Vec<usize>,
    ) -> (r: LineWorld)
        ensures
            r.rows_spec() == num_rows as int,
            r.init_spec() == init_state,
            r.goal_spec_pos() == goal_state,
            r.terminals_spec() == terminal_state@,
    {
        LineWorld { num_rows, init_state, goal_state, terminal_state }
    }

    /// The start position.
    pub fn get_init_state(&self) -> (r: usize)
        ensures
            r == self.init_spec(),
    {
        self.init_state
    }

    /// The goal position.
    pub fn get_goal_state(&self) -> (r: usize)
        ensures
            r == self.goal_spec_pos(),
    {
        self.goal_state
    }

    /// The terminal positions.
    pub fn get_terminal_state(&self) -> (r: &Vec<usize>)
        ensures
            r@ == self.terminals_spec(),
    {
        &self.terminal_state
    }
}

impl Env for LineWorld {
    /// At least one position exists.
    open spec fn wf(&self) -> bool {
        self.rows_spec() >= 1
    }

    /// The positions of the line.
    open spec fn state_ok(&self, s: usize) -> bool {
        (s as int) < self.rows_spec()
    }

    open spec fn terminal_spec(&self, s: usize) -> bool {
        self.terminals_spec().contains(s)
    }

    open spec fn goal_spec(&self, s: usize) -> bool {
        s == self.goal_spec_pos()
    }

    /// Up never leaves the machine range on a valid position; down needs
    /// a position above the bottom.
    open spec fn action_ok(&self, s: usize, a: usize) -> bool {
        a == 0 || (a == 1 && s >= 1)
    }

    open spec fn transition_spec(&self, s: usize, a: Option<usize>) -> (Option<usize>, (int, int)) {
        if self.terminal_spec(s) {
            (None, (-1, 1))
        } else if self.goal_spec(s) {
            (None, (1, 1))
        } else if a == Some(0usize) {
            (Some((s + 1) as usize), (0, 1))
        } else {
            (Some((s - 1) as usize), (0, 1))
        }
    }

    open spec fn avail_spec(&self, s: usize) -> Seq<usize> {
        if s == 0 {
            seq![0]
        } else if s as int == self.rows_spec() - 1 {
            seq![1]
        } else {
            seq![0, 1]
        }
    }

    fn is_terminal(&self, s: usize) -> (r: bool) {
        let n = self.terminal_state.len();
        let mut i: usize = 0;
        while i < n
            invariant
                n == self.terminal_state@.len(),
                0 <= i <= n,
                forall|j: int| 0 <= j < i ==> self.terminal_state@[j] != s,
            decreases n - i,
        {
            if self.terminal_state[i] == s {
                return true;
            }
            i += 1;
        }
        false
    }

    fn is_goal(&self, s: usize) -> (r: bool) {
        s == self.goal_state
    }

    fn transition(&self, s: usize, a: Option<usize>) -> (r: (Option<usize>, Rat)) {
        if self.is_terminal(s) {
            (None, Rat::new(-1, 1))
        } else if self.is_goal(s) {
            (None, Rat::new(1, 1))
        } else {
            match a {
                Some(0usize) => (Some(s + 1), Rat::new(0, 1)),
                _ => (Some(s - 1), Rat::new(0, 1)),
            }
        }
    }

    fn available_actions(&self, s: usize) -> (r: Vec<usize>) {
        if s == 0 {
            vec![0]
        } else if s == self.num_rows - 1 {
            vec![1]
        } else {
            vec![0, 1]
        }
    }
}

} // verus!
