//! A two-dimensional world: positions `(x, y)` on a grid, moving one cell
//! up, down, left or right. Entering the goal cell pays `+1`, a terminal
//! cell pays `-1`, every other step pays `0`.
//!
//! Agents identify states by a single integer, so a cell is encoded as
//! `x * 32768 + y`; grids up to 32768 cells a side are supported.

use vstd::prelude::*;

use crate::env::Env;
use crate::rat::Rat;

verus! {

/// One side of the square of cell coordinates an id can encode.
pub const GRID_SIDE: usize = 32768;

/// The id that encodes the cell `(x, y)`.
pub open spec fn cell_id_spec(x: int, y: int) -> int {
    x * 32768 + y
}

/// The id that encodes the cell `(x, y)`.
pub fn cell_id(x: usize, y: usize) -> (r: usize)
    requires
        x < 32768,
        y < 32768,
    ensures
        r == cell_id_spec(x as int, y as int),
        r < 32768 * 32768,
{
    x * GRID_SIDE + y
}

/// The coordinates an id decodes to.
pub open spec fn cell_x(s: usize) -> int {
    s as int / 32768
}

/// The coordinates an id decodes to.
pub open spec fn cell_y(s: usize) -> int {
    s as int % 32768
}

/// Move one cell up (id 0), down (1), left (2) or right (3).
#[derive(Debug, Copy, Clone, PartialEq, Eq, Structural, Hash)]
pub enum GridWorldAction {
    Up,
    Down,
    Left,
    Right,
}

/// The action id a `GridWorldAction` stands for.
pub open spec fn grid_action_index(a: GridWorldAction) -> int {
    match a {
        GridWorldAction::Up => 0,
        GridWorldAction::Down => 1,
        GridWorldAction::Left => 2,
        GridWorldAction::Right => 3,
    }
}

impl GridWorldAction {
    /// The action id used by agents and policies.
    pub fn index(self) -> (r: usize)
        ensures
            r == grid_action_index(self),
    {
        match self {
            GridWorldAction::Up => 0,
            GridWorldAction::Down => 1,
            GridWorldAction::Left => 2,
            GridWorldAction::Right => 3,
        }
    }

    /// The action a policy's chosen id stands for.
    pub fn from_index(i: usize) -> (r: Option<GridWorldAction>)
        ensures
            i == 0 ==> r == Some(GridWorldAction::Up),
            i == 1 ==> r == Some(GridWorldAction::Down),
            i == 2 ==> r == Some(GridWorldAction::Left),
            i == 3 ==> r == Some(GridWorldAction::Right),
            i >= 4 ==> r is None,
    {
        if i == 0 {
            Some(GridWorldAction::Up)
        } else if i == 1 {
            Some(GridWorldAction::Down)
        } else if i == 2 {
            Some(GridWorldAction::Left)
        } else if i == 3 {
            Some(GridWorldAction::Right)
        } else {
            None
        }
    }
}

/// The grid world: `num_x` by `num_y` cells, one start, one goal, a list of
/// terminal cells.
pub struct GridWorld {
    num_x: usize,
    num_y: usize,
    init_state: (usize, usize),
    goal_state: (usize, usize),
    terminal_state: Vec<(usize, usize)>,
}

impl GridWorld {
    /// The number of columns.
    pub closed spec fn nx_spec(&self) -> int {
        self.num_x as int
    }

    /// The number of rows.
    pub closed spec fn ny_spec(&self) -> int {
        self.num_y as int
    }

    /// The start cell.
    pub closed spec fn init_spec(&self) -> (usize, usize) {
        self.init_state
    }

    /// The goal cell.
    pub closed spec fn goal_cell_spec(&self) -> (usize, usize) {
        self.goal_state
    }

    /// The terminal cells.
    pub closed spec fn terminals_spec(&self) -> Seq<(usize, usize)> {
        self.terminal_state@
    }

    /// A new grid world.
    pub fn new(
        num_x: usize,
        num_y: usize,
        init_state: (usize, usize),
        goal_state: (usize, usize),
        terminal_state: Vec<(usize, usize)>,
    ) -> (r: GridWorld)
        ensures
            r.nx_spec() == num_x as int,
            r.ny_spec() == num_y as int,
            r.init_spec() == init_state,
            r.goal_cell_spec() == goal_state,
            r.terminals_spec() == terminal_state@,
    {
        GridWorld { num_x, num_y, init_state, goal_state, terminal_state }
    }

    /// The start cell.
    pub fn get_init_state(&self) -> (r: (usize, usize))
        ensures
            r == self.init_spec(),
    {
        self.init_state
    }

    /// The goal cell.
    pub fn get_goal_state(&self) -> (r: (usize, usize))
        ensures
            r == self.goal_cell_spec(),
    {
        self.goal_state
    }

    /// The terminal cells.
    pub fn get_terminal_state(&self) -> (r: &Vec<(usize, usize)>)
        ensures
            r@ == self.terminals_spec(),
    {
        &self.terminal_state
    }
}

impl Env for GridWorld {
    /// The grid is at least 2 by 2 (a 1-wide grid would offer a move off
    /// the board), at most 32768 a side, and the goal and terminal cells
    /// lie on it.
    open spec fn wf(&self) -> bool {
        &&& 2 <= self.nx_spec() <= 32768
        &&& 2 <= self.ny_spec() <= 32768
        &&& (self.goal_cell_spec().0 as int) < self.nx_spec()
        &&& (self.goal_cell_spec().1 as int) < self.ny_spec()
        &&& forall|i: int|
            0 <= i < self.terminals_spec().len() ==> ((#[trigger] self.terminals_spec()[i]).0
                as int) < self.nx_spec() && (self.terminals_spec()[i].1 as int) < self.ny_spec()
    }

    /// Ids that decode to a cell on the grid.
    open spec fn state_ok(&self, s: usize) -> bool {
        cell_x(s) < self.nx_spec() && cell_y(s) < self.ny_spec() && s < 32768 * 32768
    }

    open spec fn terminal_spec(&self, s: usize) -> bool {
        exists|i: int|
            0 <= i < self.terminals_spec().len() && cell_id_spec(
                (#[trigger] self.terminals_spec()[i]).0 as int,
                self.terminals_spec()[i].1 as int,
            ) == s
    }

    open spec fn goal_spec(&self, s: usize) -> bool {
        cell_id_spec(self.goal_cell_spec().0 as int, self.goal_cell_spec().1 as int) == s
    }

    /// The move stays in the encodable square and does not underflow.
    open spec fn action_ok(&self, s: usize, a: usize) -> bool {
        ||| a == 0 && cell_y(s) + 1 < 32768
        ||| a == 1 && cell_y(s) >= 1
        ||| a == 2 && cell_x(s) >= 1
        ||| a == 3 && cell_x(s) + 1 < 32768
    }

    open spec fn transition_spec(&self, s: usize, a: Option<usize>) -> (Option<usize>, (int, int)) {
        if self.terminal_spec(s) {
            (None, (-1, 1))
        } else if self.goal_spec(s) {
            (None, (1, 1))
        } else {
            let x = cell_x(s);
            let y = cell_y(s);
            if a == Some(0usize) {
                (Some((s + 1) as usize), (0, 1))
            } else if a == Some(1usize) {
                (Some((s - 1) as usize), (0, 1))
            } else if a == Some(2usize) {
                (Some((s - 32768) as usize), (0, 1))
            } else {
                (Some((s + 32768) as usize), (0, 1))
            }
        }
    }

    open spec fn avail_spec(&self, s: usize) -> Seq<usize> {
        let x = cell_x(s);
        let y = cell_y(s);
        if x == 0 && y == 0 {
            seq![3, 0]
        } else if x == 0 && y == self.ny_spec() - 1 {
            seq![3, 1]
        } else if x == 0 {
            seq![3, 0, 1]
        } else if x == self.nx_spec() - 1 && y == self.ny_spec() - 1 {
            seq![2, 1]
        } else if y == self.ny_spec() - 1 {
            seq![2, 3, 1]
        } else if x == self.nx_spec() - 1 && y == 0 {
            seq![2, 0]
        } else if x == self.nx_spec() - 1 {
            seq![2, 0, 1]
        } else if y == 0 {
            seq![2, 3, 0]
        } else {
            seq![2, 3, 0, 1]
        }
    }

    fn is_terminal(&self, s: usize) -> (r: bool) {
        let sx = s / GRID_SIDE;
        let sy = s % GRID_SIDE;
        let n = self.terminal_state.len();
        let mut i: usize = 0;
        while i < n
            invariant
                n == self.terminal_state@.len(),
                0 <= i <= n,
                sx == cell_x(s),
                sy == cell_y(s),
                self.wf(),
                forall|j: int|
                    0 <= j < i ==> cell_id_spec(
                        (#[trigger] self.terminal_state@[j]).0 as int,
                        self.terminal_state@[j].1 as int,
                    ) != s,
            decreases n - i,
        {
            let t = self.terminal_state[i];
            proof {
                assert(self.terminals_spec()[i as int] == t);
                assert(((self.terminals_spec()[i as int]).0 as int) < self.nx_spec());
            }
            if t.0 == sx && t.1 == sy {
                proof {
                    lemma_cell_id_decode(s);
                    assert(cell_id_spec(
                        self.terminals_spec()[i as int].0 as int,
                        self.terminals_spec()[i as int].1 as int,
                    ) == s);
                }
                return true;
            }
            proof {
                lemma_cell_id_decode(s);
                lemma_cell_id_unique(t.0 as int, t.1 as int, cell_x(s), cell_y(s));
            }
            i += 1;
        }
        false
    }

    fn is_goal(&self, s: usize) -> (r: bool) {
        let sx = s / GRID_SIDE;
        let sy = s % GRID_SIDE;
        let g = self.goal_state;
        proof {
            lemma_cell_id_decode(s);
            lemma_cell_id_unique(g.0 as int, g.1 as int, cell_x(s), cell_y(s));
        }
        g.0 == sx && g.1 == sy
    }

    fn transition(&self, s: usize, a: Option<usize>) -> (r: (Option<usize>, Rat)) {
        if self.is_terminal(s) {
            (None, Rat::new(-1, 1))
        } else if self.is_goal(s) {
            (None, Rat::new(1, 1))
        } else {
            proof {
                lemma_cell_id_decode(s);
            }
            match a {
                Some(0usize) => (Some(s + 1), Rat::new(0, 1)),
                Some(1usize) => (Some(s - 1), Rat::new(0, 1)),
                Some(2usize) => (Some(s - GRID_SIDE), Rat::new(0, 1)),
                _ => (Some(s + GRID_SIDE), Rat::new(0, 1)),
            }
        }
    }

    fn available_actions(&self, s: usize) -> (r: Vec<usize>) {
        let x = s / GRID_SIDE;
        let y = s % GRID_SIDE;
        proof {
            lemma_cell_id_decode(s);
        }
        if x == 0 && y == 0 {
            vec![3, 0]
        } else if x == 0 && y == self.num_y - 1 {
            vec![3, 1]
        } else if x == 0 {
            vec![3, 0, 1]
        } else if x == self.num_x - 1 && y == self.num_y - 1 {
            vec![2, 1]
        } else if y == self.num_y - 1 {
            vec![2, 3, 1]
        } else if x == self.num_x - 1 && y == 0 {
            vec![2, 0]
        } else if x == self.num_x - 1 {
            vec![2, 0, 1]
        } else if y == 0 {
            vec![2, 3, 0]
        } else {
            vec![2, 3, 0, 1]
        }
    }
}

/// Decoding returns the encoded coordinates: `x * 32768 + y` splits back
/// into `x` and `y` by division and remainder.
proof fn lemma_cell_id_decode(s: usize)
    ensures
        cell_id_spec(cell_x(s), cell_y(s)) == s as int,
        0 <= cell_y(s) < 32768,
        0 <= cell_x(s),
{
    vstd::arithmetic::div_mod::lemma_fundamental_div_mod(s as int, 32768);
    vstd::arithmetic::div_mod::lemma_mod_bound(s as int, 32768);
    vstd::arithmetic::div_mod::lemma_div_pos_is_pos(s as int, 32768);
}

/// Two distinct cells never share an id.
proof fn lemma_cell_id_unique(x1: int, y1: int, x2: int, y2: int)
    by (nonlinear_arith)
    requires
        0 <= y1 < 32768,
        0 <= y2 < 32768,
        0 <= x1,
        0 <= x2,
    ensures
        cell_id_spec(x1, y1) == cell_id_spec(x2, y2) ==> (x1 == x2 && y1 == y2),
{
}

} // verus!
