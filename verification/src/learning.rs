//! A small grid world for a learning agent: a state is a cell of an 11 by 11
//! torus together with the cell to reach, an action is a step to a
//! neighbouring cell.

use vstd::prelude::*;

verus! {

/// The number of rows and of columns of the grid world.
pub const WORLD_SIZE: i32 = 11;

/// Where the agent is, and where it wants to be.
#[derive(Clone, Copy, Debug, PartialEq, Eq, Hash)]
pub struct MyState {
    pub x: i32,
    pub y: i32,
    pub goal: (i32, i32),
}

/// A step: the change of `x` and the change of `y`.
#[derive(Clone, Copy, Debug, PartialEq, Eq, Hash, Structural)]
pub struct MyAction {
    pub dx: i32,
    pub dy: i32,
}

/// An agent in the grid world.
#[derive(Clone, Copy, Debug)]
pub struct MyAgent {
    pub state: MyState,
}

/// The coordinate reached from `at` by a step of `by`, on a circle of
/// `WORLD_SIZE` cells.
pub open spec fn wrapped(at: i32, by: i32) -> int {
    (at + by) % (WORLD_SIZE as int)
}

fn wrap(at: i32, by: i32) -> (to: i32)
    ensures
        to == wrapped(at, by),
        0 <= to < WORLD_SIZE,
{
    let size = WORLD_SIZE as i64;
    let moved: i64 = at as i64 + by as i64;
    if moved >= 0 {
        (moved % size) as i32
    } else {
        let back: i64 = (-moved) % size;
        assert(moved % size == if back == 0 { 0 } else { size - back }) by {
            let turned: int = -moved;
            vstd::arithmetic::div_mod::lemma_fundamental_div_mod(turned, size as int);
            vstd::arithmetic::div_mod::lemma_fundamental_div_mod_converse(
                moved as int,
                size as int,
                if back == 0 { -(turned / (size as int)) } else { -(turned / (size as int)) - 1 },
                if back == 0 { 0 } else { size - back },
            );
        }
        if back == 0 {
            0
        } else {
            (size - back) as i32
        }
    }
}

impl MyState {
    /// The square of the Euclidean distance from the agent to its goal. The
    /// nearer the agent is to the goal, the smaller this number.
    pub open spec fn spec_goal_distance_squared(&self) -> int {
        (self.goal.0 - self.x) * (self.goal.0 - self.x) + (self.goal.1 - self.y) * (self.goal.1
            - self.y)
    }

    /// The square of the Euclidean distance from the agent to its goal.
    pub fn goal_distance_squared(&self) -> (d: u128)
        ensures
            d == self.spec_goal_distance_squared(),
    {
        let gx = self.goal.0 as i64;
        let gy = self.goal.1 as i64;
        let x = self.x as i64;
        let y = self.y as i64;
        let dx: u128 = if gx >= x { (gx - x) as u128 } else { (x - gx) as u128 };
        let dy: u128 = if gy >= y { (gy - y) as u128 } else { (y - gy) as u128 };
        assert(dx * dx <= 0xffff_ffff * 0xffff_ffff) by (nonlinear_arith)
            requires
                dx <= 0xffff_ffff,
        ;
        assert(dy * dy <= 0xffff_ffff * 0xffff_ffff) by (nonlinear_arith)
            requires
                dy <= 0xffff_ffff,
        ;
        assert(dx * dx == (gx - x) * (gx - x)) by (nonlinear_arith)
            requires
                dx == gx - x || dx == x - gx,
        ;
        assert(dy * dy == (gy - y) * (gy - y)) by (nonlinear_arith)
            requires
                dy == gy - y || dy == y - gy,
        ;
        dx * dx + dy * dy
    }

    /// The steps that an agent can take: up, down, left, right.
    pub fn actions(&self) -> (steps: Vec<MyAction>)
        ensures
            steps@ == seq![
                MyAction { dx: 0, dy: -1i32 },
                MyAction { dx: 0, dy: 1 },
                MyAction { dx: -1i32, dy: 0 },
                MyAction { dx: 1, dy: 0 },
            ],
    {
        let mut steps: Vec<MyAction> = Vec::new();
        steps.push(MyAction { dx: 0, dy: -1i32 });
        steps.push(MyAction { dx: 0, dy: 1 });
        steps.push(MyAction { dx: -1i32, dy: 0 });
        steps.push(MyAction { dx: 1, dy: 0 });
        assert(steps@ =~= seq![
            MyAction { dx: 0, dy: -1i32 },
            MyAction { dx: 0, dy: 1 },
            MyAction { dx: -1i32, dy: 0 },
            MyAction { dx: 1, dy: 0 },
        ]);
        steps
    }
}

impl MyAgent {
    /// The state that the agent is in.
    pub fn current_state(&self) -> (state: &MyState)
        ensures
            *state == self.state,
    {
        &self.state
    }

    /// Moves the agent by one step. A step over an edge of the grid world
    /// leads to the opposite edge; the goal stays what it is.
    pub fn take_action(&mut self, action: &MyAction)
        ensures
            final(self).state.x == wrapped(old(self).state.x, action.dx),
            final(self).state.y == wrapped(old(self).state.y, action.dy),
            final(self).state.goal == old(self).state.goal,
            0 <= final(self).state.x < WORLD_SIZE,
            0 <= final(self).state.y < WORLD_SIZE,
    {
        self.state = MyState {
            x: wrap(self.state.x, action.dx),
            y: wrap(self.state.y, action.dy),
            goal: self.state.goal,
        };
    }
}

} // verus!
