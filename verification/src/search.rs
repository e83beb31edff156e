//! The search for a shortest route on the occupancy grid.

use crate::grid::{
    is_shortest_route, lemma_manhattan_admissible, lemma_shortest_route_shape, manhattan, reachable,
    spec_manhattan, successors, PathfindingBoard, PathfindingPos,
};
use crate::logic::MoveError;
use pathfinding::prelude::astar;
use vstd::prelude::*;

verus! {

/// `steps` lists the successors of a cell as the search takes them: the
/// column and row of each cell, and the cost of the step.
spec fn lists_successors(
    steps: Seq<((i16, i16), u32)>,
    grid: &PathfindingBoard,
    p: PathfindingPos,
) -> bool {
    &&& steps.len() == successors(grid@, p).len()
    &&& forall|k: int|
        0 <= k < steps.len() ==> #[trigger] steps[k] == (
            (successors(grid@, p)[k].pos.0, successors(grid@, p)[k].pos.1),
            successors(grid@, p)[k].cost,
        )
}

fn successor_steps(grid: &PathfindingBoard, col: i16, row: i16) -> (steps: Vec<((i16, i16), u32)>)
    ensures
        lists_successors(steps@, grid, PathfindingPos(col, row)),
{
    let next = grid.get_successors(&PathfindingPos(col, row));
    let mut steps: Vec<((i16, i16), u32)> = Vec::new();
    let mut k: usize = 0;
    while k < next.len()
        invariant
            k <= next@.len(),
            steps@.len() == k,
            forall|j: int|
                0 <= j < k ==> #[trigger] steps@[j] == ((next@[j].pos.0, next@[j].pos.1), next@[j].cost),
        decreases next@.len() - k,
    {
        steps.push(((next[k].pos.0, next[k].pos.1), next[k].cost));
        k += 1;
    }
    steps
}

fn estimate(col: i16, row: i16, goal: &PathfindingPos) -> (d: u32)
    ensures
        d == spec_manhattan(PathfindingPos(col, row), *goal),
{
    manhattan(&PathfindingPos(col, row), goal)
}

fn is_goal(col: i16, row: i16, goal: &PathfindingPos) -> (there: bool)
    ensures
        there == (PathfindingPos(col, row) == *goal),
{
    col == goal.0 && row == goal.1
}

/// Calls `astar` of the crate pathfinding, from `start`, with the successors
/// of the grid, the Manhattan distance to `goal` as the estimate, and `goal`
/// as the only cell that ends the search. A cell is handed over as the pair
/// of its column and row.
///
/// The contract repeats what the crate documents of `astar`: it answers with
/// a shortest path from the start to a cell that ends the search, the start
/// and that cell included, together with the cost of the path, and with
/// `None` where there is no path. Every step costs 1 here, so the cost is
/// the number of moves. The crate asks that the estimate never exceed the
/// true cost; [`crate::grid::lemma_manhattan_admissible`] proves that of the
/// Manhattan distance, and [`crate::grid::lemma_successors_are_steps`] that
/// the successors handed over are the moves of the grid. Which of several
/// shortest paths comes back is left open.
#[verifier::external_body]
fn astar_on_grid(grid: &PathfindingBoard, start: &PathfindingPos, goal: &PathfindingPos) -> (found:
    Option<(Vec<PathfindingPos>, u32)>)
    ensures
        found is Some <==> reachable(grid@, *start, *goal),
        found matches Some((path, cost)) ==> is_shortest_route(grid@, *start, *goal, path@) && cost
            == path@.len() - 1,
{
    let found = astar(
        &(start.0, start.1),
        |n| successor_steps(grid, n.0, n.1),
        |n| estimate(n.0, n.1, goal),
        |n| is_goal(n.0, n.1, goal),
    );
    found.map(|(path, cost)| (path.into_iter().map(|n| PathfindingPos(n.0, n.1)).collect(), cost))
}

/// Searches a shortest route from `start` to `goal` on the grid. A move leads
/// to one of the four cells that share an edge with a cell, if it is on the
/// grid and not blocked, and costs 1. The route includes `start` and `goal`;
/// its cost is the number of its moves, which is never less than the
/// Manhattan distance from `start` to `goal`.
pub fn find_path(grid: &PathfindingBoard, start: &PathfindingPos, goal: &PathfindingPos) -> (found:
    Result<(Vec<PathfindingPos>, u32), MoveError>)
    ensures
        found is Ok <==> reachable(grid@, *start, *goal),
        found matches Ok((path, cost)) ==> {
            &&& is_shortest_route(grid@, *start, *goal, path@)
            &&& cost == path@.len() - 1
            &&& cost >= spec_manhattan(*start, *goal)
            &&& cost == 0 <==> *start == *goal
        },
        found matches Err(e) ==> e == MoveError::NoPathFound,
{
    match astar_on_grid(grid, start, goal) {
        Some(route) => {
            proof {
                lemma_manhattan_admissible(grid@, *start, *goal, route.0@);
                lemma_shortest_route_shape(grid@, *start, *goal, route.0@);
            }
            Ok(route)
        },
        None => Err(MoveError::NoPathFound),
    }
}

} // verus!
