//! The decision of one turn: from the snapshot to a move.

pub mod goal;

use crate::grid::{
    grid_width, is_shortest_route, lemma_shortest_route_shape, passable_at, reachable, step,
    PathfindingBoard, PathfindingPos,
};
use crate::logic::goal::{determine_goal, spec_goal, TieBreak};
use crate::snapshot::{Battlesnake, Board, Coord, Game};
use crate::utils::{
    build_pathfinding_board_with_hazards, coord_to_pos, get_next_move_from_coord, get_snake_mode,
    occupancy, on_grid, pos_to_coord, spec_coord_to_pos, spec_next_move, spec_pos_to_coord,
    spec_snake_mode,
};
use vstd::prelude::*;

verus! {

/// How a snake behaves: what it treats as an obstacle and what it heads for.
#[derive(Clone, Copy, Debug, PartialEq, Eq, Structural)]
pub enum SnakePersonality {
    /// Eats food no matter what.
    Hungry,
    /// Avoids snakes at all costs.
    Timid,
    /// Hunts the heads of other snakes once it is the longest.
    HeadHunter,
    /// Eats food when it is safe to do so.
    Snacky,
}

/// What a snake is after in the current turn.
#[derive(Clone, Copy, Debug, PartialEq, Eq, Structural)]
pub enum SnakeMode {
    Eat,
    Kill,
}

/// Why a turn ended without a move.
#[derive(Clone, Copy, Debug, PartialEq, Eq, Structural)]
pub enum MoveError {
    /// The personality has no rule for choosing a goal.
    UnimplementedPersonality,
    /// There is no food to head for, or no opponent to hunt.
    NoGoalCandidate,
    /// No route leads from the head to the goal.
    NoPathFound,
    /// The route ends where it starts: the head is on the goal already.
    PathTooShort,
}

/// `token` names one of the four moves.
pub open spec fn is_move_token(token: Seq<char>) -> bool {
    token == "up"@ || token == "down"@ || token == "left"@ || token == "right"@
}

/// The outcome of a turn with the move given by its characters.
pub open spec fn outcome_of(answer: Result<&'static str, MoveError>) -> Result<Seq<char>, MoveError> {
    match answer {
        Ok(token) => Ok(token@),
        Err(e) => Err(e),
    }
}

/// `outcome` is a right outcome of the turn for the snake `you` of the given
/// personality on `board`.
///
/// The mode follows from the sizes of the snakes, the goal from personality
/// and mode, and the grid from the obstacles of the personality. With no goal
/// the turn ends with the error of the goal. With a goal that no route leads
/// to it ends with [`MoveError::NoPathFound`], and with a goal where the head
/// is already with [`MoveError::PathTooShort`]. Otherwise the move is the
/// first move of a shortest route from the head to the goal.
pub open spec fn is_decision(
    personality: SnakePersonality,
    board: &Board,
    you: &Battlesnake,
    outcome: Result<Seq<char>, MoveError>,
) -> bool {
    let head = you.body@[0];
    let mode = spec_snake_mode(board, you, personality);
    let rows = occupancy(personality, board);
    match spec_goal(personality, mode, board, head, TieBreak::SmallestOpponent) {
        Err(e) => outcome == Err::<Seq<char>, MoveError>(e),
        Ok(goal) => {
            let from = spec_coord_to_pos(board, head);
            let to = spec_coord_to_pos(board, goal);
            if !reachable(rows, from, to) {
                outcome == Err::<Seq<char>, MoveError>(MoveError::NoPathFound)
            } else if from == to {
                outcome == Err::<Seq<char>, MoveError>(MoveError::PathTooShort)
            } else {
                exists|path: Seq<PathfindingPos>|
                    #![trigger is_shortest_route(rows, from, to, path)]
                    is_shortest_route(rows, from, to, path) && outcome == Ok::<
                        Seq<char>,
                        MoveError,
                    >(spec_next_move(head, spec_pos_to_coord(board, path[1])))
            }
        },
    }
}

/// The move of a snake that has no route to follow: towards the first cell
/// next to `head` that is on the grid and not blocked, trying above, below,
/// left and right in this order, and `"up"` where there is none.
pub open spec fn spec_fallback(rows: Seq<Seq<bool>>, board: &Board, head: Coord) -> Seq<char> {
    let at = spec_coord_to_pos(board, head);
    if passable_at(rows, at.0 as int, at.1 - 1) {
        "up"@
    } else if passable_at(rows, at.0 as int, at.1 + 1) {
        "down"@
    } else if passable_at(rows, at.0 - 1, at.1 as int) {
        "left"@
    } else if passable_at(rows, at.0 + 1, at.1 as int) {
        "right"@
    } else {
        "up"@
    }
}

/// Called when a game begins. The engine keeps nothing between turns, so
/// there is nothing to set up.
pub fn start(_game: &Game, _turn: &u32, _board: &Board, _you: &Battlesnake) {
}

/// Called when a game is over. The engine keeps nothing between turns, so
/// there is nothing to clear.
pub fn end(_game: &Game, _turn: &u32, _board: &Board, _you: &Battlesnake) {
}

/// Names the first move of a route: the move from `head` to the second cell
/// of the route. A route of fewer than two cells has no move.
pub fn determine_next_move(
    moves: &(Vec<PathfindingPos>, u32),
    board: &Board,
    head: &Coord,
) -> (next: Result<&'static str, MoveError>)
    requires
        moves.0@.len() >= 2 ==> on_grid(board, moves.0@[1]),
    ensures
        moves.0@.len() < 2 ==> outcome_of(next) == Err::<Seq<char>, MoveError>(
            MoveError::PathTooShort,
        ),
        moves.0@.len() >= 2 ==> outcome_of(next) == Ok::<Seq<char>, MoveError>(
            spec_next_move(*head, spec_pos_to_coord(board, moves.0@[1])),
        ),
{
    if moves.0.len() < 2 {
        return Err(MoveError::PathTooShort);
    }
    let converted_next_move = pos_to_coord(board, &moves.0[1]);
    Ok(get_next_move_from_coord(head, &converted_next_move))
}

/// Names a move for a snake that has no route to follow: towards a cell
/// next to `head` that can be entered, if there is one.
pub fn fallback_move(grid: &PathfindingBoard, board: &Board, head: &Coord) -> (token: &'static str)
    requires
        board.fits_grid(),
        board.contains(*head),
    ensures
        token@ == spec_fallback(grid@, board, *head),
        is_move_token(token@),
{
    let at = coord_to_pos(board, head);
    let col = at.0 as i32;
    let row = at.1 as i32;
    if grid.is_passable(col, row - 1) {
        "up"
    } else if grid.is_passable(col, row + 1) {
        "down"
    } else if grid.is_passable(col - 1, row) {
        "left"
    } else if grid.is_passable(col + 1, row) {
        "right"
    } else {
        "up"
    }
}

fn decide_on_grid(
    personality: &SnakePersonality,
    grid: &PathfindingBoard,
    board: &Board,
    you: &Battlesnake,
) -> (answer: Result<&'static str, MoveError>)
    requires
        board.valid(),
        you.body@.len() > 0,
        board.contains(you.body@[0]),
        grid@ == occupancy(*personality, board),
    ensures
        is_decision(*personality, board, you, outcome_of(answer)),
        answer matches Ok(token) ==> is_move_token(token@),
{
    let my_head = &you.body[0];
    let mode = get_snake_mode(board, you, personality);
    let moves = match determine_goal(personality, &mode, grid, board, my_head) {
        Ok(moves) => moves,
        Err(e) => {
            return Err(e);
        },
    };
    let ghost goal = spec_goal(*personality, mode, board, *my_head, TieBreak::SmallestOpponent)->Ok_0;
    let ghost from = spec_coord_to_pos(board, *my_head);
    let ghost to = spec_coord_to_pos(board, goal);
    proof {
        lemma_shortest_route_shape(grid@, from, to, moves.0@);
    }
    determine_next_move(&moves, board, my_head)
}

/// Decides the move of the turn for the snake `you` of the given personality
/// on `board`: it finds the mode, renders the grid, chooses the goal,
/// searches a shortest route and names its first move. Where there is no
/// such move it says why; [`decide_move_or_fallback`] and [`get_move`] name
/// a move then too.
pub fn decide_move(personality: &SnakePersonality, board: &Board, you: &Battlesnake) -> (answer:
    Result<&'static str, MoveError>)
    requires
        board.valid(),
        you.body@.len() > 0,
        board.contains(you.body@[0]),
    ensures
        is_decision(*personality, board, you, outcome_of(answer)),
        answer matches Ok(token) ==> is_move_token(token@),
{
    let (pathfinding_board, _) = build_pathfinding_board_with_hazards(personality, board, you);
    decide_on_grid(personality, &pathfinding_board, board, you)
}

/// Decides the move of the turn as [`decide_move`] does, and where that ends
/// without a move, names the move of [`fallback_move`] instead. Every turn
/// gets a move.
pub fn decide_move_or_fallback(
    personality: &SnakePersonality,
    board: &Board,
    you: &Battlesnake,
) -> (token: &'static str)
    requires
        board.valid(),
        you.body@.len() > 0,
        board.contains(you.body@[0]),
    ensures
        is_move_token(token@),
        exists|outcome: Result<Seq<char>, MoveError>|
            #![trigger is_decision(*personality, board, you, outcome)]
            is_decision(*personality, board, you, outcome) && token@ == match outcome {
                Ok(found) => found,
                Err(_) => spec_fallback(occupancy(*personality, board), board, you.body@[0]),
            },
{
    let (pathfinding_board, _) = build_pathfinding_board_with_hazards(personality, board, you);
    let answer = decide_on_grid(personality, &pathfinding_board, board, you);
    match answer {
        Ok(token) => token,
        Err(_) => fallback_move(&pathfinding_board, board, &you.body[0]),
    }
}

/// Answers the turn with a move for the snake `you`, which is a head hunter.
/// The move is the one that [`decide_move`] finds; where that ends without a
/// move, for want of a goal or of a route to it, it is the move of
/// [`fallback_move`]. Every turn gets one of the four moves.
pub fn get_move(_game: &Game, _turn: &u32, board: &Board, you: &Battlesnake) -> (token: &'static str)
    requires
        board.valid(),
        you.body@.len() > 0,
        board.contains(you.body@[0]),
    ensures
        is_move_token(token@),
        exists|outcome: Result<Seq<char>, MoveError>|
            #![trigger is_decision(SnakePersonality::HeadHunter, board, you, outcome)]
            is_decision(SnakePersonality::HeadHunter, board, you, outcome) && token@
                == match outcome {
                Ok(found) => found,
                Err(_) => spec_fallback(
                    occupancy(SnakePersonality::HeadHunter, board),
                    board,
                    you.body@[0],
                ),
            },
{
    let personality = SnakePersonality::HeadHunter;
    decide_move_or_fallback(&personality, board, you)
}

/// The move of the fallback leads to a cell next to the head that is on the
/// grid and not blocked, wherever the head has such a neighbour.
pub proof fn lemma_fallback_enters_free_cell(rows: Seq<Seq<bool>>, board: &Board, head: Coord)
    requires
        board.fits_grid(),
        board.contains(head),
        rows.len() == board.height,
        grid_width(rows) == board.width,
        exists|p: PathfindingPos| step(rows, spec_coord_to_pos(board, head), p),
    ensures
        exists|p: PathfindingPos|
            #![trigger step(rows, spec_coord_to_pos(board, head), p)]
            step(rows, spec_coord_to_pos(board, head), p) && spec_fallback(rows, board, head)
                == spec_next_move(head, spec_pos_to_coord(board, p)),
{
    let at = spec_coord_to_pos(board, head);
    let to = if passable_at(rows, at.0 as int, at.1 - 1) {
        PathfindingPos(at.0, (at.1 - 1) as i16)
    } else if passable_at(rows, at.0 as int, at.1 + 1) {
        PathfindingPos(at.0, (at.1 + 1) as i16)
    } else if passable_at(rows, at.0 - 1, at.1 as int) {
        PathfindingPos((at.0 - 1) as i16, at.1)
    } else {
        PathfindingPos((at.0 + 1) as i16, at.1)
    };
    assert(step(rows, at, to));
}

/// The move of a turn leads to a cell next to the head that is on the grid
/// of the turn and not blocked: the snake never turns into an obstacle that
/// its personality avoids.
pub proof fn lemma_decision_enters_free_cell(
    personality: SnakePersonality,
    board: &Board,
    you: &Battlesnake,
    token: Seq<char>,
)
    requires
        board.valid(),
        you.body@.len() > 0,
        board.contains(you.body@[0]),
        is_decision(personality, board, you, Ok(token)),
    ensures
        exists|p: PathfindingPos|
            #![trigger step(occupancy(personality, board), spec_coord_to_pos(board, you.body@[0]), p)]
            step(occupancy(personality, board), spec_coord_to_pos(board, you.body@[0]), p) && token
                == spec_next_move(you.body@[0], spec_pos_to_coord(board, p)),
{
    let head = you.body@[0];
    let rows = occupancy(personality, board);
    let mode = spec_snake_mode(board, you, personality);
    let goal = spec_goal(personality, mode, board, head, TieBreak::SmallestOpponent)->Ok_0;
    let from = spec_coord_to_pos(board, head);
    let to = spec_coord_to_pos(board, goal);
    let path = choose|path: Seq<PathfindingPos>|
        #![trigger is_shortest_route(rows, from, to, path)]
        is_shortest_route(rows, from, to, path) && Ok::<Seq<char>, MoveError>(token) == Ok::<
            Seq<char>,
            MoveError,
        >(spec_next_move(head, spec_pos_to_coord(board, path[1])));
    lemma_shortest_route_shape(rows, from, to, path);
}

} // verus!
