//! The choice of the cell to head for, and the route to it.

use crate::grid::{is_shortest_route, reachable, PathfindingBoard, PathfindingPos};
use crate::logic::{MoveError, SnakeMode, SnakePersonality};
use crate::search::find_path;
use crate::snapshot::{Board, Coord};
use crate::utils::{coord_to_pos, spec_coord_to_pos, squared_distance};
use vstd::prelude::*;

verus! {

/// What decides between opponents whose heads are equally far away.
#[derive(Clone, Copy, Debug, PartialEq, Eq, Structural)]
pub enum TieBreak {
    /// The size of the smallest opponent on the board. It is the same number
    /// for every opponent, so among equally distant heads the first in the
    /// snapshot is chosen.
    SmallestOpponent,
    /// The size of the opponent itself: among equally distant heads the one
    /// of the smaller snake is chosen.
    TargetLength,
}

/// The smallest of the squared distances from the cells of `heads` to `cell`.
pub open spec fn min_dist2(heads: Seq<Coord>, cell: Coord) -> int
    recommends
        heads.len() > 0,
    decreases heads.len(),
{
    if heads.len() <= 1 {
        heads[0].dist2(cell)
    } else if heads.last().dist2(cell) < min_dist2(heads.drop_last(), cell) {
        heads.last().dist2(cell)
    } else {
        min_dist2(heads.drop_last(), cell)
    }
}

/// The smallest number of `sizes`.
pub open spec fn min_size(sizes: Seq<int>) -> int
    recommends
        sizes.len() > 0,
    decreases sizes.len(),
{
    if sizes.len() <= 1 {
        sizes[0]
    } else if sizes.last() < min_size(sizes.drop_last()) {
        sizes.last()
    } else {
        min_size(sizes.drop_last())
    }
}

/// The food cell `f` is a better goal than the food cell `g` for a snake
/// whose head is at `head`: it is nearer to the head, or it is as near and
/// the opponent nearest to it is farther from it than the opponent nearest to
/// `g` is from `g`. With no opponent on the board only the distance from the
/// head counts.
pub open spec fn food_beats(board: &Board, head: Coord, f: Coord, g: Coord) -> bool {
    let heads = board.opponent_heads();
    ||| head.dist2(f) < head.dist2(g)
    ||| head.dist2(f) == head.dist2(g) && heads.len() > 0 && min_dist2(heads, f) > min_dist2(
        heads,
        g,
    )
}

/// `i` is the index of the food cell to head for: no food cell is a better
/// goal, and every food cell before it is a worse one.
pub open spec fn is_food_choice(board: &Board, head: Coord, i: int) -> bool {
    &&& 0 <= i < board.food@.len()
    &&& forall|j: int|
        0 <= j < board.food@.len() ==> !food_beats(board, head, #[trigger] board.food@[j], board.food@[i])
    &&& forall|j: int|
        0 <= j < i ==> food_beats(board, head, board.food@[i], #[trigger] board.food@[j])
}

/// The index of the food cell to head for.
pub open spec fn best_food(board: &Board, head: Coord) -> int {
    choose|i: int| is_food_choice(board, head, i)
}

/// The two numbers by which the opponent `k` is judged as prey: the squared
/// distance of its head from `head`, then what the tie-break names.
pub open spec fn prey_key(board: &Board, head: Coord, tie_break: TieBreak, k: int) -> (int, int) {
    (
        head.dist2(board.opponent_heads()[k]),
        match tie_break {
            TieBreak::SmallestOpponent => min_size(board.opponent_sizes()),
            TieBreak::TargetLength => board.opponent_sizes()[k],
        },
    )
}

/// The pair `a` comes before the pair `b`: by the first number, then by the
/// second.
pub open spec fn key_before(a: (int, int), b: (int, int)) -> bool {
    a.0 < b.0 || (a.0 == b.0 && a.1 < b.1)
}

/// The opponent `k` can be hunted: its head is not where `head` is.
pub open spec fn is_prey(board: &Board, head: Coord, k: int) -> bool {
    0 <= k < board.opponent_heads().len() && head.dist2(board.opponent_heads()[k]) != 0
}

/// `k` is the index, among the opponents, of the snake to hunt: it can be
/// hunted, no opponent that can be hunted has a smaller key, and every such
/// opponent before it has a larger one.
pub open spec fn is_prey_choice(board: &Board, head: Coord, tie_break: TieBreak, k: int) -> bool {
    &&& is_prey(board, head, k)
    &&& forall|j: int| #[trigger]
        is_prey(board, head, j) ==> !key_before(
            prey_key(board, head, tie_break, j),
            prey_key(board, head, tie_break, k),
        )
    &&& forall|j: int|
        j < k && #[trigger] is_prey(board, head, j) ==> key_before(
            prey_key(board, head, tie_break, k),
            prey_key(board, head, tie_break, j),
        )
}

/// The index, among the opponents, of the snake to hunt.
pub open spec fn best_prey(board: &Board, head: Coord, tie_break: TieBreak) -> int {
    choose|k: int| is_prey_choice(board, head, tie_break, k)
}

/// The goal of a snake that is out to eat: the food cell to head for, or no
/// goal where the board has no food.
pub open spec fn food_goal(board: &Board, head: Coord) -> Result<Coord, MoveError> {
    if board.food@.len() == 0 {
        Err(MoveError::NoGoalCandidate)
    } else {
        Ok(board.food@[best_food(board, head)])
    }
}

/// The goal of a snake that is out to kill: the head of the opponent to
/// hunt, or no goal where no opponent can be hunted.
pub open spec fn prey_goal(board: &Board, head: Coord, tie_break: TieBreak) -> Result<
    Coord,
    MoveError,
> {
    if exists|k: int| is_prey(board, head, k) {
        Ok(board.opponent_heads()[best_prey(board, head, tie_break)])
    } else {
        Err(MoveError::NoGoalCandidate)
    }
}

/// The goal of the turn. A snacky snake heads for food, and so does a head
/// hunter that is out to eat; a head hunter that is out to kill heads for an
/// opponent's head. The other personalities have no rule.
pub open spec fn spec_goal(
    personality: SnakePersonality,
    mode: SnakeMode,
    board: &Board,
    head: Coord,
    tie_break: TieBreak,
) -> Result<Coord, MoveError> {
    match personality {
        SnakePersonality::Snacky => food_goal(board, head),
        SnakePersonality::HeadHunter => if mode is Eat {
            food_goal(board, head)
        } else {
            prey_goal(board, head, tie_break)
        },
        _ => Err(MoveError::UnimplementedPersonality),
    }
}

/// The smallest distance is the distance of one of the heads, and none is
/// nearer.
pub proof fn lemma_min_dist2(heads: Seq<Coord>, cell: Coord)
    requires
        heads.len() > 0,
    ensures
        forall|k: int| 0 <= k < heads.len() ==> min_dist2(heads, cell) <= (#[trigger] heads[k]).dist2(cell),
        exists|k: int| 0 <= k < heads.len() && min_dist2(heads, cell) == (#[trigger] heads[k]).dist2(cell),
    decreases heads.len(),
{
    if heads.len() > 1 {
        let init = heads.drop_last();
        lemma_min_dist2(init, cell);
        let w = choose|k: int| 0 <= k < init.len() && min_dist2(init, cell) == (#[trigger] init[k]).dist2(cell);
        assert(heads[w] == init[w]);
        assert forall|k: int| 0 <= k < heads.len() implies min_dist2(heads, cell) <= (#[trigger] heads[k]).dist2(cell) by {
            if k < init.len() {
                assert(heads[k] == init[k]);
            }
        }
        if heads.last().dist2(cell) < min_dist2(init, cell) {
            assert(min_dist2(heads, cell) == heads[heads.len() - 1].dist2(cell));
        } else {
            assert(min_dist2(heads, cell) == heads[w].dist2(cell));
        }
    } else {
        assert(min_dist2(heads, cell) == heads[0].dist2(cell));
    }
}

/// Where the board has food, one food cell is the one to head for.
pub proof fn lemma_best_food(board: &Board, head: Coord)
    requires
        board.food@.len() > 0,
    ensures
        is_food_choice(board, head, best_food(board, head)),
{
    let n = board.food@.len() as int;
    lemma_food_choice_exists(board, head, n);
    let w = choose|b: int| is_food_choice_among(board, head, n, b);
    assert(is_food_choice(board, head, w));
}

/// `b` is the food cell to head for among the first `n` of the snapshot.
spec fn is_food_choice_among(board: &Board, head: Coord, n: int, b: int) -> bool {
    &&& 0 <= b < n
    &&& forall|j: int|
        0 <= j < n ==> !food_beats(board, head, #[trigger] board.food@[j], board.food@[b])
    &&& forall|j: int|
        0 <= j < b ==> food_beats(board, head, board.food@[b], #[trigger] board.food@[j])
}

proof fn lemma_food_choice_exists(board: &Board, head: Coord, n: int)
    requires
        0 < n <= board.food@.len(),
    ensures
        exists|b: int| is_food_choice_among(board, head, n, b),
    decreases n,
{
    if n == 1 {
        assert(is_food_choice_among(board, head, n, 0));
    } else {
        let m = n - 1;
        lemma_food_choice_exists(board, head, m);
        let b = choose|b: int| is_food_choice_among(board, head, m, b);
        if food_beats(board, head, board.food@[n - 1], board.food@[b]) {
            assert(is_food_choice_among(board, head, n, n - 1));
        } else {
            assert(is_food_choice_among(board, head, n, b));
        }
    }
}

/// Where an opponent can be hunted, one opponent is the one to hunt.
pub proof fn lemma_best_prey(board: &Board, head: Coord, tie_break: TieBreak)
    requires
        exists|k: int| is_prey(board, head, k),
    ensures
        is_prey_choice(board, head, tie_break, best_prey(board, head, tie_break)),
{
    let w = choose|k: int| is_prey(board, head, k);
    let n = board.opponent_heads().len() as int;
    lemma_prey_choice_exists(board, head, tie_break, n, w);
    let c = choose|b: int| is_prey_choice_among(board, head, tie_break, n, b);
    assert(is_prey_choice(board, head, tie_break, c));
}

/// `b` is the opponent to hunt among the first `n` of the snapshot.
spec fn is_prey_choice_among(
    board: &Board,
    head: Coord,
    tie_break: TieBreak,
    n: int,
    b: int,
) -> bool {
    &&& b < n
    &&& is_prey(board, head, b)
    &&& forall|j: int|
        j < n && #[trigger] is_prey(board, head, j) ==> !key_before(
            prey_key(board, head, tie_break, j),
            prey_key(board, head, tie_break, b),
        )
    &&& forall|j: int|
        j < b && #[trigger] is_prey(board, head, j) ==> key_before(
            prey_key(board, head, tie_break, b),
            prey_key(board, head, tie_break, j),
        )
}

proof fn lemma_prey_choice_exists(board: &Board, head: Coord, tie_break: TieBreak, n: int, w: int)
    requires
        w < n <= board.opponent_heads().len(),
        is_prey(board, head, w),
    ensures
        exists|b: int| is_prey_choice_among(board, head, tie_break, n, b),
    decreases n,
{
    if w == n - 1 {
        if exists|v: int| v < w && is_prey(board, head, v) {
            let v = choose|v: int| v < w && is_prey(board, head, v);
            let m = n - 1;
            lemma_prey_choice_exists(board, head, tie_break, m, v);
            let b = choose|b: int| is_prey_choice_among(board, head, tie_break, m, b);
            if key_before(
                prey_key(board, head, tie_break, n - 1),
                prey_key(board, head, tie_break, b),
            ) {
                assert(is_prey_choice_among(board, head, tie_break, n, n - 1));
            } else {
                assert(is_prey_choice_among(board, head, tie_break, n, b));
            }
        } else {
            assert(is_prey_choice_among(board, head, tie_break, n, n - 1));
        }
    } else {
        let m = n - 1;
        lemma_prey_choice_exists(board, head, tie_break, m, w);
        let b = choose|b: int| is_prey_choice_among(board, head, tie_break, m, b);
        if is_prey(board, head, n - 1) && key_before(
            prey_key(board, head, tie_break, n - 1),
            prey_key(board, head, tie_break, b),
        ) {
            assert(is_prey_choice_among(board, head, tie_break, n, n - 1));
        } else {
            assert(is_prey_choice_among(board, head, tie_break, n, b));
        }
    }
}

/// Only one food cell can be the one to head for.
pub proof fn lemma_food_choice_unique(board: &Board, head: Coord, i: int, j: int)
    requires
        is_food_choice(board, head, i),
        is_food_choice(board, head, j),
    ensures
        i == j,
{
    if i < j {
        assert(food_beats(board, head, board.food@[j], board.food@[i]));
    } else if j < i {
        assert(food_beats(board, head, board.food@[i], board.food@[j]));
    }
}

/// Only one opponent can be the one to hunt.
pub proof fn lemma_prey_choice_unique(board: &Board, head: Coord, tie_break: TieBreak, i: int, j: int)
    requires
        is_prey_choice(board, head, tie_break, i),
        is_prey_choice(board, head, tie_break, j),
    ensures
        i == j,
{
}

fn nearest_opponent(board: &Board, cell: &Coord) -> (nearest: u128)
    requires
        board.snakes@.len() >= 2,
    ensures
        nearest == min_dist2(board.opponent_heads(), *cell),
{
    let ghost heads = board.opponent_heads();
    let mut nearest = squared_distance(&board.snakes[1].head, cell);
    let mut s: usize = 2;
    while s < board.snakes.len()
        invariant
            2 <= s <= board.snakes@.len(),
            heads == board.opponent_heads(),
            nearest == min_dist2(heads.take(s - 1), *cell),
        decreases board.snakes@.len() - s,
    {
        let d = squared_distance(&board.snakes[s].head, cell);
        assert(heads.take(s as int).drop_last() =~= heads.take(s - 1));
        if d < nearest {
            nearest = d;
        }
        s += 1;
    }
    assert(heads.take(s - 1) =~= heads);
    nearest
}

fn smallest_opponent(board: &Board) -> (smallest: usize)
    requires
        board.snakes@.len() >= 2,
    ensures
        smallest == min_size(board.opponent_sizes()),
{
    let ghost sizes = board.opponent_sizes();
    let mut smallest = board.snakes[1].body.len();
    let mut s: usize = 2;
    while s < board.snakes.len()
        invariant
            2 <= s <= board.snakes@.len(),
            sizes == board.opponent_sizes(),
            smallest == min_size(sizes.take(s - 1)),
        decreases board.snakes@.len() - s,
    {
        let size = board.snakes[s].body.len();
        assert(sizes.take(s as int).drop_last() =~= sizes.take(s - 1));
        if size < smallest {
            smallest = size;
        }
        s += 1;
    }
    assert(sizes.take(s - 1) =~= sizes);
    smallest
}

/// Chooses the food cell to head for: the one nearest to `head`; among food
/// cells equally near, where the board has opponents, the one whose nearest
/// opponent head is farthest from it; among those that are still equal, the
/// first in the snapshot. Distances are Euclidean. Without food there is no
/// goal.
pub fn find_delicious_food(board: &Board, head: &Coord) -> (goal: Result<Coord, MoveError>)
    ensures
        goal == food_goal(board, *head),
        board.food@.len() > 0 ==> is_food_choice(board, *head, best_food(board, *head)),
{
    if board.food.len() == 0 {
        return Err(MoveError::NoGoalCandidate);
    }
    let contested = board.snakes.len() > 1;
    let mut best: usize = 0;
    let mut best_own = squared_distance(head, &board.food[0]);
    let mut best_other: u128 = if contested { nearest_opponent(board, &board.food[0]) } else { 0 };
    let mut i: usize = 1;
    while i < board.food.len()
        invariant
            1 <= i <= board.food@.len(),
            best < i,
            contested == (board.opponent_heads().len() > 0),
            contested == (board.snakes@.len() >= 2),
            best_own == head.dist2(board.food@[best as int]),
            contested ==> best_other == min_dist2(board.opponent_heads(), board.food@[best as int]),
            forall|j: int|
                0 <= j < i ==> !food_beats(board, *head, #[trigger] board.food@[j], board.food@[best as int]),
            forall|j: int|
                0 <= j < best ==> food_beats(board, *head, board.food@[best as int], #[trigger] board.food@[j]),
        decreases board.food@.len() - i,
    {
        let own = squared_distance(head, &board.food[i]);
        let other: u128 = if contested { nearest_opponent(board, &board.food[i]) } else { 0 };
        if own < best_own || (own == best_own && contested && other > best_other) {
            best = i;
            best_own = own;
            best_other = other;
        }
        i += 1;
    }
    proof {
        lemma_food_choice_unique(board, *head, best as int, best_food(board, *head));
    }
    Ok(board.food[best])
}

/// Chooses the opponent to hunt and answers with where its head is. Opponents
/// whose head is where `head` is are left out. Of the others the one whose
/// head is nearest to `head` is chosen; among heads equally near, the one
/// that `tie_break` prefers; among those that are still equal, the first in
/// the snapshot. Distances are Euclidean. With no opponent left there is no
/// goal.
pub fn find_delicious_snake(board: &Board, head: &Coord, tie_break: TieBreak) -> (goal: Result<
    Coord,
    MoveError,
>)
    ensures
        goal == prey_goal(board, *head, tie_break),
        (exists|k: int| is_prey(board, *head, k)) ==> is_prey_choice(
            board,
            *head,
            tie_break,
            best_prey(board, *head, tie_break),
        ),
{
    if board.snakes.len() < 2 {
        return Err(MoveError::NoGoalCandidate);
    }
    let smallest = smallest_opponent(board);
    let mut found = false;
    let mut best: usize = 0;
    let mut best_key: (u128, usize) = (0, 0);
    let mut s: usize = 1;
    while s < board.snakes.len()
        invariant
            1 <= s <= board.snakes@.len(),
            board.snakes@.len() >= 2,
            smallest == min_size(board.opponent_sizes()),
            !found ==> forall|j: int| j < s - 1 ==> !is_prey(board, *head, j),
            found ==> {
                &&& best < s - 1
                &&& is_prey(board, *head, best as int)
                &&& prey_key(board, *head, tie_break, best as int) == (best_key.0 as int, best_key.1 as int)
                &&& forall|j: int|
                    j < s - 1 && #[trigger] is_prey(board, *head, j) ==> !key_before(
                        prey_key(board, *head, tie_break, j),
                        prey_key(board, *head, tie_break, best as int),
                    )
                &&& forall|j: int|
                    j < best && #[trigger] is_prey(board, *head, j) ==> key_before(
                        prey_key(board, *head, tie_break, best as int),
                        prey_key(board, *head, tie_break, j),
                    )
            },
        decreases board.snakes@.len() - s,
    {
        let d = squared_distance(head, &board.snakes[s].head);
        let key: (u128, usize) = (
            d,
            match tie_break {
                TieBreak::SmallestOpponent => smallest,
                TieBreak::TargetLength => board.snakes[s].body.len(),
            },
        );
        if d != 0 && (!found || key.0 < best_key.0 || (key.0 == best_key.0 && key.1 < best_key.1)) {
            found = true;
            best = s - 1;
            best_key = key;
        }
        s += 1;
    }
    if !found {
        return Err(MoveError::NoGoalCandidate);
    }
    proof {
        lemma_prey_choice_unique(
            board,
            *head,
            tie_break,
            best as int,
            best_prey(board, *head, tie_break),
        );
    }
    Ok(board.snakes[best + 1].head)
}

/// Chooses the cell of the game to head for in this turn.
pub fn select_goal(
    personality: &SnakePersonality,
    mode: &SnakeMode,
    board: &Board,
    head: &Coord,
    tie_break: TieBreak,
) -> (goal: Result<Coord, MoveError>)
    ensures
        goal == spec_goal(*personality, *mode, board, *head, tie_break),
{
    match personality {
        SnakePersonality::Snacky => find_delicious_food(board, head),
        SnakePersonality::HeadHunter => {
            match mode {
                SnakeMode::Eat => find_delicious_food(board, head),
                SnakeMode::Kill => find_delicious_snake(board, head, tie_break),
            }
        },
        _ => Err(MoveError::UnimplementedPersonality),
    }
}

/// On a valid board the goal of the turn is a cell of the board.
pub proof fn lemma_goal_on_board(
    personality: SnakePersonality,
    mode: SnakeMode,
    board: &Board,
    head: Coord,
    tie_break: TieBreak,
)
    requires
        board.valid(),
    ensures
        spec_goal(personality, mode, board, head, tie_break) matches Ok(goal) ==> board.contains(goal),
{
    if let Ok(goal) = spec_goal(personality, mode, board, head, tie_break) {
        if personality is HeadHunter && mode is Kill {
            lemma_best_prey(board, head, tie_break);
            assert(is_prey(board, head, best_prey(board, head, tie_break)));
        } else {
            lemma_best_food(board, head);
        }
    }
}

/// Chooses the goal of the turn and searches a shortest route to it, from
/// the cell that shows `head` on the grid to the cell that shows the goal.
/// Among equally distant opponents the first is hunted
/// ([`TieBreak::SmallestOpponent`]).
///
/// Where there is a goal, the answer is a shortest route and the number of
/// its moves, or [`MoveError::NoPathFound`] where no route leads to the goal.
pub fn determine_goal(
    personality: &SnakePersonality,
    mode: &SnakeMode,
    pathfinding_board: &PathfindingBoard,
    board: &Board,
    head: &Coord,
) -> (found: Result<(Vec<PathfindingPos>, u32), MoveError>)
    requires
        board.valid(),
        board.contains(*head),
    ensures
        match spec_goal(*personality, *mode, board, *head, TieBreak::SmallestOpponent) {
            Err(e) => found matches Err(x) && x == e,
            Ok(goal) => {
                let from = spec_coord_to_pos(board, *head);
                let to = spec_coord_to_pos(board, goal);
                &&& found is Ok <==> reachable(pathfinding_board@, from, to)
                &&& found matches Ok((path, cost)) ==> is_shortest_route(
                    pathfinding_board@,
                    from,
                    to,
                    path@,
                ) && cost == path@.len() - 1
                &&& found matches Err(e) ==> e == MoveError::NoPathFound
            },
        },
{
    let self_pos = coord_to_pos(board, head);
    let goal = match select_goal(personality, mode, board, head, TieBreak::SmallestOpponent) {
        Ok(goal) => goal,
        Err(e) => {
            return Err(e);
        },
    };
    proof {
        lemma_goal_on_board(*personality, *mode, board, *head, TieBreak::SmallestOpponent);
    }
    let goal_pos = coord_to_pos(board, &goal);
    find_path(pathfinding_board, &self_pos, &goal_pos)
}

/// Of two food cells that are equally far from the head, the one that is
/// farther from the opponent nearest to it is the better goal. Here the
/// opponent `rival` is nearer to the food cell `j` than any opponent is to the
/// food cell `i`; so `j` is not chosen, and where the board has no other
/// food, `i` is.
pub proof fn lemma_food_tie_break(board: &Board, head: Coord, i: int, j: int, rival: int)
    requires
        0 <= i < board.food@.len(),
        0 <= j < board.food@.len(),
        head.dist2(board.food@[i]) == head.dist2(board.food@[j]),
        0 <= rival < board.opponent_heads().len(),
        forall|k: int|
            0 <= k < board.opponent_heads().len() ==> (#[trigger] board.opponent_heads()[k]).dist2(
                board.food@[i],
            ) > board.opponent_heads()[rival].dist2(board.food@[j]),
    ensures
        food_beats(board, head, board.food@[i], board.food@[j]),
        best_food(board, head) != j,
        board.food@.len() == 2 ==> best_food(board, head) == i,
{
    let heads = board.opponent_heads();
    lemma_min_dist2(heads, board.food@[i]);
    lemma_min_dist2(heads, board.food@[j]);
    let nearest = choose|k: int|
        0 <= k < heads.len() && min_dist2(heads, board.food@[i]) == (#[trigger] heads[k]).dist2(
            board.food@[i],
        );
    assert(heads[nearest].dist2(board.food@[i]) > heads[rival].dist2(board.food@[j]));
    assert(min_dist2(heads, board.food@[j]) <= heads[rival].dist2(board.food@[j]));
    lemma_best_food(board, head);
}

/// With [`TieBreak::SmallestOpponent`] the second number of the key is the
/// same for every opponent, so it never decides: the snake to hunt is the
/// first of those whose head is nearest.
pub proof fn lemma_smallest_opponent_never_decides(board: &Board, head: Coord, k: int)
    ensures
        is_prey_choice(board, head, TieBreak::SmallestOpponent, k) <==> {
            &&& is_prey(board, head, k)
            &&& forall|j: int| #[trigger]
                is_prey(board, head, j) ==> head.dist2(board.opponent_heads()[k]) <= head.dist2(
                    board.opponent_heads()[j],
                )
            &&& forall|j: int|
                j < k && #[trigger] is_prey(board, head, j) ==> head.dist2(
                    board.opponent_heads()[k],
                ) < head.dist2(board.opponent_heads()[j])
        },
{
    let tie = TieBreak::SmallestOpponent;
    assert forall|j: int| #[trigger] is_prey(board, head, j) implies (key_before(
        prey_key(board, head, tie, j),
        prey_key(board, head, tie, k),
    ) <==> head.dist2(board.opponent_heads()[j]) < head.dist2(board.opponent_heads()[k])) && (
    key_before(prey_key(board, head, tie, k), prey_key(board, head, tie, j)) <==> head.dist2(
        board.opponent_heads()[k],
    ) < head.dist2(board.opponent_heads()[j])) by {}
}

} // verus!
