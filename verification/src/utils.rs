//! The building blocks of a turn: coordinates, obstacles, the mode, and the
//! occupancy grid.

use crate::grid::{rendering, rows_of, text_of, PathfindingBoard, PathfindingPos};
use crate::logic::{SnakeMode, SnakePersonality};
use crate::snapshot::{Battlesnake, Board, Coord};
use itertools::Itertools;
use vstd::prelude::*;
use vstd::slice::slice_subrange;

verus! {

/// The cell of the grid that shows the cell `c` of the game: the same column,
/// and the rows counted from the other end.
pub open spec fn spec_coord_to_pos(board: &Board, c: Coord) -> PathfindingPos {
    PathfindingPos(c.x as i16, (board.height - 1 - c.y) as i16)
}

/// The cell of the game that the cell `p` of the grid shows.
pub open spec fn spec_pos_to_coord(board: &Board, p: PathfindingPos) -> Coord {
    Coord { x: p.0 as u32, y: (board.height - 1 - p.1) as u32 }
}

/// `p` is a cell of the grid of `board`.
pub open spec fn on_grid(board: &Board, p: PathfindingPos) -> bool {
    0 <= p.0 < board.width && 0 <= p.1 < board.height
}

/// The move that leads from `me` to `next`. On one row the step to the next
/// column is `"right"` and any other is `"left"`; between rows the step to the
/// next row above is `"up"` and any other is `"down"`.
pub open spec fn spec_next_move(me: Coord, next: Coord) -> Seq<char> {
    if me.y == next.y {
        if next.x == me.x + 1 {
            "right"@
        } else {
            "left"@
        }
    } else {
        if next.y == me.y + 1 {
            "up"@
        } else {
            "down"@
        }
    }
}

/// Names the move that leads from the cell `me` to the cell `next`.
pub fn get_next_move_from_coord(me: &Coord, next: &Coord) -> (token: &'static str)
    ensures
        token@ == spec_next_move(*me, *next),
{
    if me.y == next.y {
        if me.x < u32::MAX && next.x == me.x + 1 {
            return "right";
        }
        return "left";
    } else {
        if me.y < u32::MAX && next.y == me.y + 1 {
            return "up";
        }
        return "down";
    }
}

/// The square of the Euclidean distance between two cells. Cells are ordered
/// by their Euclidean distance from a cell as they are by this number.
pub fn squared_distance(a: &Coord, b: &Coord) -> (d: u128)
    ensures
        d == a.dist2(*b),
{
    let dx: u128 = if a.x >= b.x { (a.x - b.x) as u128 } else { (b.x - a.x) as u128 };
    let dy: u128 = if a.y >= b.y { (a.y - b.y) as u128 } else { (b.y - a.y) as u128 };
    assert(dx * dx <= 0xffff_ffff * 0xffff_ffff) by (nonlinear_arith)
        requires
            dx <= 0xffff_ffff,
    ;
    assert(dy * dy <= 0xffff_ffff * 0xffff_ffff) by (nonlinear_arith)
        requires
            dy <= 0xffff_ffff,
    ;
    assert(dx * dx == (a.x - b.x) * (a.x - b.x)) by (nonlinear_arith)
        requires
            dx == a.x - b.x || dx == b.x - a.x,
    ;
    assert(dy * dy == (a.y - b.y) * (a.y - b.y)) by (nonlinear_arith)
        requires
            dy == a.y - b.y || dy == b.y - a.y,
    ;
    dx * dx + dy * dy
}

/// Maps a cell of the game to the cell of the grid that shows it.
pub fn coord_to_pos(board: &Board, c: &Coord) -> (p: PathfindingPos)
    requires
        board.fits_grid(),
        board.contains(*c),
    ensures
        p == spec_coord_to_pos(board, *c),
        p.0 == c.x,
        p.1 == board.height - 1 - c.y,
        on_grid(board, p),
{
    let col = c.x;
    let row = board.height - 1 - c.y;
    PathfindingPos(col as i16, row as i16)
}

/// Maps a cell of the grid back to the cell of the game that it shows.
pub fn pos_to_coord(board: &Board, c: &PathfindingPos) -> (cell: Coord)
    requires
        on_grid(board, *c),
    ensures
        cell == spec_pos_to_coord(board, *c),
        cell.x == c.0,
        cell.y == board.height - 1 - c.1,
        board.contains(cell),
{
    let col = c.0 as u32;
    let row = board.height - 1 - c.1 as u32;
    Coord { x: col, y: row }
}

/// Mapping a cell of the board to the grid and back gives the cell again.
pub proof fn lemma_coord_round_trip(board: &Board, c: Coord)
    requires
        board.fits_grid(),
        board.contains(c),
    ensures
        on_grid(board, spec_coord_to_pos(board, c)),
        spec_pos_to_coord(board, spec_coord_to_pos(board, c)) == c,
{
}

/// Mapping a cell of the grid to the game and back gives the cell again.
pub proof fn lemma_pos_round_trip(board: &Board, p: PathfindingPos)
    requires
        board.fits_grid(),
        on_grid(board, p),
    ensures
        board.contains(spec_pos_to_coord(board, p)),
        spec_coord_to_pos(board, spec_pos_to_coord(board, p)) == p,
{
}

/// The cells of `cells` without repetitions: a cell stays where it occurs
/// first and is left out wherever it occurs again.
pub open spec fn first_occurrences(cells: Seq<Coord>) -> Seq<Coord>
    decreases cells.len(),
{
    if cells.len() == 0 {
        Seq::empty()
    } else if cells.drop_last().contains(cells.last()) {
        first_occurrences(cells.drop_last())
    } else {
        first_occurrences(cells.drop_last()).push(cells.last())
    }
}

/// The body segments of a snake that are obstacles to a snake of the given
/// personality. A head hunter leaves the head out and counts every other
/// cell of the body once; every other personality avoids the whole body.
pub open spec fn obstacle_segments(body: Seq<Coord>, personality: SnakePersonality) -> Seq<Coord> {
    if personality is HeadHunter {
        if body.len() > 0 {
            first_occurrences(body.skip(1))
        } else {
            Seq::empty()
        }
    } else {
        body
    }
}

/// Removing repetitions neither adds a cell nor loses one, and leaves no cell
/// twice.
pub proof fn lemma_first_occurrences(cells: Seq<Coord>)
    ensures
        forall|c: Coord| first_occurrences(cells).contains(c) <==> cells.contains(c),
        first_occurrences(cells).no_duplicates(),
        first_occurrences(cells).len() <= cells.len(),
    decreases cells.len(),
{
    if cells.len() > 0 {
        let earlier = cells.drop_last();
        let kept = first_occurrences(earlier);
        lemma_first_occurrences(earlier);
        assert forall|c: Coord| first_occurrences(cells).contains(c) <==> cells.contains(c) by {
            if cells.contains(c) {
                let i = choose|i: int| 0 <= i < cells.len() && cells[i] == c;
                if i < cells.len() - 1 {
                    assert(earlier[i] == c);
                    assert(earlier.contains(c));
                    assert(kept.contains(c));
                    if !earlier.contains(cells.last()) {
                        let j = choose|j: int| 0 <= j < kept.len() && kept[j] == c;
                        assert(kept.push(cells.last())[j] == c);
                    }
                } else if !earlier.contains(cells.last()) {
                    assert(kept.push(cells.last())[kept.len() as int] == c);
                }
            }
            if first_occurrences(cells).contains(c) {
                let j = choose|j: int|
                    0 <= j < first_occurrences(cells).len() && first_occurrences(cells)[j] == c;
                if j < kept.len() {
                    assert(kept[j] == c);
                    assert(kept.contains(c));
                    assert(earlier.contains(c));
                    let i = choose|i: int| 0 <= i < earlier.len() && earlier[i] == c;
                    assert(cells[i] == c);
                } else {
                    assert(cells[cells.len() - 1] == c);
                }
            }
        }
        if !earlier.contains(cells.last()) {
            assert(!kept.contains(cells.last()));
        }
    }
}

/// Calls `unique_by` of the crate itertools on the cells, with the pair of a
/// cell's coordinates as the key. The adaptor hands on, in their order, the
/// items whose key no earlier item had; the contract says so of the cells
/// that come back.
#[verifier::external_body]
fn unique_by_cell<'a>(cells: &'a [Coord]) -> (kept: Vec<&'a Coord>)
    ensures
        kept@.len() == first_occurrences(cells@).len(),
        forall|i: int| 0 <= i < kept@.len() ==> *(#[trigger] kept@[i]) == first_occurrences(cells@)[i],
{
    cells.iter().unique_by(|c| (c.x, c.y)).collect()
}

/// Lists the body segments of `snake` that a snake of the given personality
/// has to avoid.
pub fn get_target_body_from_personality<'a>(
    snake: &'a Battlesnake,
    personality: &SnakePersonality,
) -> (avoid: Vec<&'a Coord>)
    ensures
        avoid@.len() == obstacle_segments(snake.body@, *personality).len(),
        forall|i: int|
            0 <= i < avoid@.len() ==> *(#[trigger] avoid@[i]) == obstacle_segments(
                snake.body@,
                *personality,
            )[i],
{
    match personality {
        SnakePersonality::HeadHunter => {
            if snake.body.len() == 0 {
                return Vec::new();
            }
            let tail = slice_subrange(snake.body.as_slice(), 1, snake.body.len());
            unique_by_cell(tail)
        },
        _ => {
            let mut avoid: Vec<&'a Coord> = Vec::new();
            let mut i: usize = 0;
            while i < snake.body.len()
                invariant
                    i <= snake.body@.len(),
                    avoid@.len() == i,
                    forall|k: int| 0 <= k < i ==> *(#[trigger] avoid@[k]) == snake.body@[k],
                decreases snake.body@.len() - i,
            {
                avoid.push(&snake.body[i]);
                i += 1;
            }
            avoid
        },
    }
}

/// The mode of `snake` on `board`: a head hunter is out to kill when it has
/// more body segments than every opponent, and to eat otherwise; every other
/// personality is out to eat.
pub open spec fn spec_snake_mode(
    board: &Board,
    snake: &Battlesnake,
    personality: SnakePersonality,
) -> SnakeMode {
    if personality is HeadHunter && snake.body@.len() > 0 && forall|i: int|
        0 <= i < board.opponent_sizes().len() ==> #[trigger] board.opponent_sizes()[i]
            < snake.body@.len() {
        SnakeMode::Kill
    } else {
        SnakeMode::Eat
    }
}

/// Chooses the mode of the turn by comparing the size of `snake` with the
/// size of the largest opponent on `board`.
pub fn get_snake_mode(board: &Board, snake: &Battlesnake, personality: &SnakePersonality) -> (mode:
    SnakeMode)
    ensures
        mode == spec_snake_mode(board, snake, *personality),
{
    match personality {
        SnakePersonality::HeadHunter => {
            let mut largest_snake: usize = 0;
            let mut i: usize = 1;
            while i < board.snakes.len()
                invariant
                    1 <= i,
                    forall|k: int|
                        0 <= k < i - 1 && k < board.opponent_sizes().len()
                            ==> #[trigger] board.opponent_sizes()[k] <= largest_snake,
                    largest_snake == 0 || exists|k: int|
                        0 <= k < board.opponent_sizes().len() && #[trigger] board.opponent_sizes()[k]
                            == largest_snake,
                decreases board.snakes@.len() - i,
            {
                if board.snakes[i].body.len() > largest_snake {
                    largest_snake = board.snakes[i].body.len();
                }
                assert(board.opponent_sizes()[i - 1] <= largest_snake);
                i += 1;
            }
            if snake.body.len() > largest_snake {
                SnakeMode::Kill
            } else {
                SnakeMode::Eat
            }
        },
        _ => SnakeMode::Eat,
    }
}

/// The body segment `seg` shows in column `col` of row `row` of the grid.
pub open spec fn segment_at(board: &Board, seg: Coord, col: int, row: int) -> bool {
    seg.x == col && board.height - 1 - seg.y == row
}

/// A snake with the body `body` is an obstacle in column `col` of row `row`
/// of the grid.
pub open spec fn body_blocks(
    personality: SnakePersonality,
    board: &Board,
    body: Seq<Coord>,
    col: int,
    row: int,
) -> bool {
    exists|k: int|
        0 <= k < obstacle_segments(body, personality).len() && segment_at(
            board,
            #[trigger] obstacle_segments(body, personality)[k],
            col,
            row,
        )
}

/// Some snake of the board, the steered one included, is an obstacle in
/// column `col` of row `row` of the grid.
pub open spec fn cell_blocked(
    personality: SnakePersonality,
    board: &Board,
    col: int,
    row: int,
) -> bool {
    exists|a: int|
        0 <= a < board.snakes@.len() && body_blocks(
            personality,
            board,
            (#[trigger] board.snakes@[a]).body@,
            col,
            row,
        )
}

/// The occupancy grid of `board` for a snake of the given personality, top
/// row first; `true` marks a blocked cell. Hazards block nothing.
pub open spec fn occupancy(personality: SnakePersonality, board: &Board) -> Seq<Seq<bool>> {
    Seq::new(
        board.height as nat,
        |row: int| Seq::new(board.width as nat, |col: int| cell_blocked(personality, board, col, row)),
    )
}

/// `grid` and `lines` are the occupancy grid of `board` for a snake of the
/// given personality, and the text of that grid.
pub open spec fn is_encoding(
    personality: SnakePersonality,
    board: &Board,
    grid: &PathfindingBoard,
    lines: Seq<String>,
) -> bool {
    &&& grid.wf()
    &&& grid@ == occupancy(personality, board)
    &&& text_of(lines) == rendering(occupancy(personality, board))
}

/// `avoid` lists the obstacle segments of a snake with the body `body`.
spec fn lists_obstacles(
    avoid: Seq<&Coord>,
    body: Seq<Coord>,
    personality: SnakePersonality,
) -> bool {
    &&& avoid.len() == obstacle_segments(body, personality).len()
    &&& forall|k: int|
        0 <= k < avoid.len() ==> *(#[trigger] avoid[k]) == obstacle_segments(body, personality)[k]
}

fn segments_block(board: &Board, avoid: &Vec<&Coord>, col: u32, row: u32) -> (hit: bool)
    requires
        row < board.height,
    ensures
        hit == exists|k: int|
            0 <= k < avoid@.len() && segment_at(board, *(#[trigger] avoid@[k]), col as int, row as int),
{
    let mut k: usize = 0;
    while k < avoid.len()
        invariant
            k <= avoid@.len(),
            row < board.height,
            forall|j: int|
                0 <= j < k ==> !segment_at(board, *(#[trigger] avoid@[j]), col as int, row as int),
        decreases avoid@.len() - k,
    {
        let seg = avoid[k];
        if seg.x == col && seg.y < board.height && board.height - 1 - seg.y == row {
            return true;
        }
        k += 1;
    }
    false
}

fn snakes_block<'a>(
    personality: &SnakePersonality,
    board: &Board,
    avoid_lists: &Vec<Vec<&'a Coord>>,
    col: u32,
    row: u32,
) -> (hit: bool)
    requires
        row < board.height,
        avoid_lists@.len() == board.snakes@.len(),
        forall|a: int|
            0 <= a < avoid_lists@.len() ==> lists_obstacles(
                (#[trigger] avoid_lists@[a])@,
                board.snakes@[a].body@,
                *personality,
            ),
    ensures
        hit == cell_blocked(*personality, board, col as int, row as int),
{
    let mut a: usize = 0;
    while a < avoid_lists.len()
        invariant
            a <= avoid_lists@.len(),
            row < board.height,
            avoid_lists@.len() == board.snakes@.len(),
            forall|b: int|
                0 <= b < avoid_lists@.len() ==> lists_obstacles(
                    (#[trigger] avoid_lists@[b])@,
                    board.snakes@[b].body@,
                    *personality,
                ),
            forall|b: int|
                0 <= b < a ==> !body_blocks(
                    *personality,
                    board,
                    (#[trigger] board.snakes@[b]).body@,
                    col as int,
                    row as int,
                ),
        decreases avoid_lists@.len() - a,
    {
        let ghost body = board.snakes@[a as int].body@;
        if segments_block(board, &avoid_lists[a], col, row) {
            proof {
                let k = choose|k: int|
                    0 <= k < avoid_lists@[a as int]@.len() && segment_at(
                        board,
                        *(#[trigger] avoid_lists@[a as int]@[k]),
                        col as int,
                        row as int,
                    );
                assert(segment_at(
                    board,
                    obstacle_segments(body, *personality)[k],
                    col as int,
                    row as int,
                ));
            }
            return true;
        }
        proof {
            if body_blocks(*personality, board, body, col as int, row as int) {
                let k = choose|k: int|
                    0 <= k < obstacle_segments(body, *personality).len() && segment_at(
                        board,
                        #[trigger] obstacle_segments(body, *personality)[k],
                        col as int,
                        row as int,
                    );
                assert(segment_at(board, *avoid_lists@[a as int]@[k], col as int, row as int));
            }
        }
        a += 1;
    }
    false
}

/// Renders `board` into the occupancy grid of a snake of the given
/// personality, and into the text of that grid, one string for each row from
/// the top. A cell is blocked where a snake has a segment that the
/// personality avoids; hazards block nothing.
pub fn build_pathfinding_board_with_hazards(
    personality: &SnakePersonality,
    board: &Board,
    _me: &Battlesnake,
) -> (encoded: (PathfindingBoard, Vec<String>))
    requires
        board.fits_grid(),
    ensures
        is_encoding(*personality, board, &encoded.0, encoded.1@),
{
    let mut avoid_lists: Vec<Vec<&Coord>> = Vec::new();
    let mut a: usize = 0;
    while a < board.snakes.len()
        invariant
            a <= board.snakes@.len(),
            avoid_lists@.len() == a,
            forall|b: int|
                0 <= b < a ==> lists_obstacles(
                    (#[trigger] avoid_lists@[b])@,
                    board.snakes@[b].body@,
                    *personality,
                ),
        decreases board.snakes@.len() - a,
    {
        let avoid = get_target_body_from_personality(&board.snakes[a], personality);
        avoid_lists.push(avoid);
        a += 1;
    }
    let mut cells: Vec<Vec<bool>> = Vec::new();
    let mut row: u32 = 0;
    while row < board.height
        invariant
            row <= board.height,
            board.fits_grid(),
            avoid_lists@.len() == board.snakes@.len(),
            forall|b: int|
                0 <= b < avoid_lists@.len() ==> lists_obstacles(
                    (#[trigger] avoid_lists@[b])@,
                    board.snakes@[b].body@,
                    *personality,
                ),
            cells@.len() == row,
            forall|r: int|
                0 <= r < row ==> (#[trigger] cells@[r])@ == occupancy(*personality, board)[r],
        decreases board.height - row,
    {
        let mut line: Vec<bool> = Vec::new();
        let mut col: u32 = 0;
        while col < board.width
            invariant
                col <= board.width,
                row < board.height,
                avoid_lists@.len() == board.snakes@.len(),
                forall|b: int|
                    0 <= b < avoid_lists@.len() ==> lists_obstacles(
                        (#[trigger] avoid_lists@[b])@,
                        board.snakes@[b].body@,
                        *personality,
                    ),
                line@.len() == col,
                forall|c: int|
                    0 <= c < col ==> line@[c] == cell_blocked(*personality, board, c, row as int),
            decreases board.width - col,
        {
            let found_body = snakes_block(personality, board, &avoid_lists, col, row);
            line.push(found_body);
            col += 1;
        }
        cells.push(line);
        row += 1;
    }
    assert(rows_of(cells@) =~= occupancy(*personality, board));
    let pathfinding_board = PathfindingBoard::new(cells).unwrap();
    let string_board = pathfinding_board.render();
    (pathfinding_board, string_board)
}

/// A board has one encoding: rendering it twice gives the same grid and the
/// same text.
pub proof fn lemma_encoding_deterministic(
    personality: SnakePersonality,
    board: &Board,
    first_grid: &PathfindingBoard,
    first_lines: Seq<String>,
    second_grid: &PathfindingBoard,
    second_lines: Seq<String>,
)
    requires
        is_encoding(personality, board, first_grid, first_lines),
        is_encoding(personality, board, second_grid, second_lines),
    ensures
        first_grid@ == second_grid@,
        text_of(first_lines) == text_of(second_lines),
{
}

/// To a head hunter a snake is an obstacle exactly in the cells of its body
/// segments other than the head.
pub proof fn lemma_head_hunter_body_blocks(board: &Board, body: Seq<Coord>, col: int, row: int)
    ensures
        body_blocks(SnakePersonality::HeadHunter, board, body, col, row) <==> exists|i: int|
            1 <= i < body.len() && segment_at(board, #[trigger] body[i], col, row),
{
    let hunter = SnakePersonality::HeadHunter;
    let kept = obstacle_segments(body, hunter);
    if body.len() > 0 {
        lemma_first_occurrences(body.skip(1));
    }
    if body_blocks(hunter, board, body, col, row) {
        let k = choose|k: int| 0 <= k < kept.len() && segment_at(board, #[trigger] kept[k], col, row);
        assert(kept.contains(kept[k]));
        assert(body.skip(1).contains(kept[k]));
        let i = choose|i: int| 0 <= i < body.skip(1).len() && body.skip(1)[i] == kept[k];
        assert(segment_at(board, body[i + 1], col, row));
    }
    if exists|i: int| 1 <= i < body.len() && segment_at(board, #[trigger] body[i], col, row) {
        let i = choose|i: int| 1 <= i < body.len() && segment_at(board, #[trigger] body[i], col, row);
        assert(body.skip(1)[i - 1] == body[i]);
        assert(body.skip(1).contains(body[i]));
        assert(kept.contains(body[i]));
        let k = choose|k: int| 0 <= k < kept.len() && kept[k] == body[i];
        assert(segment_at(board, kept[k], col, row));
    }
}

/// On the grid of a head hunter a cell is blocked exactly where some snake
/// has a body segment other than its head.
pub proof fn lemma_head_hunter_blocked(board: &Board, col: int, row: int)
    ensures
        cell_blocked(SnakePersonality::HeadHunter, board, col, row) <==> exists|a: int, i: int|
            0 <= a < board.snakes@.len() && 1 <= i < board.snakes@[a].body@.len() && segment_at(
                board,
                #[trigger] board.snakes@[a].body@[i],
                col,
                row,
            ),
{
    let hunter = SnakePersonality::HeadHunter;
    if cell_blocked(hunter, board, col, row) {
        let a = choose|a: int|
            0 <= a < board.snakes@.len() && body_blocks(
                hunter,
                board,
                (#[trigger] board.snakes@[a]).body@,
                col,
                row,
            );
        let body = board.snakes@[a].body@;
        lemma_head_hunter_body_blocks(board, body, col, row);
        let i = choose|i: int| 1 <= i < body.len() && segment_at(board, #[trigger] body[i], col, row);
        assert(segment_at(board, board.snakes@[a].body@[i], col, row));
    }
    if exists|a: int, i: int|
        0 <= a < board.snakes@.len() && 1 <= i < board.snakes@[a].body@.len() && segment_at(
            board,
            #[trigger] board.snakes@[a].body@[i],
            col,
            row,
        ) {
        let (a, i) = choose|a: int, i: int|
            0 <= a < board.snakes@.len() && 1 <= i < board.snakes@[a].body@.len() && segment_at(
                board,
                #[trigger] board.snakes@[a].body@[i],
                col,
                row,
            );
        let body = board.snakes@[a].body@;
        lemma_head_hunter_body_blocks(board, body, col, row);
        assert(segment_at(board, body[i], col, row));
        assert(body_blocks(hunter, board, board.snakes@[a].body@, col, row));
    }
}

/// On the grid of a head hunter every body segment of a snake but its head
/// is blocked and shows as one `X`, however often a body comes by the cell.
pub proof fn lemma_head_hunter_blocks_body(board: &Board, a: int, i: int)
    requires
        0 <= a < board.snakes@.len(),
        1 <= i < board.snakes@[a].body@.len(),
        board.contains(board.snakes@[a].body@[i]),
    ensures
        ({
            let seg = board.snakes@[a].body@[i];
            let rows = occupancy(SnakePersonality::HeadHunter, board);
            &&& rows[board.height - 1 - seg.y][seg.x as int]
            &&& rendering(rows)[board.height - 1 - seg.y].len() == board.width
            &&& rendering(rows)[board.height - 1 - seg.y][seg.x as int] == 'X'
        }),
{
    let seg = board.snakes@[a].body@[i];
    lemma_head_hunter_blocked(board, seg.x as int, board.height - 1 - seg.y);
}

/// To a head hunter the body of a snake is no obstacle in the cell of the
/// snake's head, unless the body comes by that cell again. Where no snake has
/// another segment of its body there, the cell is passable and shows as `1`.
pub proof fn lemma_head_hunter_spares_head(board: &Board, a: int)
    requires
        0 <= a < board.snakes@.len(),
        board.snakes@[a].body@.len() > 0,
        forall|i: int|
            1 <= i < board.snakes@[a].body@.len() ==> #[trigger] board.snakes@[a].body@[i]
                != board.snakes@[a].body@[0],
    ensures
        ({
            let at = board.snakes@[a].body@[0];
            let rows = occupancy(SnakePersonality::HeadHunter, board);
            &&& !body_blocks(
                SnakePersonality::HeadHunter,
                board,
                board.snakes@[a].body@,
                at.x as int,
                board.height - 1 - at.y,
            )
            &&& board.contains(at) && (forall|b: int, i: int|
                0 <= b < board.snakes@.len() && 1 <= i < board.snakes@[b].body@.len()
                    ==> #[trigger] board.snakes@[b].body@[i] != at) ==> {
                &&& !rows[board.height - 1 - at.y][at.x as int]
                &&& rendering(rows)[board.height - 1 - at.y][at.x as int] == '1'
            }
        }),
{
    let at = board.snakes@[a].body@[0];
    lemma_head_hunter_body_blocks(board, board.snakes@[a].body@, at.x as int, board.height - 1 - at.y);
    lemma_head_hunter_blocked(board, at.x as int, board.height - 1 - at.y);
}

} // verus!
