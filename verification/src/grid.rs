//! The search grid: which cells can be entered, and what a route is.

use vstd::prelude::*;

verus! {

/// A cell in grid space: `.0` is the column, counted from the left, `.1` the
/// row, counted from the top.
#[derive(Clone, Copy, Debug, PartialEq, Eq, Hash, Structural)]
pub struct PathfindingPos(pub i16, pub i16);

/// A cell that can be entered from a neighbouring cell, and what the step
/// costs.
#[derive(Clone, Copy, Debug, PartialEq, Eq, Structural)]
pub struct Successor {
    pub pos: PathfindingPos,
    pub cost: u32,
}

/// The occupancy grid of one turn: a rectangle of cells, each blocked or
/// passable. Row 0 is the top row.
#[derive(Debug)]
pub struct PathfindingBoard {
    cells: Vec<Vec<bool>>,
}

/// The Manhattan distance between two cells.
pub open spec fn spec_manhattan(a: PathfindingPos, b: PathfindingPos) -> int {
    (if a.0 >= b.0 { a.0 - b.0 } else { b.0 - a.0 })
        + (if a.1 >= b.1 { a.1 - b.1 } else { b.1 - a.1 })
}

/// Two cells share an edge.
pub open spec fn adjacent(a: PathfindingPos, b: PathfindingPos) -> bool {
    spec_manhattan(a, b) == 1
}

/// The rows have one length, and rows and columns can be counted in an `i16`.
pub open spec fn is_rectangle(rows: Seq<Seq<bool>>) -> bool {
    &&& rows.len() <= i16::MAX
    &&& forall|r: int| 0 <= r < rows.len() ==> (#[trigger] rows[r]).len() == rows[0].len()
    &&& rows.len() > 0 ==> rows[0].len() <= i16::MAX
}

/// The rows of a grid as text: `X` for a blocked cell, `1` for a passable one.
pub open spec fn rendering(rows: Seq<Seq<bool>>) -> Seq<Seq<char>> {
    Seq::new(rows.len(), |r: int| Seq::new(rows[r].len(), |c: int| if rows[r][c] { 'X' } else { '1' }))
}

/// The number of columns of a grid.
pub open spec fn grid_width(rows: Seq<Seq<bool>>) -> int {
    if rows.len() > 0 {
        rows[0].len() as int
    } else {
        0
    }
}

/// Column `col` of row `row` is a cell of the grid and is not blocked.
pub open spec fn passable_at(rows: Seq<Seq<bool>>, col: int, row: int) -> bool {
    0 <= row < rows.len() && 0 <= col < grid_width(rows) && !rows[row][col]
}

/// `p` is a cell of the grid and is not blocked.
pub open spec fn passable(rows: Seq<Seq<bool>>, p: PathfindingPos) -> bool {
    passable_at(rows, p.0 as int, p.1 as int)
}

/// One move: from a cell to a passable cell that shares an edge with it. The
/// cell that is left need not be passable.
pub open spec fn step(rows: Seq<Seq<bool>>, from: PathfindingPos, to: PathfindingPos) -> bool {
    adjacent(from, to) && passable(rows, to)
}

/// `path` leads from `start` to `goal` by moves of the grid.
pub open spec fn is_route(
    rows: Seq<Seq<bool>>,
    start: PathfindingPos,
    goal: PathfindingPos,
    path: Seq<PathfindingPos>,
) -> bool {
    &&& path.len() > 0
    &&& path[0] == start
    &&& path[path.len() - 1] == goal
    &&& forall|i: int| 0 <= i < path.len() - 1 ==> step(rows, #[trigger] path[i], path[i + 1])
}

/// Some route leads from `start` to `goal`.
pub open spec fn reachable(rows: Seq<Seq<bool>>, start: PathfindingPos, goal: PathfindingPos) -> bool {
    exists|path: Seq<PathfindingPos>| is_route(rows, start, goal, path)
}

/// `path` is a route from `start` to `goal`, and no route between them has
/// fewer moves.
pub open spec fn is_shortest_route(
    rows: Seq<Seq<bool>>,
    start: PathfindingPos,
    goal: PathfindingPos,
    path: Seq<PathfindingPos>,
) -> bool {
    &&& is_route(rows, start, goal, path)
    &&& forall|other: Seq<PathfindingPos>| #[trigger]
        is_route(rows, start, goal, other) ==> path.len() <= other.len()
}

/// The cell at column `col` of row `row` as a successor, if it can be
/// entered.
pub open spec fn successor_at(rows: Seq<Seq<bool>>, col: int, row: int) -> Seq<Successor> {
    if passable_at(rows, col, row) {
        seq![Successor { pos: PathfindingPos(col as i16, row as i16), cost: 1 }]
    } else {
        Seq::empty()
    }
}

/// The cells that can be entered from `p`, in the order left, above, below,
/// right, each at cost 1.
pub open spec fn successors(rows: Seq<Seq<bool>>, p: PathfindingPos) -> Seq<Successor> {
    successor_at(rows, p.0 - 1, p.1 as int) + successor_at(rows, p.0 as int, p.1 - 1)
        + successor_at(rows, p.0 as int, p.1 + 1) + successor_at(rows, p.0 + 1, p.1 as int)
}

/// The rows of a grid that is stored row by row.
pub open spec fn rows_of(cells: Seq<Vec<bool>>) -> Seq<Seq<bool>> {
    Seq::new(cells.len(), |r: int| cells[r]@)
}

/// The characters of each line of a text.
pub open spec fn text_of(lines: Seq<String>) -> Seq<Seq<char>> {
    Seq::new(lines.len(), |r: int| lines[r]@)
}

impl PathfindingBoard {
    /// The rows of the grid, top row first; `true` marks a blocked cell.
    pub closed spec fn view(&self) -> Seq<Seq<bool>> {
        rows_of(self.cells@)
    }

    #[verifier::type_invariant]
    spec fn rectangular(&self) -> bool {
        is_rectangle(rows_of(self.cells@))
    }

    /// The grid is a rectangle. Every grid is.
    pub open spec fn wf(&self) -> bool {
        is_rectangle(self@)
    }

    /// Makes a grid of the given rows, where `true` marks a blocked cell.
    /// Rows of different lengths, and more rows or columns than an `i16`
    /// counts, are refused.
    pub fn new(cells: Vec<Vec<bool>>) -> (made: Option<PathfindingBoard>)
        ensures
            made is Some <==> is_rectangle(rows_of(cells@)),
            made matches Some(grid) ==> grid@ == rows_of(cells@) && grid.wf(),
    {
        let ghost rows = rows_of(cells@);
        if cells.len() > 32767 {
            return None;
        }
        if cells.len() > 0 {
            let width = cells[0].len();
            if width > 32767 {
                return None;
            }
            let mut r: usize = 1;
            while r < cells.len()
                invariant
                    1 <= r <= cells@.len(),
                    width == cells@[0]@.len(),
                    rows == rows_of(cells@),
                    forall|k: int| 0 <= k < r ==> (#[trigger] rows[k]).len() == width,
                decreases cells@.len() - r,
            {
                if cells[r].len() != width {
                    assert(rows[r as int].len() != rows[0].len());
                    return None;
                }
                r += 1;
            }
        }
        Some(PathfindingBoard { cells })
    }

    /// The number of rows.
    pub fn height(&self) -> (h: usize)
        ensures
            h == self@.len(),
    {
        self.cells.len()
    }

    /// The number of columns.
    pub fn width(&self) -> (w: usize)
        ensures
            w == grid_width(self@),
    {
        if self.cells.len() > 0 {
            self.cells[0].len()
        } else {
            0
        }
    }

    /// Whether column `col` of row `row` is a cell of the grid that can be
    /// entered.
    pub fn is_passable(&self, col: i32, row: i32) -> (free: bool)
        ensures
            free == passable_at(self@, col as int, row as int),
    {
        proof {
            use_type_invariant(self);
        }
        if col < 0 || row < 0 {
            return false;
        }
        let c = col as usize;
        let r = row as usize;
        if r >= self.cells.len() {
            return false;
        }
        assert(self@[r as int].len() == self@[0].len());
        if c >= self.cells[r].len() {
            return false;
        }
        !self.cells[r][c]
    }

    fn push_if_passable(&self, out: &mut Vec<Successor>, col: i32, row: i32)
        ensures
            final(out)@ == old(out)@ + successor_at(self@, col as int, row as int),
    {
        if self.is_passable(col, row) {
            out.push(Successor { pos: PathfindingPos(col as i16, row as i16), cost: 1 });
        }
    }

    /// The cells that can be entered from `p`: of the four cells that share an
    /// edge with `p`, those on the grid that are not blocked, each at cost 1.
    /// They are the cells that one move leads to from `p`, each listed once.
    pub fn get_successors(&self, p: &PathfindingPos) -> (next: Vec<Successor>)
        ensures
            next@ == successors(self@, *p),
            forall|q: PathfindingPos|
                step(self@, *p, q) <==> exists|k: int|
                    0 <= k < next@.len() && (#[trigger] next@[k]).pos == q,
            forall|k: int| 0 <= k < next@.len() ==> (#[trigger] next@[k]).cost == 1,
            forall|j: int, k: int| 0 <= j < k < next@.len() ==> next@[j].pos != next@[k].pos,
    {
        let col = p.0 as i32;
        let row = p.1 as i32;
        let mut next: Vec<Successor> = Vec::new();
        self.push_if_passable(&mut next, col - 1, row);
        self.push_if_passable(&mut next, col, row - 1);
        self.push_if_passable(&mut next, col, row + 1);
        self.push_if_passable(&mut next, col + 1, row);
        proof {
            use_type_invariant(self);
            lemma_successors_are_steps(self@, *p);
        }
        next
    }

    /// The grid as text, one string for each row from the top: `X` for a
    /// blocked cell, `1` for a passable one.
    pub fn render(&self) -> (lines: Vec<String>)
        ensures
            text_of(lines@) == rendering(self@),
    {
        let mut lines: Vec<String> = Vec::new();
        let mut r: usize = 0;
        while r < self.cells.len()
            invariant
                r <= self.cells@.len(),
                lines@.len() == r,
                forall|k: int| 0 <= k < r ==> (#[trigger] lines@[k])@ == rendering(self@)[k],
            decreases self.cells@.len() - r,
        {
            let mut line = String::new();
            let mut c: usize = 0;
            while c < self.cells[r].len()
                invariant
                    r < self.cells@.len(),
                    c <= self.cells@[r as int]@.len(),
                    line@.len() == c,
                    forall|k: int| 0 <= k < c ==> line@[k] == rendering(self@)[r as int][k],
                decreases self.cells@[r as int]@.len() - c,
            {
                proof {
                    reveal_strlit("X");
                    reveal_strlit("1");
                }
                if self.cells[r][c] {
                    line.append("X");
                } else {
                    line.append("1");
                }
                c += 1;
            }
            lines.push(line);
            r += 1;
        }
        lines
    }
}

/// The Manhattan distance between two cells.
pub fn manhattan(a: &PathfindingPos, b: &PathfindingPos) -> (d: u32)
    ensures
        d == spec_manhattan(*a, *b),
{
    let dx: i32 = if a.0 >= b.0 { a.0 as i32 - b.0 as i32 } else { b.0 as i32 - a.0 as i32 };
    let dy: i32 = if a.1 >= b.1 { a.1 as i32 - b.1 as i32 } else { b.1 as i32 - a.1 as i32 };
    (dx + dy) as u32
}

/// The successors of a cell are exactly the cells that one move leads to,
/// each listed once and at cost 1.
pub proof fn lemma_successors_are_steps(rows: Seq<Seq<bool>>, p: PathfindingPos)
    requires
        is_rectangle(rows),
    ensures
        forall|q: PathfindingPos|
            step(rows, p, q) <==> exists|k: int|
                0 <= k < successors(rows, p).len() && (#[trigger] successors(rows, p)[k]).pos == q,
        forall|k: int|
            0 <= k < successors(rows, p).len() ==> (#[trigger] successors(rows, p)[k]).cost == 1,
        forall|j: int, k: int|
            0 <= j < k < successors(rows, p).len() ==> successors(rows, p)[j].pos != successors(
                rows,
                p,
            )[k].pos,
{
    let left = successor_at(rows, p.0 - 1, p.1 as int);
    let above = successor_at(rows, p.0 as int, p.1 - 1);
    let below = successor_at(rows, p.0 as int, p.1 + 1);
    let all = successors(rows, p);
    assert forall|q: PathfindingPos| step(rows, p, q) implies exists|k: int|
        0 <= k < all.len() && (#[trigger] all[k]).pos == q by {
        if q.0 == p.0 - 1 && q.1 == p.1 {
            assert(all[0].pos == q);
        } else if q.0 == p.0 && q.1 == p.1 - 1 {
            assert(all[left.len() as int].pos == q);
        } else if q.0 == p.0 && q.1 == p.1 + 1 {
            assert(all[(left.len() + above.len()) as int].pos == q);
        } else {
            assert(all[(left.len() + above.len() + below.len()) as int].pos == q);
        }
    }
}

/// The Manhattan distance never exceeds the number of moves of a route, so a
/// search that is guided by it finds a shortest route.
pub proof fn lemma_manhattan_admissible(
    rows: Seq<Seq<bool>>,
    start: PathfindingPos,
    goal: PathfindingPos,
    path: Seq<PathfindingPos>,
)
    requires
        is_route(rows, start, goal, path),
    ensures
        spec_manhattan(start, goal) <= path.len() - 1,
    decreases path.len(),
{
    if path.len() > 1 {
        let rest = path.skip(1);
        assert(step(rows, path[0], path[1]));
        assert forall|i: int| 0 <= i < rest.len() - 1 implies step(
            rows,
            #[trigger] rest[i],
            rest[i + 1],
        ) by {
            assert(step(rows, path[i + 1], path[i + 2]));
        }
        lemma_manhattan_admissible(rows, path[1], goal, rest);
    }
}

/// A goal whose four neighbours are all blocked or off the grid cannot be
/// reached from a cell that is neither the goal nor one of those neighbours.
pub proof fn lemma_enclosed_goal_unreachable(
    rows: Seq<Seq<bool>>,
    start: PathfindingPos,
    goal: PathfindingPos,
)
    requires
        start != goal,
        !adjacent(start, goal),
        forall|q: PathfindingPos| adjacent(q, goal) ==> !passable(rows, q),
    ensures
        !reachable(rows, start, goal),
{
    assert forall|path: Seq<PathfindingPos>| !is_route(rows, start, goal, path) by {
        if is_route(rows, start, goal, path) {
            let n = path.len() as int;
            assert(step(rows, path[n - 2], path[n - 2 + 1]));
            if n > 2 {
                assert(step(rows, path[n - 3], path[n - 3 + 1]));
            }
        }
    }
}

/// A shortest route from a cell to itself has no move, and one between
/// different cells has at least one; every cell after the first is passable.
pub proof fn lemma_shortest_route_shape(
    rows: Seq<Seq<bool>>,
    start: PathfindingPos,
    goal: PathfindingPos,
    path: Seq<PathfindingPos>,
)
    requires
        is_shortest_route(rows, start, goal, path),
    ensures
        path.len() == 1 <==> start == goal,
        forall|i: int| 1 <= i < path.len() ==> passable(rows, #[trigger] path[i]),
{
    if start == goal {
        assert(is_route(rows, start, goal, seq![start]));
    }
    assert forall|i: int| 1 <= i < path.len() implies passable(rows, #[trigger] path[i]) by {
        assert(step(rows, path[i - 1], path[i - 1 + 1]));
    }
}

} // verus!
