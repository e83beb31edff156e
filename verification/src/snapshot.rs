//! The board as the game reports it at the start of a turn.

use vstd::prelude::*;

verus! {

/// A cell in game space: `x` counts columns from the left, `y` counts rows
/// from the bottom.
#[derive(Clone, Copy, Debug, PartialEq, Eq, Structural)]
pub struct Coord {
    pub x: u32,
    pub y: u32,
}

/// One snake on the board.
#[derive(Clone, Debug)]
pub struct Battlesnake {
    pub id: String,
    pub name: String,
    pub health: u32,
    /// The cells of the body from the head to the tail. Segments may lie on
    /// one cell. The size of a snake is the number of its segments.
    pub body: Vec<Coord>,
    /// The cell of the head as the game reports it.
    pub head: Coord,
    /// The length as the game reports it. The engine does not read it.
    pub length: u32,
    pub latency: String,
    pub shout: Option<String>,
}

/// The board of one turn.
#[derive(Clone, Debug)]
pub struct Board {
    pub height: u32,
    pub width: u32,
    pub food: Vec<Coord>,
    /// The snakes on the board. The first is the snake that the engine
    /// steers, the others are its opponents.
    pub snakes: Vec<Battlesnake>,
    /// Cells that the game marks as hazards. The engine does not read them.
    pub hazards: Vec<Coord>,
}

/// The game a turn belongs to.
#[derive(Clone, Debug)]
pub struct Game {
    pub id: String,
    pub timeout: u32,
}

impl Coord {
    /// The square of the Euclidean distance between two cells.
    pub open spec fn dist2(self, other: Coord) -> int {
        (self.x - other.x) * (self.x - other.x) + (self.y - other.y) * (self.y - other.y)
    }
}

impl Board {
    /// The largest width and height that the search grid can address.
    pub open spec fn fits_grid(&self) -> bool {
        self.width <= i16::MAX && self.height <= i16::MAX
    }

    /// `c` lies on the board.
    pub open spec fn contains(&self, c: Coord) -> bool {
        c.x < self.width && c.y < self.height
    }

    /// The heads of the opponents, in the order of the snapshot.
    pub open spec fn opponent_heads(&self) -> Seq<Coord> {
        Seq::new(
            if self.snakes@.len() > 0 { (self.snakes@.len() - 1) as nat } else { 0 },
            |i: int| self.snakes@[i + 1].head,
        )
    }

    /// The number of body segments of each opponent, in the order of the
    /// snapshot.
    pub open spec fn opponent_sizes(&self) -> Seq<int> {
        Seq::new(
            if self.snakes@.len() > 0 { (self.snakes@.len() - 1) as nat } else { 0 },
            |i: int| self.snakes@[i + 1].body@.len() as int,
        )
    }

    /// What the engine relies on in a snapshot: the board is not empty and
    /// small enough for the search grid, it holds the snake that is steered,
    /// and every food cell and every head lies on the board.
    pub open spec fn valid(&self) -> bool {
        &&& 0 < self.width
        &&& 0 < self.height
        &&& self.fits_grid()
        &&& self.snakes@.len() >= 1
        &&& forall|i: int| 0 <= i < self.food@.len() ==> self.contains(#[trigger] self.food@[i])
        &&& forall|i: int|
            0 <= i < self.snakes@.len() ==> self.contains((#[trigger] self.snakes@[i]).head)
    }

    /// Tests at run time what [`Board::valid`] states.
    pub fn is_valid(&self) -> (ok: bool)
        ensures
            ok == self.valid(),
    {
        if self.width == 0 || self.height == 0 || self.width > 32767 || self.height > 32767
            || self.snakes.len() == 0 {
            return false;
        }
        let mut i: usize = 0;
        while i < self.food.len()
            invariant
                i <= self.food@.len(),
                forall|k: int| 0 <= k < i ==> self.contains(#[trigger] self.food@[k]),
            decreases self.food@.len() - i,
        {
            if self.food[i].x >= self.width || self.food[i].y >= self.height {
                return false;
            }
            i += 1;
        }
        let mut j: usize = 0;
        while j < self.snakes.len()
            invariant
                j <= self.snakes@.len(),
                forall|k: int| 0 <= k < j ==> self.contains((#[trigger] self.snakes@[k]).head),
            decreases self.snakes@.len() - j,
        {
            if self.snakes[j].head.x >= self.width || self.snakes[j].head.y >= self.height {
                return false;
            }
            j += 1;
        }
        true
    }
}

} // verus!
