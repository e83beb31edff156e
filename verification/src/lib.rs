//! Per-turn decision engine of a snake on a rectangular board.
//!
//! Each turn the engine reads a snapshot of the board, renders it into an
//! occupancy grid, chooses a target cell, searches a shortest path to it and
//! answers with one of the four moves `"up"`, `"down"`, `"left"`, `"right"`.
//!
//! Two coordinate systems are in use and are kept apart by their types:
//! [`Coord`] is a cell of the game (origin bottom-left, `y` grows upwards),
//! [`grid::PathfindingPos`] a cell of the search grid (origin top-left, rows
//! grow downwards).

pub mod grid;
pub mod learning;
pub mod logic;
pub mod search;
pub mod snapshot;
pub mod utils;

pub use grid::{PathfindingBoard, PathfindingPos, Successor};
pub use snapshot::{Battlesnake, Board, Coord, Game};
