//! Core state engine of a Minesweeper-style puzzle game: a grid of cells,
//! a mine-field generator that keeps the first move safe, a breadth-first
//! reveal cascade, flag cycling, win/loss detection, and elapsed-time
//! tracking.

pub mod board;
pub mod cell;
mod clock;
pub mod grid;
mod sample;
pub mod solver;

pub use board::Board;
pub use board::BoardError;
pub use board::GameState;
pub use cell::BoardCell;
pub use cell::BoardCellState;
pub use grid::BoardCells;
