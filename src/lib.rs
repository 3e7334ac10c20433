//! Placement and collision core of a falling-block puzzle game: integer
//! vectors, tetromino shapes, and a fixed-size playfield grid.
pub mod coords;
pub mod field;
pub mod figure;
