//! An autonomous player for the snake game on a torus.
//!
//! The grid wraps at every edge. Once per tick the player looks ahead from
//! the current position, under a deadline and a depth limit, ranks the four
//! moves and applies the best one.

pub mod cells;
pub mod chance;
pub mod clock;
pub mod frontier;
pub mod game;
pub mod grid;
pub mod player;
pub mod search;
pub mod snapshot;
