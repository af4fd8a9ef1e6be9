//! Core of a falling-block puzzle game: integer grid geometry, frame timers
//! for the line-clear animation, four-cell pieces with pivot-relative
//! rotation, and a board with collision detection, row clearing and gravity
//! compaction.

pub mod animation;
pub mod board;
pub mod game;
pub mod grid;
pub mod piece;
pub mod primitives;
pub mod random;
pub mod timing;
