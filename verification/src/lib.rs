//! Octochess: a two-player strategy game on a hybrid board of square
//! ("Quad") and octagonal ("Octo") cells.
//!
//! The crate covers the game's core: the coordinate system that packs the
//! irregular quad/octagon tessellation into a dense tile index, the board
//! state with its pawn bookkeeping, and the look-ahead search that picks a
//! move for the computer-controlled side.

pub mod board;
pub mod brain;
pub mod game;
pub mod grid;
pub mod pawn;
pub mod session;
pub mod tile_map;
