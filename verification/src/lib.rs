//! Rules engine for a Minesweeper game: a rectangular grid of tiles, deferred
//! mine placement seeded by the first click, adjacency numbering, flood-fill
//! reveal of zero regions, chorded reveal, flagging, and win/loss detection.
//!
//! The engine is driven purely by coordinate-based calls; rendering and input
//! decoding live outside it and only read its state.

use vstd::prelude::*;

pub mod board;
pub mod game;
pub mod place;
pub mod flood;
pub mod tile;

verus! {

/// Width of a freshly started game.
pub const DEFAULT_WIDTH: usize = 11;
/// Height of a freshly started game.
pub const DEFAULT_HEIGHT: usize = 11;

/// Largest grid width that `increase_size` will grow to.
pub const MAX_WIDTH: usize = 950;
/// Largest grid height that `increase_size` will grow to.
pub const MAX_HEIGHT: usize = 950;
/// Smallest grid width that `decrease_size` will shrink to.
pub const MIN_WIDTH: usize = 1;
/// Smallest grid height that `decrease_size` will shrink to.
pub const MIN_HEIGHT: usize = 1;

/// How many columns a single resize step adds or removes.
pub const WIDTH_INCREMENT: usize = 5;
/// How many rows a single resize step adds or removes.
pub const HEIGHT_INCREMENT: usize = 5;

} // verus!
