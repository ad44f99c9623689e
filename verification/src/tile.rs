//! One grid cell: its value (mine, or a count of adjacent mines) and its
//! visibility state, together with the cell's fixed coordinates.

use vstd::prelude::*;

verus! {

/// What a tile holds once mine placement and numbering have run: a mine, or
/// the number of mines among its up-to-8 neighbors.
#[derive(Debug, Clone, Copy, PartialEq, Eq, Structural)]
pub enum TileValue {
    Bomb,
    Empty(u8),
}

/// How a tile is shown. `Exploded` and `WrongFlag` are terminal and are only
/// reached by the loss finalization sweep.
#[derive(Debug, Clone, Copy, PartialEq, Eq, Structural)]
pub enum TileState {
    Unrevealed,
    Revealed,
    Flagged,
    Exploded,
    WrongFlag,
}

/// One grid cell. `x` and `y` are 0-indexed grid coordinates, fixed for the
/// tile's lifetime.
#[derive(Debug, Clone, Copy, PartialEq, Eq, Structural)]
pub struct Tile {
    pub x: usize,
    pub y: usize,
    pub tile_value: TileValue,
    pub tile_state: TileState,
}

impl Tile {
    /// A fresh, unrevealed tile at the given coordinates.
    pub fn new(tile_value: TileValue, x: usize, y: usize) -> (t: Tile)
        ensures
            t == (Tile { x, y, tile_value, tile_state: TileState::Unrevealed }),
    {
        Tile { tile_value, tile_state: TileState::Unrevealed, x, y }
    }

    pub fn is_bomb(&self) -> (b: bool)
        ensures
            b == (self.tile_value == TileValue::Bomb),
    {
        matches!(self.tile_value, TileValue::Bomb)
    }

    /// True when the tile has no mine and no adjacent mines.
    pub fn is_empty(&self) -> (b: bool)
        ensures
            b == (self.tile_value == TileValue::Empty(0)),
    {
        matches!(self.tile_value, TileValue::Empty(0))
    }

    pub fn is_hidden(&self) -> (b: bool)
        ensures
            b == (self.tile_state == TileState::Unrevealed),
    {
        matches!(self.tile_state, TileState::Unrevealed)
    }

    pub fn is_revealed(&self) -> (b: bool)
        ensures
            b == (self.tile_state == TileState::Revealed),
    {
        matches!(self.tile_state, TileState::Revealed)
    }

    pub fn is_flagged(&self) -> (b: bool)
        ensures
            b == (self.tile_state == TileState::Flagged),
    {
        matches!(self.tile_state, TileState::Flagged)
    }

    pub fn is_exploded(&self) -> (b: bool)
        ensures
            b == (self.tile_state == TileState::Exploded),
    {
        matches!(self.tile_state, TileState::Exploded)
    }

    pub fn get_state(&self) -> (s: TileState)
        ensures
            s == self.tile_state,
    {
        self.tile_state
    }

    pub fn get_value(&self) -> (v: TileValue)
        ensures
            v == self.tile_value,
    {
        self.tile_value
    }

    pub fn set_state(&mut self, state: TileState)
        ensures
            *final(self) == (Tile { tile_state: state, ..*old(self) }),
    {
        self.tile_state = state;
    }

    pub fn set_value(&mut self, value: TileValue)
        ensures
            *final(self) == (Tile { tile_value: value, ..*old(self) }),
    {
        self.tile_value = value;
    }

    /// Flips `Unrevealed` to `Flagged` and back; any other state is kept.
    pub fn toggle_flag(&mut self)
        ensures
            *final(self) == (Tile { tile_state: spec_toggled(old(self).tile_state), ..*old(self) }),
    {
        match self.tile_state {
            TileState::Unrevealed => self.tile_state = TileState::Flagged,
            TileState::Flagged => self.tile_state = TileState::Unrevealed,
            _ => (),
        }
    }

    /// Forces the tile back to `Unrevealed`.
    pub fn unflag(&mut self)
        ensures
            *final(self) == (Tile { tile_state: TileState::Unrevealed, ..*old(self) }),
    {
        self.tile_state = TileState::Unrevealed;
    }
}

/// What one flag toggle does to a tile state: it cycles only between
/// `Unrevealed` and `Flagged`, and leaves every other state alone.
pub open spec fn spec_toggled(s: TileState) -> TileState {
    match s {
        TileState::Unrevealed => TileState::Flagged,
        TileState::Flagged => TileState::Unrevealed,
        _ => s,
    }
}

} // verus!
