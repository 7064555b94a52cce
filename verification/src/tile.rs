//! Tile records, grid coordinates, and the game status alphabet.

use vstd::prelude::*;

verus! {

/// Disclosure state of a single tile.
#[derive(Clone, Copy, Debug, PartialEq, Eq, Structural)]
pub enum TileState {
    Hidden,
    Revealed,
    Flagged,
}

/// One grid cell: disclosure state, mine membership, and the stored
/// count of neighboring mines (valid only after the placement phase).
#[derive(Clone, Copy, Debug, PartialEq, Eq, Structural)]
pub struct Tile {
    pub state: TileState,
    pub is_bomb: bool,
    pub neighboring_bombs: u8,
}

impl Tile {
    /// A fresh tile: hidden, mine-free, with a zero neighbor count.
    pub fn new() -> (t: Self)
        ensures
            t.state == TileState::Hidden,
            !t.is_bomb,
            t.neighboring_bombs == 0,
    {
        Self { state: TileState::Hidden, is_bomb: false, neighboring_bombs: 0 }
    }
}

/// A grid coordinate.
#[derive(Clone, Copy, Debug, PartialEq, Eq, Structural)]
pub struct Vec2 {
    pub x: usize,
    pub y: usize,
}

impl Vec2 {
    pub fn new(x: usize, y: usize) -> (v: Self)
        ensures
            v.x == x,
            v.y == y,
    {
        Self { x, y }
    }
}

/// Status of a round. `Playing` is initial; `Win` and `Lose` are terminal.
#[derive(Clone, Copy, Debug, PartialEq, Eq, Structural)]
pub enum GameStatus {
    Playing,
    Win,
    Lose,
}

/// What one flag toggle does to a tile's state: hidden and flagged swap,
/// revealed tiles are unaffected.
pub open spec fn toggled(s: TileState) -> TileState {
    match s {
        TileState::Hidden => TileState::Flagged,
        TileState::Flagged => TileState::Hidden,
        TileState::Revealed => TileState::Revealed,
    }
}

/// Applying `toggled` twice restores any tile state; in particular two
/// consecutive flag toggles return a hidden tile to hidden.
pub proof fn lemma_toggled_involutive(s: TileState)
    ensures
        toggled(toggled(s)) == s,
{
}

} // verus!
