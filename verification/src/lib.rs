//! Rules engine of a grid-based mine-avoidance puzzle: board state,
//! deferred mine placement with a safe first move, flood-fill disclosure,
//! and win/lose detection. Rendering and platform input are left to the
//! surrounding application; this crate holds the verified game logic.

pub mod flood;
pub mod game;
pub mod grid;
pub mod rng;
pub mod tile;
