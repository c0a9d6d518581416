//! A flood-it style tile puzzle: a fixed grid of tiles whose origin region is
//! repeatedly recoloured (or reshaped) until the whole grid holds one tile.
pub mod board;
pub mod game;
pub mod input;
mod random;
pub mod tile;
