//! A verified core for a species-extended Game of Life: typed cells that
//! fight a rock-paper-scissors battle when a cell is born or contested,
//! rotatable cell-cluster patterns, drag-capture of live regions, and
//! region-bounded random pattern spawning.

pub mod cell;
pub mod grid;
pub mod pattern;
pub mod player;
mod rng;
pub mod score;
pub mod store;
