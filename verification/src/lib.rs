//! Board and match-resolution engine for a tile-matching puzzle game.
//!
//! A grid of numbered tiles is cleared by selecting a set of cells whose
//! values sum to exactly ten. Each accepted clear awards a score made of a
//! per-tile reward, an area bonus from the selection's bounding box, and a
//! combo bonus that grows while consecutive clears spatially overlap.

pub mod bounds;
pub mod grid;
pub mod matching;
pub mod scoring;
pub mod session;
