//! Falling-block puzzle pieces: their cells, translation, rotation about an
//! anchor, collision detection and row clearing.

pub mod pos;
pub mod shape;
pub mod laws;
