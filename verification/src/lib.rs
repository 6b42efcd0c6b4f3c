//! Rule engine of a falling-block puzzle game.
//!
//! The crate owns the playing grid, the geometry and rotation of the pieces,
//! collision detection, piece placement, full-row detection and compaction,
//! and the generation of the piece sequence. It draws nothing and reads no
//! input: a front end asks it questions and renders what it answers.

pub mod control;
pub mod error;
pub mod grid;
pub mod laws;
mod palette;
pub mod playfield;
pub mod rsg;
pub mod shape;
