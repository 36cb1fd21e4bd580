//! Verified core of a Tetris-style placement engine.
//!
//! The library models boards, pieces and rotations, a bitplane engine that
//! computes landing positions, an input simulator with kick tables, a
//! queue/pattern engine with hold reordering, and the placement composer
//! that drives them.

pub mod piece;
pub mod placement;
pub mod board;
pub mod bits;
pub mod kick;
pub mod input;
pub mod search;
pub mod pattern;
pub mod grid;
pub mod codec;
pub mod ranged;
pub mod program;
pub mod composer;
pub mod text;
pub mod render;
pub mod pattern_text;

pub use piece::Piece;
pub use piece::Rotation;
pub use placement::Placement;
