//! A verified falling-block puzzle engine: the seven pieces and their
//! rotations, the shuffled-bag randomizer, collision detection against a
//! fixed field, locking and line clearing, phantom-piece projection, and the
//! tick controller that turns button states and a clock sample into moves.

pub mod board;
pub mod global;
pub mod laws;
pub mod random;
pub mod tetromino;
