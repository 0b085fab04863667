//! Core simulation of a single-screen paddle-and-target game.
//!
//! A paddle deflects balls upward into a shrinkable target strip near the
//! ceiling; a ball that falls past the floor is removed, and the round ends
//! when the last ball leaves.  All geometry is carried in integer subunits
//! (one world unit is 1_000_000 subunits) and all velocities in subunits per
//! millisecond, so every collision rule and score rule is exact integer
//! arithmetic with proved bounds.  Rendering, input devices and the frame
//! clock live outside this crate; they hand in elapsed milliseconds and a
//! resolved paddle displacement, and read positions and the score back.

pub mod ball;
pub mod field;
pub mod game;
pub mod island;
pub mod player;
pub mod score;
pub mod sqrt;
