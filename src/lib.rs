//! Hangman on a line-drawing canvas: the closed-shape decomposition that
//! turns illustration pieces into line segments, the table of pieces drawn at
//! each stage, and the puzzle state machine that drives the stage.

pub mod shape;
pub mod text;
pub mod game;
pub mod stage;

