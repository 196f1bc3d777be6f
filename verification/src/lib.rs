//! Core rules engine of a falling-block puzzle game: the playing-field
//! grid, the active piece, collision and placement rules, row clearing,
//! scoring, and the play/game-over state machine.
//!
//! Rendering, input handling and timing are deliberately absent: an
//! external driver feeds discrete commands and ticks into [`game::Game`]
//! and reads its state back after each transition.

pub mod board;

pub mod game;

pub mod tetromino;
