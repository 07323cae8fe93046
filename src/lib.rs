//! Connect Four on a fixed 7-column by 6-row grid: gravity-fed drops and
//! win detection anchored on the most recently placed piece.

pub mod board;
pub mod game;
pub mod input;
pub mod lemmas;

pub use board::{Board, SlotState};
