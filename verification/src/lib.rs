//! Exhaustive analysis of 3x3 tic-tac-toe under uniform random play.
//!
//! The [`game`] module is the rules engine: board state, move validation,
//! terminal-state detection and successor enumeration. The [`game_tree`]
//! module materializes the full tree of reachable positions and computes,
//! for every node, the exact number of completions of uniform random play
//! that reach each outcome, from which each outcome's probability follows.
//! The [`grid`] module is the trusted interface to the two-dimensional
//! array the board is stored in.

pub mod game;
pub mod game_tree;
pub mod grid;
