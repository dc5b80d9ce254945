//! Mining of tactical chess puzzles from recorded games.
//!
//! The library holds the logic of the two-phase extraction pipeline: the
//! score algebra that puts centipawn and mate evaluations on one total
//! order, the analyzer line-protocol state machine and its parser, the
//! blunder scanner, the solver/opponent puzzle builder, the endgame-oracle
//! move chooser, the phase and objective classifier, and the record
//! formatter.  Subprocess and file plumbing around it lives outside.

pub mod analysis;
pub mod builder;
pub mod candidates;
pub mod chess;
pub mod client;
pub mod config;
pub mod fen;
pub mod oracle;
pub mod pgn;
pub mod pipeline;
pub mod score;
pub mod stats;
pub mod text;
pub mod uci;
