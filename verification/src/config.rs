//! Tuned constants of the extraction pipeline.

use vstd::prelude::*;

verus! {

/// Default search depth when the caller gives none.
pub const DEFAULT_DEPTH: u8 = 16;

/// Kept alternatives per solver ply.
pub const MAX_ALTERNATIVE_LINES: u8 = 2;

/// Minimum solver moves for a valid puzzle.
pub const SOLVER_MIN_MOVES: u8 = 2;

/// Solve depth is `base * SOLVE_DEPTH_NUM / SOLVE_DEPTH_DEN`; scan depth
/// uses the base unchanged.
pub const SOLVE_DEPTH_NUM: u32 = 12;

pub const SOLVE_DEPTH_DEN: u32 = 10;

/// Gap required for the next-best move to be clearly worse.
pub const PUZZLE_UNICITY_THRESHOLD: i32 = 200;

/// Centipawn swing that flags a blunder.
pub const BLUNDER_THRESHOLD: i32 = 150;

/// Cluster radius for equivalent solver moves, in centipawns.
pub const ALT_THRESHOLD: i32 = 25;

/// Cluster radius for equivalent mates, in plies.
pub const MATE_ALT_THRESHOLD: i32 = 2;

/// Above this the position is trivially won and rarely interesting.
pub const COMPLETELY_WINNING_THRESHOLD: i32 = 500;

/// Gap that marks an obviously hanging piece.
pub const HANGING_THRESHOLD: i32 = 400;

/// Advantage treated as decisive.
pub const WINNING_ADVANTAGE: i32 = 150;

/// Range treated as roughly drawn.
pub const DRAWING_RANGE: i32 = 100;

/// Analyzer configuration.
pub const THREADS: u32 = 4;

pub const HASH_MB: u32 = 1024;

/// Base wait for one protocol round trip, in milliseconds.
pub const BASE_TIMEOUT_MS: u64 = 10_000;

/// Factor applied per depth step to the search budget.
pub const ANALYSIS_FACTOR: u64 = 1;

} // verus!
