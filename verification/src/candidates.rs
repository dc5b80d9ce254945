//! Blunder scanning: one evaluation per played ply, and the candidate
//! test.
//!
//! The scanner walks a game move by move with one rolling cached
//! evaluation: the score of the position before the ply, from White's
//! perspective, in centipawns.  A ply whose evaluation swings by at
//! least the blunder threshold, into a position where the side that
//! gained still has a real choice, yields a candidate.

use vstd::prelude::*;
use crate::chess::fen_after_uci;
use crate::chess::legal_count_of;
use crate::chess::apply_uci_move;
use crate::chess::legal_move_count;
use crate::config;
use crate::fen::Color;
use crate::score::score_in_range;
use crate::score::spec_to_cp;
use crate::text::copy_bytes;
use crate::uci::AnalysisInfo;

verus! {

/// A candidate puzzle found by the scanner: a move that swung the
/// evaluation, the positions around it, and the side that gained.
pub struct PuzzleCandidate {
    pub board_pre_blunder: Vec<u8>,
    pub board_post_blunder: Vec<u8>,
    pub blunder_move: Vec<u8>,
    pub solver_color: Color,
    pub pre_cp: i32,
    pub post_cp: i32,
    pub move_number: u32,
}

pub open spec fn spec_abs_diff(a: int, b: int) -> int {
    if a >= b {
        a - b
    } else {
        b - a
    }
}

/// The invariants of every emitted candidate: the post board really is
/// the pre board after the blunder move, the swing reaches the blunder
/// threshold, the position in front of the solver has at least two
/// legal moves, and the solver is the side whose evaluation rose.
pub open spec fn spec_candidate_wf(c: PuzzleCandidate) -> bool {
    &&& fen_after_uci(c.board_pre_blunder@, c.blunder_move@) == Some(c.board_post_blunder@)
    &&& spec_abs_diff(c.post_cp as int, c.pre_cp as int) >= config::BLUNDER_THRESHOLD as int
    &&& legal_count_of(c.board_post_blunder@) matches Some(n) && n >= 2
    &&& c.solver_color == (if c.post_cp > c.pre_cp {
        Color::White
    } else {
        Color::Black
    })
}

/// The position after one played ply and its legal-move count, so that
/// a terminal position can be skipped before any evaluation is spent on
/// it.
pub fn scan_ply_position(board_pre: &Vec<u8>, mv: &Vec<u8>) -> (r: Option<(Vec<u8>, usize)>)
    ensures
        r is Some ==> fen_after_uci(board_pre@, mv@) is Some,
        r matches Some(p) ==> fen_after_uci(board_pre@, mv@) == Some(p.0@) && legal_count_of(p.0@)
            == Some(p.1 as int),
        r is None ==> fen_after_uci(board_pre@, mv@) is None || (fen_after_uci(board_pre@, mv@)
            matches Some(f) && legal_count_of(f) is None),
{
    match apply_uci_move(board_pre, mv) {
        Some(post) => {
            match legal_move_count(&post) {
                Some(n) => Some((post, n)),
                None => None,
            }
        },
        None => None,
    }
}

/// The centipawn value of the best line of a scan evaluation.
pub fn scan_eval_cp(lines: &Vec<AnalysisInfo>) -> (r: Option<i32>)
    requires
        lines@.len() > 0 ==> score_in_range(lines@[0].score),
    ensures
        r is Some <==> lines@.len() > 0,
        r matches Some(v) ==> v as int == spec_to_cp(lines@[0].score),
{
    if lines.len() > 0 {
        Some(lines[0].score.to_cp())
    } else {
        None
    }
}

/// Decides whether one played ply is a blunder worth a puzzle.  A
/// candidate comes back exactly when the move applies, the position it
/// leaves has at least two legal moves, and the evaluation swing
/// reaches the blunder threshold; the swing at exactly the threshold is
/// accepted.
pub fn find_candidate(
    board_pre: &Vec<u8>,
    mv: &Vec<u8>,
    prev_cp: i32,
    post_cp: i32,
    move_no: u32,
) -> (r: Option<PuzzleCandidate>)
    ensures
        r is Some <==> {
            &&& fen_after_uci(board_pre@, mv@) is Some
            &&& legal_count_of(fen_after_uci(board_pre@, mv@)->Some_0) matches Some(n) && n >= 2
            &&& spec_abs_diff(post_cp as int, prev_cp as int) >= config::BLUNDER_THRESHOLD as int
        },
        r matches Some(c) ==> {
            &&& spec_candidate_wf(c)
            &&& c.board_pre_blunder@ == board_pre@
            &&& c.blunder_move@ == mv@
            &&& Some(c.board_post_blunder@) == fen_after_uci(board_pre@, mv@)
            &&& c.pre_cp == prev_cp
            &&& c.post_cp == post_cp
            &&& c.move_number == move_no
        },
{
    let post = match apply_uci_move(board_pre, mv) {
        Some(p) => p,
        None => {
            return None;
        },
    };
    let lc = match legal_move_count(&post) {
        Some(n) => n,
        None => {
            return None;
        },
    };
    if lc < 2 {
        return None;
    }
    let diff: i64 = if post_cp >= prev_cp {
        post_cp as i64 - prev_cp as i64
    } else {
        prev_cp as i64 - post_cp as i64
    };
    if diff < config::BLUNDER_THRESHOLD as i64 {
        return None;
    }
    let solver_color = if post_cp > prev_cp {
        Color::White
    } else {
        Color::Black
    };
    Some(
        PuzzleCandidate {
            board_pre_blunder: copy_bytes(board_pre),
            board_post_blunder: post,
            blunder_move: copy_bytes(mv),
            solver_color,
            pre_cp: prev_cp,
            post_cp,
            move_number: move_no,
        },
    )
}

} // verus!
