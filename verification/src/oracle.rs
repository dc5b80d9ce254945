//! The endgame oracle's move choice and score synthesis.
//!
//! When a position has few enough occupied squares and an endgame
//! dataset is loaded, analysis short-circuits to a table lookup: every
//! legal move is probed for its win/draw/loss verdict and its
//! distance-to-zeroing metric, and one move is chosen.  The probing
//! reads the dataset from disk outside of this crate; the choice over
//! the probed verdicts, made here, is verified and deterministic:
//! winning verdicts before drawn before losing ones, the shortest
//! distance first except when losing, where the longest delay wins, and
//! the earliest probed move on ties.

use vstd::prelude::*;
use crate::fen::spec_occupied_count;
use crate::fen::occupied_count;
use crate::score::Score;
use crate::score::spec_standardize;
use crate::text::copy_bytes;
use crate::uci::AnalysisInfo;
use crate::uci::AnalysisOrigin;

verus! {

/// One probed legal move: the verdict for the probing side (positive =
/// win, zero = draw, negative = loss) and the distance metric of the
/// position it leads to.
pub struct OracleEntry {
    pub uci: Vec<u8>,
    pub wdl: i32,
    pub dtz: i32,
}

/// Verdict class: wins before draws before losses.
pub open spec fn spec_rank_class(e: OracleEntry) -> int {
    if e.wdl > 0 {
        0
    } else if e.wdl == 0 {
        1
    } else {
        2
    }
}

/// Within a class the smaller distance value comes first.  Winning and
/// drawn moves carry non-negative distances, so the shortest resolution
/// wins; losing moves carry negative distances — being mated in that
/// many plies — so the most negative value, the longest delay of the
/// loss, wins.
pub open spec fn spec_rank_dist(e: OracleEntry) -> int {
    e.dtz as int
}

/// Strict preference between two probed moves.
pub open spec fn spec_better_entry(a: OracleEntry, b: OracleEntry) -> bool {
    spec_rank_class(a) < spec_rank_class(b) || (spec_rank_class(a) == spec_rank_class(b)
        && spec_rank_dist(a) < spec_rank_dist(b))
}

/// The index the scan settles on, starting from a current best.
pub open spec fn spec_choose_from(es: Seq<OracleEntry>, i: int, best: int) -> int
    decreases es.len() - i when 0 <= i <= es.len()
{
    if i >= es.len() {
        best
    } else if spec_better_entry(es[i], es[best]) {
        spec_choose_from(es, i + 1, i)
    } else {
        spec_choose_from(es, i + 1, best)
    }
}

/// The chosen index: the first entry that no later entry strictly
/// beats.
pub open spec fn spec_chosen_index(es: Seq<OracleEntry>) -> int {
    spec_choose_from(es, 1, 0)
}

/// Picks the index of the preferred move among the probed entries.
pub fn choose_oracle_move(entries: &Vec<OracleEntry>) -> (r: Option<usize>)
    ensures
        r is Some <==> entries@.len() > 0,
        r matches Some(i) ==> {
            &&& 0 <= i < entries@.len()
            &&& i as int == spec_chosen_index(entries@)
            &&& forall|j: int|
                0 <= j < entries@.len() ==> !spec_better_entry(
                    #[trigger] entries@[j],
                    entries@[i as int],
                )
        },
{
    if entries.len() == 0 {
        return None;
    }
    let ghost es = entries@;
    let mut best: usize = 0;
    let mut i: usize = 1;
    while i < entries.len()
        invariant
            1 <= i <= es.len(),
            0 <= best < i,
            es == entries@,
            spec_chosen_index(es) == spec_choose_from(es, i as int, best as int),
            forall|j: int| 0 <= j < i ==> !spec_better_entry(#[trigger] es[j], es[best as int]),
        decreases es.len() - i,
    {
        let ghost old_best = best as int;
        let e = &entries[i];
        let b = &entries[best];
        let e_class: i64 = if e.wdl > 0 {
            0
        } else if e.wdl == 0 {
            1
        } else {
            2
        };
        let b_class: i64 = if b.wdl > 0 {
            0
        } else if b.wdl == 0 {
            1
        } else {
            2
        };
        let e_dist: i64 = e.dtz as i64;
        let b_dist: i64 = b.dtz as i64;
        if e_class < b_class || (e_class == b_class && e_dist < b_dist) {
            best = i;
            proof {
                assert(spec_better_entry(es[i as int], es[old_best]));
                assert forall|j: int| 0 <= j < i + 1 implies !spec_better_entry(
                    #[trigger] es[j],
                    es[best as int],
                ) by {
                    if j < i {
                        assert(!spec_better_entry(es[j], es[old_best]));
                    }
                }
            }
        } else {
            proof {
                assert(!spec_better_entry(es[i as int], es[old_best]));
            }
        }
        i = i + 1;
    }
    Some(best)
}

/// The synthesized score of the chosen move: a negative distance means
/// being mated in that many plies, standardized to White; anything else
/// is a resolved position without numeric magnitude.
pub open spec fn spec_oracle_score(dtz: int, white_to_move: bool) -> Score {
    if dtz < 0 {
        spec_standardize(Score::Mate(dtz as i32), white_to_move)
    } else {
        Score::Cp(0)
    }
}

pub fn oracle_score(dtz: i32, white_to_move: bool) -> (r: Score)
    requires
        dtz > i32::MIN,
    ensures
        r == spec_oracle_score(dtz as int, white_to_move),
{
    if dtz < 0 {
        Score::Mate(dtz).standardize(white_to_move)
    } else {
        Score::Cp(0)
    }
}

/// The single analysis line the oracle serves in place of the engine:
/// the chosen move with its synthesized score, marked as coming from
/// the endgame dataset.
pub fn oracle_line(entries: &Vec<OracleEntry>, white_to_move: bool) -> (r: Option<AnalysisInfo>)
    requires
        forall|j: int| 0 <= j < entries@.len() ==> (#[trigger] entries@[j]).dtz > i32::MIN,
    ensures
        r is Some <==> entries@.len() > 0,
        r matches Some(line) ==> {
            let i = spec_chosen_index(entries@);
            &&& 0 <= i < entries@.len()
            &&& line.score == spec_oracle_score(entries@[i].dtz as int, white_to_move)
            &&& line.depth == 0
            &&& line.pv@.len() == 1
            &&& line.pv@[0]@ == entries@[i].uci@
            &&& line.origin == AnalysisOrigin::Endgame
            &&& line.multipv == 1
        },
{
    let idx = match choose_oracle_move(entries) {
        Some(i) => i,
        None => {
            return None;
        },
    };
    let chosen = &entries[idx];
    let score = oracle_score(chosen.dtz, white_to_move);
    let mut pv: Vec<Vec<u8>> = Vec::new();
    pv.push(copy_bytes(&chosen.uci));
    Some(AnalysisInfo { score, depth: 0, pv, origin: AnalysisOrigin::Endgame, multipv: 1 })
}

/// Whether a request should go to the oracle: the dataset must be
/// loaded and the position must have at most seven occupied squares.
pub fn should_use_oracle(fen: &Vec<u8>, oracle_available: bool) -> (r: bool)
    ensures
        r == (oracle_available && spec_occupied_count(fen@) <= 7),
{
    if !oracle_available {
        return false;
    }
    occupied_count(fen) <= 7
}

} // verus!
