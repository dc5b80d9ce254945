//! The solver's reply to one position: clustering and the ambiguity
//! test.
//!
//! Given the analysis lines of the position in front of the solver, the
//! response is built from the lines with a variation, ordered best-first
//! for the solver: the best line's first move is the solution, the other
//! moves whose scores sit within a cluster threshold of the best are
//! near-equivalent alternatives, and the reply is ambiguous when the
//! first move outside the cluster is still too close to the best.

use vstd::prelude::*;
use crate::config;
use crate::score::Score;
use crate::score::score_in_range;
use crate::score::spec_is_mate;
use crate::score::spec_key_diff;
use crate::score::spec_to_cp;
use crate::score::key_diff;
use crate::uci::AnalysisInfo;
use crate::uci::spec_sorted_for;
use crate::uci::insert_sorted;
use crate::text::copy_bytes;

verus! {

/// The solver's reply at one ply.
pub struct SolverResponse {
    pub solution_move: Vec<u8>,
    pub alternative_moves: Vec<Vec<u8>>,
    pub ambiguous: bool,
    pub score: Score,
    pub post_cp: i32,
}

/// The lines that carry a variation, in their incoming order.
pub open spec fn spec_with_pv(lines: Seq<AnalysisInfo>) -> Seq<AnalysisInfo>
    decreases lines.len(),
{
    if lines.len() == 0 {
        Seq::empty()
    } else {
        let rest = spec_with_pv(lines.skip(1));
        if lines[0].pv@.len() > 0 {
            seq![lines[0]] + rest
        } else {
            rest
        }
    }
}

/// The cluster: the maximal prefix of the sorted lines whose key
/// distance from the best line's score stays within the threshold.
pub open spec fn spec_cluster_len(ss: Seq<AnalysisInfo>, base: Score, thr: int) -> int
    decreases ss.len(),
{
    if ss.len() == 0 || spec_key_diff(base, ss[0].score) > thr {
        0
    } else {
        1 + spec_cluster_len(ss.skip(1), base, thr)
    }
}

/// The cluster threshold for a given best score: tighter for mates.
pub open spec fn spec_cluster_threshold(base: Score) -> int {
    if spec_is_mate(base) {
        config::MATE_ALT_THRESHOLD as int
    } else {
        config::ALT_THRESHOLD as int
    }
}

/// How a response relates to the sorted line sequence it was taken
/// from: solution and alternatives are the first moves of the cluster,
/// the flag says whether the next line is within the unicity gap, and
/// the score fields carry the best line's evaluation.
pub open spec fn spec_response_matches(ss: Seq<AnalysisInfo>, resp: SolverResponse) -> bool {
    let base = ss[0].score;
    let cl = spec_cluster_len(ss, base, spec_cluster_threshold(base));
    &&& resp.solution_move@ == ss[0].pv@[0]@
    &&& resp.alternative_moves@.len() == cl - 1
    &&& forall|i: int|
        0 <= i < cl - 1 ==> (#[trigger] resp.alternative_moves@[i])@ == ss[i + 1].pv@[0]@
    &&& resp.ambiguous == (cl < ss.len() && spec_key_diff(base, ss[cl].score)
        < config::PUZZLE_UNICITY_THRESHOLD as int)
    &&& resp.score == base
    &&& resp.post_cp == spec_to_cp(base)
}

/// A scanned prefix that stays within the threshold, ended by the end
/// of the lines or a line outside it, is exactly the cluster.
proof fn lemma_cluster_len_is(ss: Seq<AnalysisInfo>, base: Score, thr: int, cl: int)
    requires
        0 <= cl <= ss.len(),
        forall|l: int| 0 <= l < cl ==> spec_key_diff(base, (#[trigger] ss[l]).score) <= thr,
        cl == ss.len() || spec_key_diff(base, ss[cl as int].score) > thr,
    ensures
        spec_cluster_len(ss, base, thr) == cl,
    decreases ss.len(),
{
    if cl == 0 {
    } else {
        assert(spec_key_diff(base, ss[0].score) <= thr);
        assert forall|l: int|
            0 <= l < cl - 1 implies spec_key_diff(base, (#[trigger] ss.skip(1)[l]).score)
            <= thr by {
            assert(ss.skip(1)[l] == ss[l + 1]);
        }
        if cl - 1 < ss.skip(1).len() {
            assert(ss.skip(1)[cl - 1] == ss[cl as int]);
        }
        lemma_cluster_len_is(ss.skip(1), base, thr, cl - 1);
    }
}

/// Keeps only the lines with a variation.
fn filter_with_pv(lines: Vec<AnalysisInfo>) -> (r: Vec<AnalysisInfo>)
    ensures
        r@ == spec_with_pv(lines@),
        forall|i: int| 0 <= i < r@.len() ==> (#[trigger] r@[i]).pv@.len() > 0,
        forall|i: int| 0 <= i < r@.len() ==> lines@.contains(#[trigger] r@[i]),
{
    let ghost orig = lines@;
    let mut rest = lines;
    let mut out: Vec<AnalysisInfo> = Vec::new();
    while rest.len() > 0
        invariant
            out@ + spec_with_pv(rest@) == spec_with_pv(orig),
            forall|i: int| 0 <= i < out@.len() ==> (#[trigger] out@[i]).pv@.len() > 0,
            forall|i: int| 0 <= i < out@.len() ==> orig.contains(#[trigger] out@[i]),
            forall|i: int| 0 <= i < rest@.len() ==> orig.contains(#[trigger] rest@[i]),
        decreases rest@.len(),
    {
        let ghost rs = rest@;
        let head = rest.remove(0);
        proof {
            assert(rest@ =~= rs.skip(1));
            assert(rs.contains(rs[0]));
        }
        if head.pv.len() > 0 {
            let ghost out0 = out@;
            out.push(head);
            proof {
                assert(spec_with_pv(rs) =~= seq![rs[0]] + spec_with_pv(rs.skip(1)));
                assert(out@ + spec_with_pv(rest@) =~= out0 + spec_with_pv(rs));
            }
        } else {
            proof {
                assert(spec_with_pv(rs) =~= spec_with_pv(rs.skip(1)));
            }
        }
    }
    proof {
        assert(rest@ =~= Seq::<AnalysisInfo>::empty());
        assert(out@ =~= out@ + spec_with_pv(rest@));
    }
    out
}

/// Sorts lines ascending by the solver's sign-adjusted key, so that the
/// first line is the best one for the solver.
pub fn sort_for_solver(lines: Vec<AnalysisInfo>, solver_white: bool) -> (r: Vec<AnalysisInfo>)
    ensures
        spec_sorted_for(r@, solver_white),
        r@.to_multiset() == lines@.to_multiset(),
        forall|i: int| 0 <= i < r@.len() ==> lines@.contains(#[trigger] r@[i]),
    decreases lines@.len(),
{
    broadcast use vstd::seq_lib::group_to_multiset_ensures;

    let ghost orig = lines@;
    let mut rest = lines;
    let mut out: Vec<AnalysisInfo> = Vec::new();
    proof {
        assert(out@.to_multiset().add(rest@.to_multiset()) =~= orig.to_multiset());
    }
    while rest.len() > 0
        invariant
            spec_sorted_for(out@, solver_white),
            out@.to_multiset().add(rest@.to_multiset()) =~= orig.to_multiset(),
            forall|i: int| 0 <= i < out@.len() ==> orig.contains(#[trigger] out@[i]),
            forall|i: int| 0 <= i < rest@.len() ==> orig.contains(#[trigger] rest@[i]),
        decreases rest@.len(),
    {
        let ghost rs = rest@;
        let head = rest.remove(0);
        proof {
            broadcast use vstd::multiset::group_multiset_axioms;
            broadcast use vstd::seq_lib::group_to_multiset_ensures;

            assert(rest@ =~= rs.skip(1));
            assert(rs.contains(rs[0]));
            assert(rs.skip(1) =~= rs.remove(0));
            assert(rs.remove(0).to_multiset() == rs.to_multiset().remove(rs[0]));
            assert(rest@.to_multiset() == rs.to_multiset().remove(head));
            assert(rs.to_multiset().count(head) > 0);
        }
        let ghost out0 = out@;
        insert_sorted(&mut out, head, solver_white);
        proof {
            broadcast use vstd::multiset::group_multiset_axioms;
            broadcast use vstd::seq_lib::group_to_multiset_ensures;

            assert(out@.to_multiset() == out0.to_multiset().insert(head));
            assert forall|x: AnalysisInfo|
                out@.to_multiset().add(rest@.to_multiset()).count(x) == orig.to_multiset().count(
                    x,
                ) by {
                assert(out0.to_multiset().add(rs.to_multiset()).count(x) == orig.to_multiset().count(
                    x,
                ));
            }
            assert(out@.to_multiset().add(rest@.to_multiset()) =~= orig.to_multiset());
            assert forall|i: int| 0 <= i < out@.len() implies orig.contains(
                #[trigger] out@[i],
            ) by {
                if out@[i] != head {
                    assert(out0.contains(out@[i]));
                }
            }
        }
    }
    proof {
        assert(rest@ =~= Seq::<AnalysisInfo>::empty());
        assert(rest@.to_multiset() =~= vstd::multiset::Multiset::<AnalysisInfo>::empty());
        broadcast use vstd::multiset::group_multiset_axioms;

        assert(out@.to_multiset() =~= orig.to_multiset());
    }
    out
}

/// Builds the solver's reply from the analysis of the position in front
/// of the solver.  Nothing comes back only when no line carries a
/// variation.  Otherwise the reply is read off some ordering of the
/// usable lines that is best-first for the solver: the solution is the
/// best line's first move, the alternatives are the first moves of the
/// other cluster lines, and the ambiguity flag says whether the first
/// line outside the cluster is within the unicity gap of the best.
pub fn solver_response(lines: Vec<AnalysisInfo>, solver_white: bool) -> (r: Option<SolverResponse>)
    requires
        forall|i: int| 0 <= i < lines@.len() ==> score_in_range((#[trigger] lines@[i]).score),
    ensures
        r is None <==> spec_with_pv(lines@).len() == 0,
        r matches Some(resp) ==> exists|ss: Seq<AnalysisInfo>|
            {
                &&& ss.to_multiset() == spec_with_pv(lines@).to_multiset()
                &&& #[trigger] spec_sorted_for(ss, solver_white)
                &&& ss.len() > 0
                &&& ss[0].pv@.len() > 0
                &&& spec_response_matches(ss, resp)
            },
{
    broadcast use vstd::seq_lib::group_to_multiset_ensures;

    let ghost orig = lines@;
    let filtered = filter_with_pv(lines);
    let ghost fs = filtered@;
    let ordered = sort_for_solver(filtered, solver_white);
    if ordered.len() == 0 {
        proof {
            assert(fs.to_multiset().len() == fs.len());
            assert(ordered@.to_multiset().len() == 0);
        }
        return None;
    }
    proof {
        assert(fs.to_multiset().len() == fs.len());
        assert(ordered@.to_multiset().len() == ordered@.len());
    }
    let ghost ss = ordered@;
    let base: Score = ordered[0].score;
    let thr: i64 = if base.is_mate() {
        config::MATE_ALT_THRESHOLD as i64
    } else {
        config::ALT_THRESHOLD as i64
    };
    // Every line in the ordered sequence came from the input, so its
    // score is in range and its variation is non-empty.
    proof {
        assert forall|i: int| 0 <= i < ss.len() implies score_in_range((#[trigger] ss[i]).score)
            && ss[i].pv@.len() > 0 by {
            assert(fs.contains(ss[i]));
            let j = choose|j: int| 0 <= j < fs.len() && fs[j] == ss[i];
            assert(orig.contains(fs[j]));
            let l = choose|l: int| 0 <= l < orig.len() && orig[l] == fs[j];
            assert(score_in_range(orig[l].score));
        }
    }
    let mut cl: usize = 0;
    while cl < ordered.len() && key_diff(&base, &ordered[cl].score) <= thr
        invariant
            0 <= cl <= ss.len(),
            ss == ordered@,
            base == ss[0].score,
            thr == spec_cluster_threshold(base),
            forall|l: int| 0 <= l < cl ==> spec_key_diff(base, (#[trigger] ss[l]).score) <= thr,
        decreases ss.len() - cl,
    {
        cl = cl + 1;
    }
    proof {
        lemma_cluster_len_is(ss, base, thr as int, cl as int);
    }
    let solution_move = copy_bytes(&ordered[0].pv[0]);
    let mut alternative_moves: Vec<Vec<u8>> = Vec::new();
    let mut i: usize = 1;
    while i < cl
        invariant
            1 <= i <= cl || (cl == 0 && i == 1),
            cl <= ss.len(),
            ss == ordered@,
            alternative_moves@.len() == i - 1,
            forall|l: int| 0 <= l < ss.len() ==> (#[trigger] ss[l]).pv@.len() > 0,
            forall|l: int|
                0 <= l < i - 1 ==> (#[trigger] alternative_moves@[l])@ == ss[l + 1].pv@[0]@,
        decreases cl - i,
    {
        let m = copy_bytes(&ordered[i].pv[0]);
        alternative_moves.push(m);
        i = i + 1;
    }
    let ambiguous = cl < ordered.len() && key_diff(&base, &ordered[cl].score) < (
    config::PUZZLE_UNICITY_THRESHOLD as i64);
    let post_cp = base.to_cp();
    let resp = SolverResponse { solution_move, alternative_moves, ambiguous, score: base, post_cp };
    proof {
        assert(spec_response_matches(ss, resp));
        assert(ss.to_multiset() == spec_with_pv(orig).to_multiset());
        assert(spec_sorted_for(ss, solver_white));
    }
    Some(resp)
}

/// Is the position still worth a puzzle after the blunder?  A not yet
/// decisive evaluation always is; otherwise the second-best reply must
/// keep the position near the drawing range or swing it past the other
/// side of it.
pub open spec fn spec_interesting(pre_cp: int, lines: Seq<AnalysisInfo>) -> bool {
    if -(config::COMPLETELY_WINNING_THRESHOLD as int) < pre_cp < config::COMPLETELY_WINNING_THRESHOLD
        as int {
        true
    } else if lines.len() < 2 {
        true
    } else {
        let second = spec_to_cp(lines[1].score);
        ||| -(config::DRAWING_RANGE as int) <= second <= config::DRAWING_RANGE as int
        ||| (pre_cp > 0 && second < -(config::DRAWING_RANGE as int))
        ||| (pre_cp < 0 && second > config::DRAWING_RANGE as int)
    }
}

pub fn puzzle_is_interesting(pre_cp: i32, lines: &Vec<AnalysisInfo>) -> (r: bool)
    requires
        lines@.len() >= 2 ==> score_in_range(lines@[1].score),
    ensures
        r == spec_interesting(pre_cp as int, lines@),
{
    if -config::COMPLETELY_WINNING_THRESHOLD < pre_cp && pre_cp
        < config::COMPLETELY_WINNING_THRESHOLD {
        return true;
    }
    if lines.len() < 2 {
        return true;
    }
    let second = lines[1].score.to_cp();
    (-config::DRAWING_RANGE <= second && second <= config::DRAWING_RANGE) || (pre_cp > 0 && second
        < -config::DRAWING_RANGE) || (pre_cp < 0 && second > config::DRAWING_RANGE)
}

} // verus!
