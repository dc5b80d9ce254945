//! The analyzer's line protocol: parsing of streaming search output and
//! collection of the per-variation updates.
//!
//! During a search the engine emits `info` lines; each may carry a search
//! depth, a variation index, a score in centipawns or mate distance, and
//! a principal variation.  The client keeps, per variation index, the
//! last fully-specified update, and a `bestmove` line ends the search.
//! Scores on the wire are relative to the side to move; they are
//! standardized to White's perspective when the collected lines are
//! turned into analysis results, sorted best-first for the side to move.

use vstd::prelude::*;
use vstd::multiset::Multiset;
use crate::score::Score;
use crate::score::score_in_range;
use crate::score::spec_standardize;
use crate::score::spec_solver_key;
use crate::text::ascii_seq;
use crate::text::spec_tokens;
use crate::text::spec_parse_int;
use crate::text::spec_starts_with;
use crate::text::tokenize;
use crate::text::token_is;
use crate::text::parse_i64;
use crate::text::starts_with_ascii;

verus! {

/// One parsed `info` line: the raw, side-to-move-relative score, the
/// reported depth and variation index, and the principal variation as
/// UCI move tokens.
#[derive(Debug)]
pub struct UciInfo {
    pub depth: Option<u32>,
    pub multipv: u32,
    pub score: Score,
    pub pv: Vec<Vec<u8>>,
}

/// The accumulator of the token scan: the fields seen so far.
#[derive(Debug, Clone, Copy)]
pub struct InfoAcc {
    pub depth: Option<u32>,
    pub multipv: u32,
    pub score: Option<Score>,
}

pub open spec fn spec_info_init() -> InfoAcc {
    InfoAcc { depth: None, multipv: 1u32, score: None }
}

/// The token scan of an `info` line body: `pv` ends the scan and the
/// remaining tokens are the principal variation; `depth`, `multipv` and
/// `score` consume their argument tokens and update the accumulator when
/// the argument parses; everything else is skipped.
pub open spec fn spec_scan_info(toks: Seq<Seq<u8>>, acc: InfoAcc) -> (InfoAcc, Seq<Seq<u8>>)
    decreases toks.len(),
{
    if toks.len() == 0 {
        (acc, Seq::empty())
    } else if toks[0] == ascii_seq("pv") {
        (acc, toks.skip(1))
    } else if toks[0] == ascii_seq("depth") {
        if toks.len() >= 2 {
            let nacc = match spec_parse_int(toks[1]) {
                Some(n) => if 0 <= n <= u32::MAX {
                    InfoAcc { depth: Some(n as u32), ..acc }
                } else {
                    acc
                },
                None => acc,
            };
            spec_scan_info(toks.skip(2), nacc)
        } else {
            (acc, Seq::empty())
        }
    } else if toks[0] == ascii_seq("multipv") {
        if toks.len() >= 2 {
            let nacc = match spec_parse_int(toks[1]) {
                Some(n) => if 0 <= n <= u32::MAX {
                    InfoAcc { multipv: n as u32, ..acc }
                } else {
                    acc
                },
                None => acc,
            };
            spec_scan_info(toks.skip(2), nacc)
        } else {
            (acc, Seq::empty())
        }
    } else if toks[0] == ascii_seq("score") {
        if toks.len() >= 3 {
            let nacc = match spec_parse_int(toks[2]) {
                Some(v) => if i32::MIN <= v <= i32::MAX {
                    if toks[1] == ascii_seq("cp") {
                        InfoAcc { score: Some(Score::Cp(v as i32)), ..acc }
                    } else if toks[1] == ascii_seq("mate") {
                        InfoAcc { score: Some(Score::Mate(v as i32)), ..acc }
                    } else {
                        InfoAcc { score: None, ..acc }
                    }
                } else {
                    acc
                },
                None => acc,
            };
            spec_scan_info(toks.skip(3), nacc)
        } else {
            (acc, Seq::empty())
        }
    } else {
        spec_scan_info(toks.skip(1), acc)
    }
}

/// The parse of a whole line: accepted when it leads with `info` and the
/// scan saw a score.
pub open spec fn spec_info_parse(line: Seq<u8>) -> Option<(InfoAcc, Seq<Seq<u8>>)> {
    let ts = spec_tokens(line);
    if ts.len() >= 1 && ts[0] == ascii_seq("info") {
        let r = spec_scan_info(ts.skip(1), spec_info_init());
        if r.0.score is Some {
            Some(r)
        } else {
            None
        }
    } else {
        None
    }
}

pub proof fn lemma_kw_ascii()
    ensures
        vstd::string::is_ascii("info"),
        vstd::string::is_ascii("pv"),
        vstd::string::is_ascii("depth"),
        vstd::string::is_ascii("multipv"),
        vstd::string::is_ascii("score"),
        vstd::string::is_ascii("cp"),
        vstd::string::is_ascii("mate"),
        vstd::string::is_ascii("bestmove"),
        vstd::string::is_ascii("(none)"),
{
    reveal_strlit("info");
    reveal_strlit("pv");
    reveal_strlit("depth");
    reveal_strlit("multipv");
    reveal_strlit("score");
    reveal_strlit("cp");
    reveal_strlit("mate");
    reveal_strlit("bestmove");
    reveal_strlit("(none)");
}

/// Parses one engine output line as an `info` line.
pub fn parse_info_line(line: &Vec<u8>) -> (r: Option<UciInfo>)
    ensures
        r is Some <==> spec_info_parse(line@) is Some,
        r matches Some(u) ==> {
            let p = spec_info_parse(line@)->Some_0;
            &&& Some(u.depth) == Some(p.0.depth)
            &&& u.multipv == p.0.multipv
            &&& p.0.score == Some(u.score)
            &&& u.pv.deep_view() == p.1
        },
{
    proof {
        lemma_kw_ascii();
    }
    let ghost ts = spec_tokens(line@);
    let mut toks = tokenize(line);
    if toks.len() == 0 {
        return None;
    }
    proof {
        assert(toks@[0]@ == toks.deep_view()[0]);
    }
    if !token_is(&toks[0], "info") {
        return None;
    }
    let mut depth: Option<u32> = None;
    let mut multipv: u32 = 1;
    let mut score: Option<Score> = None;
    let mut i: usize = 1;
    let ghost scan_all = spec_scan_info(ts.skip(1), spec_info_init());
    // Index just after the `pv` keyword, when one was seen.
    let mut pv_from: usize = 0;
    let mut saw_pv: bool = false;
    let mut cut: bool = false;
    while i < toks.len() && !saw_pv && !cut
        invariant
            1 <= i <= toks@.len(),
            toks.deep_view() == ts,
            ts.len() >= 1,
            scan_all == spec_scan_info(ts.skip(1), spec_info_init()),
            !saw_pv && !cut ==> scan_all == spec_scan_info(
                ts.skip(i as int),
                InfoAcc { depth, multipv, score },
            ),
            saw_pv ==> pv_from == i + 1 && i < ts.len() && scan_all == (
                InfoAcc { depth, multipv, score },
                ts.skip(i as int + 1),
            ),
            cut ==> scan_all == (InfoAcc { depth, multipv, score }, Seq::<Seq<u8>>::empty()),
        decreases (if saw_pv || cut {
            0int
        } else {
            1int
        }), toks@.len() - i,
    {
        proof {
            lemma_kw_ascii();
            assert(toks@[i as int]@ == toks.deep_view()[i as int]);
        }
        if token_is(&toks[i], "pv") {
            pv_from = i + 1;
            saw_pv = true;
        } else if token_is(&toks[i], "depth") {
            if toks.len() - i >= 2 {
                proof {
                    assert(toks@[i as int + 1]@ == toks.deep_view()[i as int + 1]);
                    assert(ts.skip(i as int).skip(2) =~= ts.skip(i as int + 2));
                    assert(ts.skip(i as int)[1] == ts[i as int + 1]);
                }
                match parse_i64(&toks[i + 1]) {
                    Some(v) => {
                        if 0 <= v && v <= u32::MAX as i64 {
                            depth = Some(v as u32);
                        }
                    },
                    None => {},
                }
                i = i + 2;
            } else {
                cut = true;
            }
        } else if token_is(&toks[i], "multipv") {
            if toks.len() - i >= 2 {
                proof {
                    assert(toks@[i as int + 1]@ == toks.deep_view()[i as int + 1]);
                    assert(ts.skip(i as int).skip(2) =~= ts.skip(i as int + 2));
                    assert(ts.skip(i as int)[1] == ts[i as int + 1]);
                }
                match parse_i64(&toks[i + 1]) {
                    Some(v) => {
                        if 0 <= v && v <= u32::MAX as i64 {
                            multipv = v as u32;
                        }
                    },
                    None => {},
                }
                i = i + 2;
            } else {
                cut = true;
            }
        } else if token_is(&toks[i], "score") {
            if toks.len() - i >= 3 {
                proof {
                    assert(toks@[i as int + 1]@ == toks.deep_view()[i as int + 1]);
                    assert(toks@[i as int + 2]@ == toks.deep_view()[i as int + 2]);
                    assert(ts.skip(i as int).skip(3) =~= ts.skip(i as int + 3));
                    assert(ts.skip(i as int)[1] == ts[i as int + 1]);
                    assert(ts.skip(i as int)[2] == ts[i as int + 2]);
                }
                let kind_cp = token_is(&toks[i + 1], "cp");
                let kind_mate = token_is(&toks[i + 1], "mate");
                match parse_i64(&toks[i + 2]) {
                    Some(v) => {
                        if i32::MIN as i64 <= v && v <= i32::MAX as i64 {
                            if kind_cp {
                                score = Some(Score::Cp(v as i32));
                            } else if kind_mate {
                                score = Some(Score::Mate(v as i32));
                            } else {
                                score = None;
                            }
                        }
                    },
                    None => {},
                }
                i = i + 3;
            } else {
                cut = true;
            }
        } else {
            proof {
                assert(ts.skip(i as int).skip(1) =~= ts.skip(i as int + 1));
            }
            i = i + 1;
        }
    }
    proof {
        if !saw_pv && !cut {
            assert(ts.skip(i as int) =~= Seq::<Seq<u8>>::empty());
        }
    }
    match score {
        Some(sc) => {
            let ghost toks0 = toks@;
            let pv: Vec<Vec<u8>> = if saw_pv {
                toks.split_off(pv_from)
            } else {
                Vec::new()
            };
            proof {
                if saw_pv {
                    assert forall|j: int| 0 <= j < pv@.len() implies pv.deep_view()[j]
                        == ts.skip(pv_from as int)[j] by {
                        assert(pv@[j] == toks0[pv_from + j]);
                    }
                    assert(pv.deep_view() =~= ts.skip(pv_from as int));
                } else {
                    assert(pv.deep_view() =~= Seq::<Seq<u8>>::empty());
                }
            }
            Some(UciInfo { depth, multipv, score: sc, pv })
        },
        None => None,
    }
}

/// Is this line the search terminator?
pub open spec fn spec_is_bestmove(line: Seq<u8>) -> bool {
    spec_starts_with(line, ascii_seq("bestmove"))
}

pub fn is_bestmove_line(line: &Vec<u8>) -> (r: bool)
    ensures
        r == spec_is_bestmove(line@),
{
    proof {
        lemma_kw_ascii();
    }
    starts_with_ascii(line, "bestmove")
}

/// The move named by a `bestmove` line, if any; `(none)` means the
/// position had no move.
pub open spec fn spec_bestmove_of(line: Seq<u8>) -> Option<Seq<u8>> {
    let ts = spec_tokens(line);
    if ts.len() >= 2 && ts[0] == ascii_seq("bestmove") && ts[1] != ascii_seq("(none)") {
        Some(ts[1])
    } else {
        None
    }
}

pub fn bestmove_of(line: &Vec<u8>) -> (r: Option<Vec<u8>>)
    ensures
        r is Some <==> spec_bestmove_of(line@) is Some,
        r matches Some(m) ==> spec_bestmove_of(line@) == Some(m@),
{
    proof {
        lemma_kw_ascii();
    }
    let mut toks = tokenize(line);
    if toks.len() < 2 {
        return None;
    }
    proof {
        assert(toks@[0]@ == toks.deep_view()[0]);
        assert(toks@[1]@ == toks.deep_view()[1]);
    }
    if !token_is(&toks[0], "bestmove") {
        return None;
    }
    if token_is(&toks[1], "(none)") {
        return None;
    }
    let ghost ts = spec_tokens(line@);
    let ghost toks0 = toks@;
    let mut tail = toks.split_off(1);
    let m = tail.remove(0);
    proof {
        assert(m == toks0[1]);
        assert(m@ == ts[1]);
    }
    Some(m)
}

/// Where one analysis line came from.
#[derive(Debug, Clone, Copy, PartialEq, Eq, Structural)]
pub enum AnalysisOrigin {
    Engine,
    Endgame,
}

/// One principal variation of one analysis request: a standardized,
/// White-relative score, the search depth, the variation as UCI move
/// tokens, and the origin of the evaluation.
#[derive(Debug)]
pub struct AnalysisInfo {
    pub score: Score,
    pub depth: u32,
    pub pv: Vec<Vec<u8>>,
    pub origin: AnalysisOrigin,
    pub multipv: usize,
}

/// The running state of one search: per variation index (1-based), the
/// last fully-specified update seen, and whether the terminator arrived.
pub struct SearchState {
    pub entries: Vec<Option<UciInfo>>,
    pub done: bool,
}

/// Starts collecting a search with up to `k` variations.
pub fn search_new(k: usize) -> (r: SearchState)
    ensures
        r.entries@.len() == k,
        forall|i: int| 0 <= i < k ==> r.entries@[i] is None,
        !r.done,
{
    let mut entries: Vec<Option<UciInfo>> = Vec::new();
    let mut i: usize = 0;
    while i < k
        invariant
            i <= k,
            entries@.len() == i,
            forall|j: int| 0 <= j < i ==> entries@[j] is None,
        decreases k - i,
    {
        entries.push(None);
        i = i + 1;
    }
    SearchState { entries, done: false }
}

/// Is this update complete enough to keep?  The depth must be present,
/// the variation non-empty and the variation index within the requested
/// band.
pub open spec fn spec_keepable(u: UciInfo, k: int) -> bool {
    &&& u.depth is Some
    &&& u.pv@.len() > 0
    &&& 1 <= u.multipv <= k
}

/// Feeds one engine output line to the search: a terminator marks the
/// search done, a keepable `info` update overwrites the entry of its
/// variation index, and everything else is ignored.
pub fn search_step(st: &mut SearchState, line: &Vec<u8>)
    ensures
        final(st).entries@.len() == old(st).entries@.len(),
        spec_is_bestmove(line@) ==> final(st).done && final(st).entries@ == old(st).entries@,
        !spec_is_bestmove(line@) ==> final(st).done == old(st).done && match spec_info_parse(
            line@,
        ) {
            Some(p) => if p.0.depth is Some && p.1.len() > 0 && 1 <= p.0.multipv <= old(
                st,
            ).entries@.len() {
                let idx = p.0.multipv - 1;
                &&& final(st).entries@[idx] matches Some(u) && u.depth == p.0.depth && u.multipv
                    == p.0.multipv && Some(u.score) == p.0.score && u.pv.deep_view() == p.1
                &&& forall|j: int|
                    0 <= j < old(st).entries@.len() && j != idx ==> final(st).entries@[j] == old(
                        st,
                    ).entries@[j]
            } else {
                final(st).entries@ == old(st).entries@
            },
            None => final(st).entries@ == old(st).entries@,
        },
{
    if is_bestmove_line(line) {
        st.done = true;
        return ;
    }
    match parse_info_line(line) {
        Some(u) => {
            let full = match u.depth {
                Some(_) => u.pv.len() > 0,
                None => false,
            };
            if full && 1 <= u.multipv && (u.multipv as usize) <= st.entries.len() {
                let idx = (u.multipv as usize) - 1;
                st.entries.set(idx, Some(u));
            }
        },
        None => {},
    }
}

/// The analysis line made of one keepable update: the raw score
/// standardized to White's perspective.
pub open spec fn spec_line_of(u: UciInfo, wtm: bool) -> AnalysisInfo {
    AnalysisInfo {
        score: spec_standardize(u.score, wtm),
        depth: u.depth->Some_0,
        pv: u.pv,
        origin: AnalysisOrigin::Engine,
        multipv: u.multipv as usize,
    }
}

/// The lines collected from the entries, in variation order, keeping
/// only complete updates whose raw score is in range.
pub open spec fn spec_collected(entries: Seq<Option<UciInfo>>, k: int, wtm: bool) -> Seq<
    AnalysisInfo,
>
    decreases entries.len(),
{
    if entries.len() == 0 {
        Seq::empty()
    } else {
        let rest = spec_collected(entries.skip(1), k, wtm);
        match entries[0] {
            Some(u) => if spec_keepable(u, k) && score_in_range(u.score) {
                seq![spec_line_of(u, wtm)] + rest
            } else {
                rest
            },
            None => rest,
        }
    }
}

/// Lines sorted best-first for the side to move.
pub open spec fn spec_sorted_for(s: Seq<AnalysisInfo>, wtm: bool) -> bool {
    forall|i: int, j: int|
        0 <= i < j < s.len() ==> spec_solver_key(#[trigger] s[i].score, wtm) <= spec_solver_key(
            #[trigger] s[j].score,
            wtm,
        )
}

/// Inserts a line into a sorted vector, keeping it sorted.
pub(crate) fn insert_sorted(out: &mut Vec<AnalysisInfo>, e: AnalysisInfo, wtm: bool)
    requires
        spec_sorted_for(old(out)@, wtm),
    ensures
        spec_sorted_for(final(out)@, wtm),
        final(out)@.to_multiset() == old(out)@.to_multiset().insert(e),
        forall|i: int|
            0 <= i < final(out)@.len() ==> final(out)@[i] == e || old(out)@.contains(
                #[trigger] final(out)@[i],
            ),
{
    broadcast use vstd::seq_lib::group_to_multiset_ensures;

    let ke = e.score.solver_key(wtm);
    let mut j: usize = 0;
    while j < out.len() && out[j].score.solver_key(wtm) <= ke
        invariant
            j <= out@.len(),
            ke == spec_solver_key(e.score, wtm),
            spec_sorted_for(out@, wtm),
            out@ == old(out)@,
            forall|l: int|
                0 <= l < j ==> spec_solver_key(#[trigger] out@[l].score, wtm) <= spec_solver_key(
                    e.score,
                    wtm,
                ),
        decreases out@.len() - j,
    {
        j = j + 1;
    }
    let ghost before = out@;
    out.insert(j, e);
    proof {
        assert forall|a: int, b: int| 0 <= a < b < out@.len() implies spec_solver_key(
            #[trigger] out@[a].score,
            wtm,
        ) <= spec_solver_key(#[trigger] out@[b].score, wtm) by {
            if b < j {
                assert(out@[a] == before[a] && out@[b] == before[b]);
            } else if a > j {
                assert(out@[a] == before[a - 1] && out@[b] == before[b - 1]);
            } else if a < j && b == j {
                assert(out@[a] == before[a] && out@[b] == e);
            } else if a == j && b > j {
                assert(out@[a] == e && out@[b] == before[b - 1]);
                assert(spec_solver_key(before[j as int].score, wtm) <= spec_solver_key(
                    before[b - 1].score,
                    wtm,
                ));
            } else {
                assert(a < j && b > j);
                assert(out@[a] == before[a] && out@[b] == before[b - 1]);
                assert(spec_solver_key(before[a].score, wtm) <= spec_solver_key(e.score, wtm));
                assert(spec_solver_key(e.score, wtm) < spec_solver_key(
                    before[j as int].score,
                    wtm,
                ));
                assert(spec_solver_key(before[j as int].score, wtm) <= spec_solver_key(
                    before[b - 1].score,
                    wtm,
                ));
            }
        }
    }
}

/// Turns a finished search into analysis lines: keepable in-range
/// entries, standardized to White, sorted best-first for the side to
/// move.  Every returned line has a non-empty variation and an in-range
/// score.
pub fn finish_search(st: SearchState, white_to_move: bool) -> (r: Vec<AnalysisInfo>)
    ensures
        spec_sorted_for(r@, white_to_move),
        r@.to_multiset() == spec_collected(
            st.entries@,
            st.entries@.len() as int,
            white_to_move,
        ).to_multiset(),
        forall|i: int|
            0 <= i < r@.len() ==> (#[trigger] r@[i]).pv@.len() > 0 && score_in_range(r@[i].score)
                && r@[i].origin == AnalysisOrigin::Engine,
{
    broadcast use vstd::seq_lib::group_to_multiset_ensures;

    let k = st.entries.len();
    let ghost orig = st.entries@;
    let ghost target = spec_collected(orig, orig.len() as int, white_to_move);
    let mut entries = st.entries;
    let mut out: Vec<AnalysisInfo> = Vec::new();
    proof {
        lemma_collected_props(orig, orig.len() as int, white_to_move);
        assert(Seq::<AnalysisInfo>::empty().to_multiset() =~= Multiset::<AnalysisInfo>::empty());
    }
    while entries.len() > 0
        invariant
            spec_sorted_for(out@, white_to_move),
            target == spec_collected(orig, orig.len() as int, white_to_move),
            out@.to_multiset().add(
                spec_collected(entries@, orig.len() as int, white_to_move).to_multiset(),
            ) =~= target.to_multiset(),
            forall|i: int|
                0 <= i < out@.len() ==> (#[trigger] out@[i]).pv@.len() > 0 && score_in_range(
                    out@[i].score,
                ) && out@[i].origin == AnalysisOrigin::Engine,
            orig.len() == k,
        decreases entries@.len(),
    {
        let ghost es = entries@;
        let head = entries.remove(0);
        proof {
            assert(entries@ =~= es.skip(1));
        }
        match head {
            Some(u) => {
                let full = match u.depth {
                    Some(_) => u.pv.len() > 0,
                    None => false,
                };
                let in_band = 1 <= u.multipv && (u.multipv as usize) <= k;
                let in_range = match u.score {
                    Score::Cp(v) => -crate::score::CP_MAGNITUDE_BOUND < v
                        && v < crate::score::CP_MAGNITUDE_BOUND,
                    Score::Mate(m) => -crate::score::MATE_PLY_BOUND <= m
                        && m <= crate::score::MATE_PLY_BOUND,
                };
                if full && in_band && in_range {
                    let depth = match u.depth {
                        Some(d) => d,
                        None => 0,
                    };
                    let line = AnalysisInfo {
                        score: u.score.standardize(white_to_move),
                        depth,
                        pv: u.pv,
                        origin: AnalysisOrigin::Engine,
                        multipv: u.multipv as usize,
                    };
                    proof {
                        assert(spec_collected(es, orig.len() as int, white_to_move) =~= seq![
                            spec_line_of(u, white_to_move)] + spec_collected(
                            es.skip(1),
                            orig.len() as int,
                            white_to_move,
                        ));
                        assert((seq![spec_line_of(u, white_to_move)] + spec_collected(
                            es.skip(1),
                            orig.len() as int,
                            white_to_move,
                        )).to_multiset() =~= spec_collected(
                            es.skip(1),
                            orig.len() as int,
                            white_to_move,
                        ).to_multiset().insert(spec_line_of(u, white_to_move))) by {
                            lemma_cons_to_multiset(
                                spec_line_of(u, white_to_move),
                                spec_collected(es.skip(1), orig.len() as int, white_to_move),
                            );
                        }
                    }
                    proof {
                        assert(score_in_range(spec_standardize(u.score, white_to_move)));
                    }
                    let ghost out0 = out@;
                    insert_sorted(&mut out, line, white_to_move);
                    proof {
                        assert forall|ii: int| 0 <= ii < out@.len() implies (
                        #[trigger] out@[ii]).pv@.len() > 0 && score_in_range(out@[ii].score)
                            && out@[ii].origin == AnalysisOrigin::Engine by {
                            if out@[ii] != line {
                                assert(out0.contains(out@[ii]));
                                let jj = choose|jj: int|
                                    0 <= jj < out0.len() && out0[jj] == out@[ii];
                                assert(out0[jj].pv@.len() > 0);
                            }
                        }
                    }
                } else {
                    proof {
                        assert(spec_collected(es, orig.len() as int, white_to_move)
                            =~= spec_collected(es.skip(1), orig.len() as int, white_to_move));
                    }
                }
            },
            None => {
                proof {
                    assert(spec_collected(es, orig.len() as int, white_to_move) =~= spec_collected(
                        es.skip(1),
                        orig.len() as int,
                        white_to_move,
                    ));
                }
            },
        }
    }
    proof {
        assert(entries@ =~= Seq::<Option<UciInfo>>::empty());
        assert(spec_collected(entries@, orig.len() as int, white_to_move).to_multiset()
            =~= Multiset::<AnalysisInfo>::empty());
        assert(out@.to_multiset() =~= target.to_multiset());
    }
    out
}

/// Prepending an element to a sequence inserts it into the multiset.
proof fn lemma_cons_to_multiset(e: AnalysisInfo, s: Seq<AnalysisInfo>)
    ensures
        (seq![e] + s).to_multiset() == s.to_multiset().insert(e),
{
    broadcast use vstd::seq_lib::group_to_multiset_ensures;

    assert((seq![e] + s).remove(0) =~= s);
    assert((seq![e] + s).to_multiset().remove(e) =~= s.to_multiset());
    assert((seq![e] + s).contains((seq![e] + s)[0]));
    assert((seq![e] + s).to_multiset().count(e) > 0);
    assert forall|x: AnalysisInfo| (seq![e] + s).to_multiset().count(x) == s.to_multiset().insert(
        e,
    ).count(x) by {
        broadcast use vstd::multiset::group_multiset_axioms;

        if x == e {
            assert((seq![e] + s).to_multiset().remove(e).count(e) == (seq![e]
                + s).to_multiset().count(e) - 1);
        } else {
            assert((seq![e] + s).to_multiset().remove(e).count(x) == (seq![e]
                + s).to_multiset().count(x));
        }
    }
    assert((seq![e] + s).to_multiset() =~= s.to_multiset().insert(e));
}

/// Every line the collection yields has a non-empty variation, an
/// in-range standardized score and engine origin.
proof fn lemma_collected_props(entries: Seq<Option<UciInfo>>, k: int, wtm: bool)
    ensures
        forall|i: int|
            0 <= i < spec_collected(entries, k, wtm).len() ==> (#[trigger] spec_collected(
                entries,
                k,
                wtm,
            )[i]).pv@.len() > 0 && score_in_range(spec_collected(entries, k, wtm)[i].score)
                && spec_collected(entries, k, wtm)[i].origin == AnalysisOrigin::Engine,
    decreases entries.len(),
{
    if entries.len() > 0 {
        lemma_collected_props(entries.skip(1), k, wtm);
    }
}

/// The first move of the best line, if there is one: the convenience
/// that a single-variation request reduces to.
pub fn first_move_of_best(lines: &Vec<AnalysisInfo>) -> (r: Option<Vec<u8>>)
    ensures
        r is Some <==> lines@.len() > 0 && lines@[0].pv@.len() > 0,
        r matches Some(m) ==> m@ == lines@[0].pv@[0]@,
{
    if lines.len() > 0 {
        if lines[0].pv.len() > 0 {
            Some(crate::text::copy_bytes(&lines[0].pv[0]))
        } else {
            None
        }
    } else {
        None
    }
}

} // verus!
