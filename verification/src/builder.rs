//! Phase 2: building the solver/opponent move tree, and the puzzle
//! classifiers.
//!
//! Starting from the position after the blunder, the builder alternates
//! solver turns and opponent turns.  Each solver turn appends the best
//! unambiguous solver move together with its near-equivalent
//! alternatives; each opponent turn appends the engine's reply.  The
//! builder state carries the FEN reached so far, and its invariant says
//! that the recorded mainline really applies, move by legal move, from
//! the starting position — the analyzer drives the choices, but nothing
//! it says can make the builder record an inapplicable move.

use vstd::prelude::*;
use crate::analysis::SolverResponse;
use crate::chess::fen_after_uci;
use crate::chess::apply_uci_move;
use crate::config;
use crate::score::Score;
use crate::text::copy_bytes;

verus! {

/// The tactical goal a puzzle reaches.
#[derive(Debug, Clone, Copy, PartialEq, Eq, Structural)]
pub enum TacticalObjective {
    Mate,
    Reversal,
    Advantage,
    Equalization,
    Resistance,
    Tactical,
}

/// The matching cascade over the evaluation after the blunder and the
/// final evaluation: mate first, then reversal, advantage,
/// equalization, resistance, and tactical for the rest.
pub open spec fn spec_classify_tactic(post: int, final_cp: int, mate: bool) -> TacticalObjective {
    if mate {
        TacticalObjective::Mate
    } else if post < 0 && final_cp >= config::WINNING_ADVANTAGE as int {
        TacticalObjective::Reversal
    } else if final_cp >= config::WINNING_ADVANTAGE as int {
        TacticalObjective::Advantage
    } else if post < -(config::DRAWING_RANGE as int) && -(config::DRAWING_RANGE as int) <= final_cp
        <= config::DRAWING_RANGE as int {
        TacticalObjective::Equalization
    } else if post < 0 && final_cp < 0 {
        TacticalObjective::Resistance
    } else {
        TacticalObjective::Tactical
    }
}

pub fn classify_tactic(post: i32, final_cp: i32, mate: bool) -> (r: TacticalObjective)
    ensures
        r == spec_classify_tactic(post as int, final_cp as int, mate),
{
    if mate {
        return TacticalObjective::Mate;
    }
    let wa = config::WINNING_ADVANTAGE;
    let dr = config::DRAWING_RANGE;
    if post < 0 && final_cp >= wa {
        TacticalObjective::Reversal
    } else if final_cp >= wa {
        TacticalObjective::Advantage
    } else if post < -dr && -dr <= final_cp && final_cp <= dr {
        TacticalObjective::Equalization
    } else if post < 0 && final_cp < 0 {
        TacticalObjective::Resistance
    } else {
        TacticalObjective::Tactical
    }
}

/// The phase of the game a puzzle comes from.
#[derive(Debug, Clone, Copy, PartialEq, Eq, Structural)]
pub enum GamePhase {
    Opening,
    Middlegame,
    Endgame,
}

/// The phase indicator, as an exact integer: the weighted material
/// remaining (normalized by the constant 196), the ply count capped at
/// 80, and the castling rights out of 4, combined as
/// `(2·material/196 + plies/80 + rights/4) / 4` and scaled by 62720 to
/// stay in integers.
pub open spec fn spec_phase_score(material: int, plies: int, rights: int) -> int {
    160 * material + 196 * (if plies > 80 {
        80int
    } else {
        plies
    }) + 3920 * rights
}

/// Opening at or above four fifths of the scale, endgame at or below
/// one fifth, middlegame between.
pub open spec fn spec_classify_phase(material: int, plies: int, rights: int) -> GamePhase {
    if spec_phase_score(material, plies, rights) >= 50176 {
        GamePhase::Opening
    } else if spec_phase_score(material, plies, rights) <= 12544 {
        GamePhase::Endgame
    } else {
        GamePhase::Middlegame
    }
}

/// Classifies the phase of a FEN position after a given number of
/// plies.
pub fn classify_phase(fen: &Vec<u8>, plies: u64) -> (r: GamePhase)
    requires
        fen@.len() <= 1_000_000_000,
    ensures
        r == spec_classify_phase(
            crate::fen::spec_weight_sum(crate::fen::spec_board_field(fen@)),
            plies as int,
            crate::fen::spec_castling_rights(fen@),
        ),
{
    let material = crate::fen::material_weight(fen);
    let rights = crate::fen::castling_rights(fen);
    let capped: u64 = if plies > 80 {
        80
    } else {
        plies
    };
    proof {
        crate::fen::lemma_space_from(fen@, 0);
        crate::fen::lemma_weight_sum_bound(crate::fen::spec_board_field(fen@));
        assert(material <= 4_000_000_000u64);
    }
    let score: u64 = 160 * material + 196 * capped + 3920 * rights;
    if score >= 50176 {
        GamePhase::Opening
    } else if score <= 12544 {
        GamePhase::Endgame
    } else {
        GamePhase::Middlegame
    }
}

/// A set of near-equivalent solver replies recorded at one solver ply
/// of the mainline.
pub struct AltLine {
    pub ply: usize,
    pub moves: Vec<Vec<u8>>,
}

/// A finished puzzle sequence: the mainline from the post-blunder
/// position, the alternative solver replies per recorded ply, and the
/// final evaluation.
pub struct PuzzleSeq {
    pub moves: Vec<Vec<u8>>,
    pub alternatives: Vec<AltLine>,
    pub final_cp: i32,
    pub is_mate: bool,
}

/// The position reached by playing the moves in order, when every one
/// of them applies legally.
pub open spec fn spec_chain(fen: Seq<u8>, ms: Seq<Seq<u8>>) -> Option<Seq<u8>>
    decreases ms.len(),
{
    if ms.len() == 0 {
        Some(fen)
    } else {
        match fen_after_uci(fen, ms[0]) {
            Some(f2) => spec_chain(f2, ms.skip(1)),
            None => None,
        }
    }
}

pub proof fn lemma_chain_push(fen: Seq<u8>, ms: Seq<Seq<u8>>, m: Seq<u8>)
    ensures
        spec_chain(fen, ms.push(m)) == (match spec_chain(fen, ms) {
            Some(f) => fen_after_uci(f, m),
            None => None,
        }),
    decreases ms.len(),
{
    if ms.len() == 0 {
        assert(ms.push(m)[0] == m);
        assert(ms.push(m).skip(1) =~= Seq::<Seq<u8>>::empty());
        assert(spec_chain(fen, ms) == Some(fen));
        match fen_after_uci(fen, m) {
            Some(f2) => {
                assert(spec_chain(f2, Seq::<Seq<u8>>::empty()) == Some(f2));
            },
            None => {},
        }
    } else {
        assert(ms.push(m)[0] == ms[0]);
        assert(ms.push(m).skip(1) =~= ms.skip(1).push(m));
        match fen_after_uci(fen, ms[0]) {
            Some(f2) => {
                lemma_chain_push(f2, ms.skip(1), m);
            },
            None => {},
        }
    }
}

/// A prefix of an applicable mainline is applicable.
pub proof fn lemma_chain_prefix(fen: Seq<u8>, ms: Seq<Seq<u8>>, i: int)
    requires
        0 <= i <= ms.len(),
        spec_chain(fen, ms) is Some,
    ensures
        spec_chain(fen, ms.take(i)) is Some,
    decreases ms.len(),
{
    if i > 0 && ms.len() > 0 {
        match fen_after_uci(fen, ms[0]) {
            Some(f2) => {
                assert(ms.take(i)[0] == ms[0]);
                assert(ms.take(i).skip(1) =~= ms.skip(1).take(i - 1));
                lemma_chain_prefix(f2, ms.skip(1), i - 1);
            },
            None => {},
        }
    } else if i == 0 {
        assert(ms.take(0) =~= Seq::<Seq<u8>>::empty());
    }
}

/// The alternatives of `ms` that apply at `fen`, in order.
pub open spec fn spec_applicable(fen: Seq<u8>, ms: Seq<Seq<u8>>) -> Seq<Seq<u8>>
    decreases ms.len(),
{
    if ms.len() == 0 {
        Seq::empty()
    } else {
        let rest = spec_applicable(fen, ms.skip(1));
        if fen_after_uci(fen, ms[0]) is Some {
            seq![ms[0]] + rest
        } else {
            rest
        }
    }
}

pub proof fn lemma_applicable_push(fen: Seq<u8>, ms: Seq<Seq<u8>>, m: Seq<u8>)
    ensures
        spec_applicable(fen, ms.push(m)) == spec_applicable(fen, ms) + (if fen_after_uci(
            fen,
            m,
        ) is Some {
            seq![m]
        } else {
            Seq::<Seq<u8>>::empty()
        }),
    decreases ms.len(),
{
    if ms.len() == 0 {
        assert(ms.push(m)[0] == m);
        assert(ms.push(m).skip(1) =~= Seq::<Seq<u8>>::empty());
        assert(spec_applicable(fen, Seq::<Seq<u8>>::empty()) =~= Seq::<Seq<u8>>::empty());
        assert(spec_applicable(fen, ms) =~= Seq::<Seq<u8>>::empty());
        if fen_after_uci(fen, m) is Some {
            assert(spec_applicable(fen, ms.push(m)) =~= spec_applicable(fen, ms) + seq![m]);
        } else {
            assert(spec_applicable(fen, ms.push(m)) =~= spec_applicable(fen, ms)
                + Seq::<Seq<u8>>::empty());
        }
    } else {
        assert(ms.push(m)[0] == ms[0]);
        assert(ms.push(m).skip(1) =~= ms.skip(1).push(m));
        lemma_applicable_push(fen, ms.skip(1), m);
        if fen_after_uci(fen, ms[0]) is Some {
            if fen_after_uci(fen, m) is Some {
                assert(spec_applicable(fen, ms.push(m)) =~= spec_applicable(fen, ms) + seq![m]);
            } else {
                assert(spec_applicable(fen, ms.push(m)) =~= spec_applicable(fen, ms)
                    + Seq::<Seq<u8>>::empty());
            }
        } else {
            if fen_after_uci(fen, m) is Some {
                assert(spec_applicable(fen, ms.push(m)) =~= spec_applicable(fen, ms) + seq![m]);
            } else {
                assert(spec_applicable(fen, ms.push(m)) =~= spec_applicable(fen, ms)
                    + Seq::<Seq<u8>>::empty());
            }
        }
    }
}

/// The first `cap` entries, or all of them when fewer.
pub open spec fn spec_capped(s: Seq<Seq<u8>>, cap: int) -> Seq<Seq<u8>> {
    if s.len() <= cap {
        s
    } else {
        s.take(cap)
    }
}

/// The running state of one puzzle construction.
pub struct BuilderState {
    pub start_fen: Vec<u8>,
    pub board_fen: Vec<u8>,
    pub moves: Vec<Vec<u8>>,
    pub alternatives: Vec<AltLine>,
    pub solver_white: bool,
    pub last_cp: i32,
    pub last_mate: bool,
    pub finished: bool,
}

/// The builder's invariant: the mainline applies from the start
/// position up to the current board, and every recorded alternative
/// entry sits at a solver ply of the mainline, is non-empty, respects
/// the cap, and applies at the position of its ply.
pub open spec fn spec_builder_wf(st: BuilderState) -> bool {
    &&& spec_chain(st.start_fen@, st.moves.deep_view()) == Some(st.board_fen@)
    &&& forall|k: int|
        0 <= k < st.alternatives@.len() ==> spec_alt_wf(
            st.start_fen@,
            st.moves.deep_view(),
            #[trigger] st.alternatives@[k],
        )
}

/// One alternatives entry is well-formed with respect to a mainline.
pub open spec fn spec_alt_wf(start_fen: Seq<u8>, ms: Seq<Seq<u8>>, alt: AltLine) -> bool {
    &&& alt.ply < ms.len()
    &&& alt.ply % 2 == 0
    &&& 1 <= alt.moves@.len() <= config::MAX_ALTERNATIVE_LINES as int
    &&& spec_chain(start_fen, ms.take(alt.ply as int)) matches Some(f) && forall|j: int|
        0 <= j < alt.moves@.len() ==> fen_after_uci(f, (#[trigger] alt.moves@[j])@) is Some
}

/// Starts building from the post-blunder position.
pub fn builder_new(start_fen: &Vec<u8>, solver_white: bool, pre_cp: i32) -> (st: BuilderState)
    ensures
        spec_builder_wf(st),
        st.start_fen@ == start_fen@,
        st.board_fen@ == start_fen@,
        st.moves@.len() == 0,
        st.alternatives@.len() == 0,
        st.solver_white == solver_white,
        st.last_cp == pre_cp,
        !st.last_mate,
        !st.finished,
{
    let st = BuilderState {
        start_fen: copy_bytes(start_fen),
        board_fen: copy_bytes(start_fen),
        moves: Vec::new(),
        alternatives: Vec::new(),
        solver_white,
        last_cp: pre_cp,
        last_mate: false,
        finished: false,
    };
    proof {
        assert(st.moves.deep_view() =~= Seq::<Seq<u8>>::empty());
    }
    st
}

/// One solver turn.  Nothing usable, an ambiguous reply, or a solution
/// that does not apply ends the construction; otherwise the solution is
/// appended and played, the applicable alternatives (capped) are
/// recorded at this ply, and the final evaluation fields are updated.
pub fn builder_solver_step(st: &mut BuilderState, resp: Option<SolverResponse>) -> (cont: bool)
    requires
        !old(st).finished,
        old(st).moves@.len() % 2 == 0,
    ensures
        spec_builder_wf(*old(st)) ==> spec_builder_wf(*final(st)),
        final(st).start_fen == old(st).start_fen,
        final(st).solver_white == old(st).solver_white,
        !cont ==> final(st).finished && final(st).moves == old(st).moves && final(st).alternatives
            == old(st).alternatives && final(st).last_cp == old(st).last_cp && final(st).last_mate
            == old(st).last_mate,
        !cont <==> (resp is None || resp->Some_0.ambiguous || fen_after_uci(
            old(st).board_fen@,
            resp->Some_0.solution_move@,
        ) is None),
        cont ==> {
            let r = resp->Some_0;
            let kept = spec_capped(
                spec_applicable(old(st).board_fen@, r.alternative_moves.deep_view()),
                config::MAX_ALTERNATIVE_LINES as int,
            );
            &&& final(st).moves@.len() == old(st).moves@.len() + 1
            &&& final(st).moves.deep_view() == old(st).moves.deep_view().push(r.solution_move@)
            &&& Some(final(st).board_fen@) == fen_after_uci(old(st).board_fen@, r.solution_move@)
            &&& final(st).last_cp == r.post_cp
            &&& final(st).last_mate == (r.score matches Score::Mate(_))
            &&& !final(st).finished
            &&& (kept.len() == 0 ==> final(st).alternatives == old(st).alternatives)
            &&& (kept.len() > 0 ==> {
                &&& final(st).alternatives@.len() == old(st).alternatives@.len() + 1
                &&& forall|k: int|
                    0 <= k < old(st).alternatives@.len() ==> final(st).alternatives@[k] == old(
                        st,
                    ).alternatives@[k]
                &&& final(st).alternatives@.last().ply == old(st).moves@.len()
                &&& final(st).alternatives@.last().moves.deep_view() == kept
            })
        },
{
    let r = match resp {
        Some(r) => r,
        None => {
            st.finished = true;
            return false;
        },
    };
    if r.ambiguous {
        st.finished = true;
        return false;
    }
    let next = match apply_uci_move(&st.board_fen, &r.solution_move) {
        Some(f) => f,
        None => {
            st.finished = true;
            return false;
        },
    };
    let ghost ms0 = st.moves.deep_view();
    let ghost board0 = st.board_fen@;
    // Record the applicable alternatives at this ply, capped.
    let cap: usize = config::MAX_ALTERNATIVE_LINES as usize;
    let ghost alts_deep = r.alternative_moves.deep_view();
    let mut kept: Vec<Vec<u8>> = Vec::new();
    let mut i: usize = 0;
    proof {
        assert(alts_deep.take(0) =~= Seq::<Seq<u8>>::empty());
    }
    while i < r.alternative_moves.len()
        invariant
            i <= r.alternative_moves@.len(),
            alts_deep == r.alternative_moves.deep_view(),
            st.board_fen@ == board0,
            cap == config::MAX_ALTERNATIVE_LINES as usize,
            kept@.len() <= cap,
            kept.deep_view() == spec_capped(
                spec_applicable(board0, alts_deep.take(i as int)),
                cap as int,
            ),
            forall|j: int|
                0 <= j < kept@.len() ==> fen_after_uci(board0, (#[trigger] kept@[j])@) is Some,
        decreases r.alternative_moves@.len() - i,
    {
        let ghost ap0 = spec_applicable(board0, alts_deep.take(i as int));
        proof {
            assert(alts_deep.take(i as int + 1) =~= alts_deep.take(i as int).push(
                alts_deep[i as int],
            ));
            lemma_applicable_push(board0, alts_deep.take(i as int), alts_deep[i as int]);
            assert(r.alternative_moves@[i as int]@ == alts_deep[i as int]);
        }
        let ghost ap1 = spec_applicable(board0, alts_deep.take(i as int + 1));
        match apply_uci_move(&st.board_fen, &r.alternative_moves[i]) {
            Some(_) => {
                proof {
                    assert(ap1 =~= ap0 + seq![alts_deep[i as int]]);
                }
                if kept.len() < cap {
                    let m = copy_bytes(&r.alternative_moves[i]);
                    let ghost k0 = kept.deep_view();
                    let ghost kv0 = kept@;
                    kept.push(m);
                    proof {
                        assert(kept.deep_view() =~= k0.push(alts_deep[i as int]));
                        assert(ap0.len() <= cap as int);
                        assert(spec_capped(ap1, cap as int) =~= k0.push(alts_deep[i as int]));
                        assert forall|j: int| 0 <= j < kept@.len() implies fen_after_uci(
                            board0,
                            (#[trigger] kept@[j])@,
                        ) is Some by {
                            if j < kv0.len() {
                                assert(kept@[j] == kv0[j]);
                            } else {
                                assert(kept@[j]@ == alts_deep[i as int]);
                            }
                        }
                    }
                } else {
                    proof {
                        assert(ap0.len() >= cap as int);
                        assert((ap0 + seq![alts_deep[i as int]]).take(cap as int) =~= ap0.take(
                            cap as int,
                        ));
                        assert(spec_capped(ap1, cap as int) =~= spec_capped(ap0, cap as int));
                    }
                }
            },
            None => {
                proof {
                    assert(ap1 =~= ap0);
                }
            },
        }
        i = i + 1;
    }
    proof {
        assert(alts_deep.take(alts_deep.len() as int) =~= alts_deep);
    }
    let keep_any = kept.len() > 0;
    if keep_any {
        let ply = st.moves.len();
        let alt = AltLine { ply, moves: kept };
        st.alternatives.push(alt);
    }
    let ghost mv = r.solution_move@;
    let ghost solv = r.solution_move;
    let ghost mvec0 = st.moves@;
    st.moves.push(r.solution_move);
    st.board_fen = next;
    st.last_cp = r.post_cp;
    st.last_mate = r.score.is_mate();
    proof {
        assert forall|j: int| 0 <= j < st.moves@.len() implies st.moves.deep_view()[j] == ms0.push(
            mv,
        )[j] by {
            if j < mvec0.len() {
                assert(st.moves@[j] == mvec0[j]);
            } else {
                assert(st.moves@[j] == solv);
            }
        }
        assert(st.moves.deep_view() =~= ms0.push(mv));
        if spec_builder_wf(*old(st)) {
            lemma_chain_push(old(st).start_fen@, ms0, mv);
            assert(spec_chain(st.start_fen@, st.moves.deep_view()) == Some(st.board_fen@));
            assert forall|k: int| 0 <= k < st.alternatives@.len() implies spec_alt_wf(
                st.start_fen@,
                st.moves.deep_view(),
                #[trigger] st.alternatives@[k],
            ) by {
                let alt = st.alternatives@[k];
                if k < old(st).alternatives@.len() {
                    assert(spec_alt_wf(old(st).start_fen@, ms0, alt));
                    assert(ms0.push(mv).take(alt.ply as int) =~= ms0.take(alt.ply as int));
                } else {
                    assert(alt.ply == ms0.len());
                    assert(ms0.push(mv).take(alt.ply as int) =~= ms0);
                    assert(spec_chain(st.start_fen@, ms0) == Some(board0));
                }
            }
        }
    }
    true
}

/// One opponent turn.  No reply ends the construction naturally; a
/// reply that does not apply ends it too; otherwise the reply is
/// appended and played.
pub fn builder_opponent_step(st: &mut BuilderState, best: Option<Vec<u8>>) -> (cont: bool)
    requires
        !old(st).finished,
        old(st).moves@.len() % 2 == 1,
    ensures
        spec_builder_wf(*old(st)) ==> spec_builder_wf(*final(st)),
        final(st).start_fen == old(st).start_fen,
        final(st).solver_white == old(st).solver_white,
        final(st).last_cp == old(st).last_cp,
        final(st).last_mate == old(st).last_mate,
        final(st).alternatives == old(st).alternatives,
        !cont ==> final(st).finished && final(st).moves == old(st).moves,
        !cont <==> (best is None || fen_after_uci(old(st).board_fen@, best->Some_0@) is None),
        cont ==> {
            &&& final(st).moves@.len() == old(st).moves@.len() + 1
            &&& final(st).moves.deep_view() == old(st).moves.deep_view().push(best->Some_0@)
            &&& Some(final(st).board_fen@) == fen_after_uci(old(st).board_fen@, best->Some_0@)
            &&& !final(st).finished
        },
{
    let m = match best {
        Some(m) => m,
        None => {
            st.finished = true;
            return false;
        },
    };
    let next = match apply_uci_move(&st.board_fen, &m) {
        Some(f) => f,
        None => {
            st.finished = true;
            return false;
        },
    };
    let ghost ms0 = st.moves.deep_view();
    let ghost mv = m@;
    let ghost mval = m;
    let ghost mvec0 = st.moves@;
    st.moves.push(m);
    st.board_fen = next;
    proof {
        assert forall|j: int| 0 <= j < st.moves@.len() implies st.moves.deep_view()[j] == ms0.push(
            mv,
        )[j] by {
            if j < mvec0.len() {
                assert(st.moves@[j] == mvec0[j]);
            } else {
                assert(st.moves@[j] == mval);
            }
        }
        assert(st.moves.deep_view() =~= ms0.push(mv));
        if spec_builder_wf(*old(st)) {
            lemma_chain_push(old(st).start_fen@, ms0, mv);
            assert forall|k: int| 0 <= k < st.alternatives@.len() implies spec_alt_wf(
                st.start_fen@,
                st.moves.deep_view(),
                #[trigger] st.alternatives@[k],
            ) by {
                let alt = st.alternatives@[k];
                assert(spec_alt_wf(old(st).start_fen@, ms0, alt));
                assert(ms0.push(mv).take(alt.ply as int) =~= ms0.take(alt.ply as int));
            }
        }
    }
    true
}

/// A finished puzzle sequence is sound with respect to its starting
/// position: the mainline has odd length — it ends on a solver move —
/// and applies move by legal move from the start, it carries at least
/// the minimum number of solver moves, and every alternatives entry
/// sits at a solver ply, within the cap, with moves that apply at that
/// ply's position.
pub open spec fn spec_seq_wf(start_fen: Seq<u8>, s: PuzzleSeq) -> bool {
    &&& s.moves@.len() % 2 == 1
    &&& (s.moves@.len() + 1) / 2 >= config::SOLVER_MIN_MOVES as int
    &&& spec_chain(start_fen, s.moves.deep_view()) is Some
    &&& forall|k: int|
        0 <= k < s.alternatives@.len() ==> spec_alt_wf(
            start_fen,
            s.moves.deep_view(),
            #[trigger] s.alternatives@[k],
        )
}

/// Finalizes a construction: too few solver moves yield nothing; a
/// mainline ending on an opponent move loses that move; what remains is
/// a sound sequence carrying the last solver evaluation.
pub fn builder_finalize(st: BuilderState) -> (r: Option<PuzzleSeq>)
    ensures
        r is Some <==> (st.moves@.len() + 1) / 2 >= config::SOLVER_MIN_MOVES as int
            && st.moves@.len() > 0,
        r matches Some(s) ==> {
            &&& spec_builder_wf(st) ==> spec_seq_wf(st.start_fen@, s)
            &&& s.final_cp == st.last_cp
            &&& s.is_mate == st.last_mate
            &&& (st.moves@.len() % 2 == 1 ==> s.moves.deep_view() == st.moves.deep_view())
            &&& (st.moves@.len() % 2 == 0 ==> s.moves.deep_view() == st.moves.deep_view().take(
                st.moves@.len() - 1,
            ))
        },
{
    let solver_moves = st.moves.len() / 2 + st.moves.len() % 2;
    proof {
        assert(solver_moves as int == (st.moves@.len() + 1) / 2);
    }
    if solver_moves < config::SOLVER_MIN_MOVES as usize || st.moves.len() == 0 {
        return None;
    }
    let mut moves = st.moves;
    let ghost ms0 = moves.deep_view();
    if moves.len() % 2 == 0 {
        moves.pop();
        proof {
            assert(moves.deep_view() =~= ms0.take(ms0.len() - 1));
        }
    }
    let s = PuzzleSeq {
        moves,
        alternatives: st.alternatives,
        final_cp: st.last_cp,
        is_mate: st.last_mate,
    };
    proof {
        if spec_builder_wf(st) {
            if ms0.len() % 2 == 0 {
                lemma_chain_prefix(st.start_fen@, ms0, ms0.len() - 1);
                assert forall|k: int| 0 <= k < s.alternatives@.len() implies spec_alt_wf(
                    st.start_fen@,
                    s.moves.deep_view(),
                    #[trigger] s.alternatives@[k],
                ) by {
                    let alt = s.alternatives@[k];
                    assert(spec_alt_wf(st.start_fen@, ms0, alt));
                    assert(alt.ply < ms0.len());
                    assert(alt.ply % 2 == 0);
                    assert(alt.ply < ms0.len() - 1);
                    assert(ms0.take(ms0.len() - 1).take(alt.ply as int) =~= ms0.take(
                        alt.ply as int,
                    ));
                }
            } else {
                assert(s.moves.deep_view() == ms0);
            }
        }
    }
    Some(s)
}

/// The header value naming a game phase.
pub open spec fn spec_phase_name(p: GamePhase) -> Seq<u8> {
    match p {
        GamePhase::Opening => crate::text::ascii_seq("Opening"),
        GamePhase::Middlegame => crate::text::ascii_seq("Middlegame"),
        GamePhase::Endgame => crate::text::ascii_seq("Endgame"),
    }
}

pub fn phase_name(p: GamePhase) -> (r: Vec<u8>)
    ensures
        r@ == spec_phase_name(p),
{
    proof {
        reveal_strlit("Opening");
        reveal_strlit("Middlegame");
        reveal_strlit("Endgame");
    }
    match p {
        GamePhase::Opening => crate::text::ascii_bytes("Opening"),
        GamePhase::Middlegame => crate::text::ascii_bytes("Middlegame"),
        GamePhase::Endgame => crate::text::ascii_bytes("Endgame"),
    }
}

/// The header value naming a tactical objective.
pub open spec fn spec_tactic_name(t: TacticalObjective) -> Seq<u8> {
    match t {
        TacticalObjective::Mate => crate::text::ascii_seq("Mate"),
        TacticalObjective::Reversal => crate::text::ascii_seq("Reversal"),
        TacticalObjective::Advantage => crate::text::ascii_seq("Advantage"),
        TacticalObjective::Equalization => crate::text::ascii_seq("Equalization"),
        TacticalObjective::Resistance => crate::text::ascii_seq("Resistance"),
        TacticalObjective::Tactical => crate::text::ascii_seq("Tactical"),
    }
}

pub fn tactic_name(t: TacticalObjective) -> (r: Vec<u8>)
    ensures
        r@ == spec_tactic_name(t),
{
    proof {
        reveal_strlit("Mate");
        reveal_strlit("Reversal");
        reveal_strlit("Advantage");
        reveal_strlit("Equalization");
        reveal_strlit("Resistance");
        reveal_strlit("Tactical");
    }
    match t {
        TacticalObjective::Mate => crate::text::ascii_bytes("Mate"),
        TacticalObjective::Reversal => crate::text::ascii_bytes("Reversal"),
        TacticalObjective::Advantage => crate::text::ascii_bytes("Advantage"),
        TacticalObjective::Equalization => crate::text::ascii_bytes("Equalization"),
        TacticalObjective::Resistance => crate::text::ascii_bytes("Resistance"),
        TacticalObjective::Tactical => crate::text::ascii_bytes("Tactical"),
    }
}

/// All original headers inserted in order into an empty map.
pub open spec fn spec_insert_all(
    es: Seq<(Seq<u8>, Seq<u8>)>,
    hs: Seq<(Seq<u8>, Seq<u8>)>,
    i: int,
) -> Seq<(Seq<u8>, Seq<u8>)>
    decreases hs.len() - i when 0 <= i <= hs.len()
{
    if i >= hs.len() {
        es
    } else {
        spec_insert_all(
            crate::pgn::spec_entries_insert(es, hs[i].0, hs[i].1),
            hs,
            i + 1,
        )
    }
}

/// The final header entries of a record: the originals in their order,
/// then the phase, tactic, setup flag and starting FEN.
pub open spec fn spec_final_headers(
    hs: Seq<(Seq<u8>, Seq<u8>)>,
    phase: GamePhase,
    tactic: TacticalObjective,
    fen: Seq<u8>,
) -> Seq<(Seq<u8>, Seq<u8>)> {
    let e0 = spec_insert_all(Seq::empty(), hs, 0);
    let e1 = crate::pgn::spec_entries_insert(
        e0,
        crate::text::ascii_seq("Phase"),
        spec_phase_name(phase),
    );
    let e2 = crate::pgn::spec_entries_insert(
        e1,
        crate::text::ascii_seq("Tactical"),
        spec_tactic_name(tactic),
    );
    let e3 = crate::pgn::spec_entries_insert(
        e2,
        crate::text::ascii_seq("SetUp"),
        crate::text::ascii_seq("1"),
    );
    crate::pgn::spec_entries_insert(e3, crate::text::ascii_seq("FEN"), fen)
}

/// The full move list of the record: the blunder, then the sequence.
pub open spec fn spec_full_moves(blunder: Seq<u8>, ms: Seq<Seq<u8>>) -> Seq<Seq<u8>> {
    seq![blunder] + ms
}

/// The alternatives, shifted one ply right to account for the blunder
/// move in front of the mainline.
pub open spec fn spec_shifted_alts(av: Seq<(int, Seq<Seq<u8>>)>) -> Seq<(int, Seq<Seq<u8>>)> {
    Seq::new(av.len(), |k: int| (av[k].0 + 1, av[k].1))
}

/// Assembles the final record of a candidate and its solved sequence:
/// classifies the phase and the tactic, extends the original headers
/// with the classification, the setup flag and the pre-blunder FEN, and
/// renders the blunder move followed by the sequence.
pub fn process_puzzle(
    cand: &crate::candidates::PuzzleCandidate,
    s: &PuzzleSeq,
    headers: &Vec<(Vec<u8>, Vec<u8>)>,
) -> (r: Option<Vec<u8>>)
    requires
        cand.board_post_blunder@.len() <= 1_000_000_000,
    ensures
        ({
            let phase = spec_classify_phase(
                crate::fen::spec_weight_sum(
                    crate::fen::spec_board_field(cand.board_post_blunder@),
                ),
                cand.move_number as int,
                crate::fen::spec_castling_rights(cand.board_post_blunder@),
            );
            let tactic = spec_classify_tactic(
                cand.post_cp as int,
                s.final_cp as int,
                s.is_mate,
            );
            let es = spec_final_headers(
                crate::pgn::spec_pairs_view(headers@),
                phase,
                tactic,
                cand.board_pre_blunder@,
            );
            let ms = spec_full_moves(cand.blunder_move@, s.moves.deep_view());
            let alts = spec_shifted_alts(crate::pgn::spec_alts_view(s.alternatives@));
            &&& (r is Some <==> crate::pgn::spec_record_text(es, ms, alts) is Some)
            &&& (r matches Some(out) ==> Some(out@) == crate::pgn::spec_record_text(
                es,
                ms,
                alts,
            ))
        }),
{
    proof {
        reveal_strlit("Phase");
        reveal_strlit("Tactical");
        reveal_strlit("SetUp");
        reveal_strlit("1");
        reveal_strlit("FEN");
    }
    let ghost hs = crate::pgn::spec_pairs_view(headers@);
    let phase = classify_phase(&cand.board_post_blunder, cand.move_number as u64);
    let tactic = classify_tactic(cand.post_cp, s.final_cp, s.is_mate);
    let mut map = crate::pgn::header_map_new();
    let mut i: usize = 0;
    while i < headers.len()
        invariant
            0 <= i <= hs.len(),
            hs == crate::pgn::spec_pairs_view(headers@),
            spec_insert_all(crate::pgn::header_entries(map), hs, i as int) == spec_insert_all(
                Seq::empty(),
                hs,
                0,
            ),
        decreases hs.len() - i,
    {
        let k = crate::text::copy_bytes(&headers[i].0);
        let v = crate::text::copy_bytes(&headers[i].1);
        proof {
            assert(hs[i as int] == (headers@[i as int].0@, headers@[i as int].1@));
        }
        crate::pgn::header_map_insert(&mut map, k, v);
        i = i + 1;
    }
    proof {
        assert(spec_insert_all(crate::pgn::header_entries(map), hs, hs.len() as int)
            == crate::pgn::header_entries(map));
    }
    crate::pgn::header_map_insert(&mut map, crate::text::ascii_bytes("Phase"), phase_name(phase));
    crate::pgn::header_map_insert(
        &mut map,
        crate::text::ascii_bytes("Tactical"),
        tactic_name(tactic),
    );
    crate::pgn::header_map_insert(
        &mut map,
        crate::text::ascii_bytes("SetUp"),
        crate::text::ascii_bytes("1"),
    );
    crate::pgn::header_map_insert(
        &mut map,
        crate::text::ascii_bytes("FEN"),
        crate::text::copy_bytes(&cand.board_pre_blunder),
    );
    // The record's moves: the blunder in front of the sequence.
    let mut full_moves: Vec<Vec<u8>> = Vec::new();
    full_moves.push(crate::text::copy_bytes(&cand.blunder_move));
    proof {
        let target = spec_full_moves(cand.blunder_move@, s.moves.deep_view());
        assert(full_moves@.len() == 1);
        assert(full_moves.deep_view()[0] == full_moves@[0]@);
        assert(full_moves@[0]@ == cand.blunder_move@);
        assert(target.take(1).len() == 1);
        assert(target.take(1)[0] == cand.blunder_move@);
        assert(full_moves.deep_view() =~= target.take(1));
    }
    let mut j: usize = 0;
    while j < s.moves.len()
        invariant
            0 <= j <= s.moves@.len(),
            full_moves@.len() == j + 1,
            full_moves.deep_view() =~= spec_full_moves(cand.blunder_move@, s.moves.deep_view())
                .take(j as int + 1),
        decreases s.moves@.len() - j,
    {
        let ghost fv0 = full_moves@;
        full_moves.push(crate::text::copy_bytes(&s.moves[j]));
        proof {
            let ghost target = spec_full_moves(cand.blunder_move@, s.moves.deep_view());
            assert(s.moves@[j as int]@ == s.moves.deep_view()[j as int]);
            assert forall|l: int|
                0 <= l < full_moves@.len() implies full_moves.deep_view()[l] == target.take(
                j as int + 2,
            )[l] by {
                if l < fv0.len() {
                    assert(full_moves@[l] == fv0[l]);
                } else {
                    assert(l == j + 1);
                }
            }
            assert(full_moves.deep_view() =~= target.take(j as int + 2));
        }
        j = j + 1;
    }
    proof {
        let target = spec_full_moves(cand.blunder_move@, s.moves.deep_view());
        assert(target.take(target.len() as int) =~= target);
    }
    // The alternatives, shifted past the blunder ply.
    let mut shifted: Vec<AltLine> = Vec::new();
    let mut k: usize = 0;
    while k < s.alternatives.len()
        invariant
            0 <= k <= s.alternatives@.len(),
            shifted@.len() == k,
            hs == crate::pgn::spec_pairs_view(headers@),
            cand.board_post_blunder@.len() <= 1_000_000_000,
            phase == spec_classify_phase(
                crate::fen::spec_weight_sum(
                    crate::fen::spec_board_field(cand.board_post_blunder@),
                ),
                cand.move_number as int,
                crate::fen::spec_castling_rights(cand.board_post_blunder@),
            ),
            tactic == spec_classify_tactic(cand.post_cp as int, s.final_cp as int, s.is_mate),
            forall|l: int|
                0 <= l < k ==> (#[trigger] shifted@[l]).ply == s.alternatives@[l].ply + 1
                    && shifted@[l].moves.deep_view() == s.alternatives@[l].moves.deep_view(),
            forall|l: int| 0 <= l < k ==> (#[trigger] s.alternatives@[l]).ply < usize::MAX,
        decreases s.alternatives@.len() - k,
    {
        let alt = &s.alternatives[k];
        if alt.ply >= usize::MAX {
            // A ply this large cannot sit inside any move list; the
            // record has no rendering.
            let nm = s.moves.len();
            proof {
                assert(s.moves@.len() == nm as int);
                let av = crate::pgn::spec_alts_view(s.alternatives@);
                let shifted_av = spec_shifted_alts(av);
                let fm = spec_full_moves(cand.blunder_move@, s.moves.deep_view());
                assert(av[k as int].0 == alt.ply as int);
                assert(shifted_av[k as int].0 == alt.ply as int + 1);
                assert(fm.len() == 1 + s.moves.deep_view().len());
                assert(s.moves.deep_view().len() == s.moves@.len());
                assert(shifted_av[k as int].0 >= fm.len());
                lemma_overflow_alt_none(
                    crate::pgn::spec_pairs_view(headers@),
                    phase,
                    tactic,
                    cand.board_pre_blunder@,
                    spec_full_moves(cand.blunder_move@, s.moves.deep_view()),
                    spec_shifted_alts(crate::pgn::spec_alts_view(s.alternatives@)),
                    k as int,
                );
            }
            return None;
        }
        let moved = crate::text::copy_tokens(&alt.moves);
        shifted.push(AltLine { ply: alt.ply + 1, moves: moved });
        k = k + 1;
    }
    let out_seq = PuzzleSeq {
        moves: full_moves,
        alternatives: shifted,
        final_cp: s.final_cp,
        is_mate: s.is_mate,
    };
    let r = crate::pgn::build_pgn_san(&map, &out_seq);
    proof {
        assert(crate::pgn::header_entries(map) == spec_final_headers(
            hs,
            phase,
            tactic,
            cand.board_pre_blunder@,
        ));
        assert(out_seq.moves.deep_view() == spec_full_moves(
            cand.blunder_move@,
            s.moves.deep_view(),
        ));
        assert(crate::pgn::spec_alts_view(out_seq.alternatives@) =~= spec_shifted_alts(
            crate::pgn::spec_alts_view(s.alternatives@),
        ));
    }
    r
}

/// A shifted alternatives entry whose ply exceeds every possible move
/// index keeps the record from rendering.
proof fn lemma_overflow_alt_none(
    hs: Seq<(Seq<u8>, Seq<u8>)>,
    phase: GamePhase,
    tactic: TacticalObjective,
    pre_fen: Seq<u8>,
    ms: Seq<Seq<u8>>,
    alts: Seq<(int, Seq<Seq<u8>>)>,
    k: int,
)
    requires
        0 <= k < alts.len(),
        alts[k].0 >= ms.len(),
    ensures
        crate::pgn::spec_record_text(spec_final_headers(hs, phase, tactic, pre_fen), ms, alts)
            is None,
{
    let es = spec_final_headers(hs, phase, tactic, pre_fen);
    let fen = crate::pgn::spec_record_fen(es);
    lemma_alts_text_none(fen, ms, alts, 0, k);
}

proof fn lemma_alts_text_none(
    fen: Seq<u8>,
    ms: Seq<Seq<u8>>,
    alts: Seq<(int, Seq<Seq<u8>>)>,
    i: int,
    k: int,
)
    requires
        0 <= i <= k < alts.len(),
        alts[k].0 >= ms.len(),
    ensures
        crate::pgn::spec_alts_text(fen, ms, alts, i) is None,
    decreases k - i,
{
    if i == k {
        assert(crate::pgn::spec_alt_entry_text(fen, ms, alts[k].0, alts[k].1) is None);
    } else {
        lemma_alts_text_none(fen, ms, alts, i + 1, k);
    }
}

} // verus!
