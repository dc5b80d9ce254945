//! The extraction logic: FEN readers, the blunder scanner, the solver
//! response, the puzzle builder and the endgame oracle.

use puzzle_miner::analysis;
use puzzle_miner::builder;
use puzzle_miner::candidates;
use puzzle_miner::fen;
use puzzle_miner::oracle;
use puzzle_miner::score::Score;
use puzzle_miner::uci::AnalysisInfo;
use puzzle_miner::uci::AnalysisOrigin;

fn bv(s: &str) -> Vec<u8> {
    s.as_bytes().to_vec()
}

const STARTPOS: &str = "rnbqkbnr/pppppppp/8/8/8/8/PPPPPPPP/RNBQKBNR w KQkq - 0 1";

fn line(cp: Score, pv: &[&str]) -> AnalysisInfo {
    AnalysisInfo {
        score: cp,
        depth: 12,
        pv: pv.iter().map(|m| bv(m)).collect(),
        origin: AnalysisOrigin::Engine,
        multipv: 1,
    }
}

#[test]
fn fen_readers() {
    let sp = bv(STARTPOS);
    assert_eq!(fen::occupied_count(&sp), 32);
    assert_eq!(fen::side_to_move(&sp), Some(fen::Color::White));
    assert_eq!(fen::material_weight(&sp), 24);
    assert_eq!(fen::castling_rights(&sp), 4);

    let black = bv("rnbqkbnr/pppppppp/8/8/4P3/8/PPPP1PPP/RNBQKBNR b KQkq - 0 1");
    assert_eq!(fen::side_to_move(&black), Some(fen::Color::Black));

    let sparse = bv("8/8/4k3/8/8/4K3/4P3/8 w - - 0 1");
    assert_eq!(fen::occupied_count(&sparse), 3);
    assert_eq!(fen::castling_rights(&sparse), 0);
    assert_eq!(fen::castling_rights(&bv("8/8/4k3/8/8/4K3/4P3/8 w Kq - 0 1")), 2);
}

#[test]
fn oracle_gate_at_seven_occupied() {
    // Exactly seven occupied squares: the oracle is used when present.
    let seven = bv("8/8/4k3/8/2q5/4K3/2RB4/2N4P w - - 0 1");
    assert_eq!(fen::occupied_count(&seven), 7);
    assert!(oracle::should_use_oracle(&seven, true));
    assert!(!oracle::should_use_oracle(&seven, false));
    // Eight occupied squares: the engine answers.
    let eight = bv("8/7p/4k3/8/2q5/4K3/2RB4/2N4P w - - 0 1");
    assert_eq!(fen::occupied_count(&eight), 8);
    assert!(!oracle::should_use_oracle(&eight, true));
}

#[test]
fn oracle_prefers_wins_then_short_distance() {
    let entries = vec![
        oracle::OracleEntry { uci: bv("a1a2"), wdl: 1, dtz: 8 },
        oracle::OracleEntry { uci: bv("a1b1"), wdl: 1, dtz: 3 },
        oracle::OracleEntry { uci: bv("a1b2"), wdl: 0, dtz: 0 },
        oracle::OracleEntry { uci: bv("a2a3"), wdl: -1, dtz: -40 },
    ];
    assert_eq!(oracle::choose_oracle_move(&entries), Some(1));
}

#[test]
fn oracle_delays_a_lost_position() {
    let entries = vec![
        oracle::OracleEntry { uci: bv("h8h7"), wdl: -1, dtz: -2 },
        oracle::OracleEntry { uci: bv("h8g8"), wdl: -1, dtz: -30 },
    ];
    // Both lose; the longest delay wins.
    assert_eq!(oracle::choose_oracle_move(&entries), Some(1));
    let l = oracle::oracle_line(&entries, true).unwrap();
    assert_eq!(l.score, Score::Mate(-30));
    assert_eq!(l.pv, vec![bv("h8g8")]);
    assert!(matches!(l.origin, AnalysisOrigin::Endgame));
    assert_eq!(l.multipv, 1);
    // Standardization: the same loss seen with Black to move.
    let lb = oracle::oracle_line(&entries, false).unwrap();
    assert_eq!(lb.score, Score::Mate(30));
}

#[test]
fn oracle_resolved_positions_carry_no_magnitude() {
    let entries = vec![oracle::OracleEntry { uci: bv("e1e2"), wdl: 1, dtz: 12 }];
    let l = oracle::oracle_line(&entries, true).unwrap();
    assert_eq!(l.score, Score::Cp(0));
    assert!(oracle::choose_oracle_move(&vec![]).is_none());
}

#[test]
fn candidate_found_on_large_swing() {
    let pre = bv(STARTPOS);
    let c = candidates::find_candidate(&pre, &bv("e2e4"), 0, -200, 1).unwrap();
    assert_eq!(c.board_pre_blunder, pre);
    assert_eq!(c.blunder_move, bv("e2e4"));
    assert_eq!(c.pre_cp, 0);
    assert_eq!(c.post_cp, -200);
    assert_eq!(c.move_number, 1);
    // The side whose evaluation rose is Black here.
    assert_eq!(c.solver_color, fen::Color::Black);
    assert_eq!(
        c.board_post_blunder,
        bv("rnbqkbnr/pppppppp/8/8/4P3/8/PPPP1PPP/RNBQKBNR b KQkq - 0 1")
    );
}

#[test]
fn candidate_boundary_is_inclusive() {
    let pre = bv(STARTPOS);
    // A swing of exactly the blunder threshold is accepted.
    assert!(candidates::find_candidate(&pre, &bv("e2e4"), 0, 150, 1).is_some());
    assert!(candidates::find_candidate(&pre, &bv("e2e4"), 0, -150, 1).is_some());
    // One below is not.
    assert!(candidates::find_candidate(&pre, &bv("e2e4"), 0, 149, 1).is_none());
}

#[test]
fn candidate_rejects_illegal_and_forced() {
    let pre = bv(STARTPOS);
    // Not a legal move from the start position.
    assert!(candidates::find_candidate(&pre, &bv("e2e5"), 0, 400, 1).is_none());
    let (post, legal) = candidates::scan_ply_position(&pre, &bv("e2e4")).unwrap();
    assert_eq!(legal, 20);
    assert!(!post.is_empty());
    // A mating move leads to a terminal position: no legal replies, so
    // the scanner skips the ply before spending an evaluation on it.
    let before_mate = bv("rnbqkbnr/pppp1ppp/8/4p3/6P1/5P2/PPPPP2P/RNBQKBNR b KQkq - 0 2");
    let (_, legal_after_mate) =
        candidates::scan_ply_position(&before_mate, &bv("d8h4")).unwrap();
    assert_eq!(legal_after_mate, 0);
}

#[test]
fn solver_response_unique_best() {
    // Two lines far apart: cluster of one, unambiguous.
    let lines = vec![
        line(Score::Cp(250), &["d1h5"]),
        line(Score::Cp(-380), &["a2a3"]),
    ];
    let r = analysis::solver_response(lines, true).unwrap();
    assert_eq!(r.solution_move, bv("d1h5"));
    assert!(r.alternative_moves.is_empty());
    assert!(!r.ambiguous);
    assert_eq!(r.score, Score::Cp(250));
    assert_eq!(r.post_cp, 250);
}

#[test]
fn solver_response_cluster_and_ambiguity() {
    // Two near-equivalent lines, a third within the unicity gap.
    let lines = vec![
        line(Score::Cp(100), &["a1a2"]),
        line(Score::Cp(90), &["b1b2"]),
        line(Score::Cp(50), &["c1c2"]),
    ];
    let r = analysis::solver_response(lines, true).unwrap();
    assert_eq!(r.solution_move, bv("a1a2"));
    assert_eq!(r.alternative_moves, vec![bv("b1b2")]);
    assert!(r.ambiguous);
}

#[test]
fn solver_response_single_line() {
    let lines = vec![line(Score::Mate(-2), &["g7g8"])];
    let r = analysis::solver_response(lines, false).unwrap();
    assert_eq!(r.solution_move, bv("g7g8"));
    assert!(!r.ambiguous);
    assert_eq!(r.post_cp, 99_998 * -1);
}

#[test]
fn solver_response_black_sorts_low_first() {
    let lines = vec![
        line(Score::Cp(80), &["a1a2"]),
        line(Score::Cp(-300), &["h1h2"]),
    ];
    let r = analysis::solver_response(lines, false).unwrap();
    // The Black solver's best line is the most negative one.
    assert_eq!(r.solution_move, bv("h1h2"));
}

#[test]
fn solver_response_empty_variations_yield_nothing() {
    let lines = vec![line(Score::Cp(10), &[])];
    assert!(analysis::solver_response(lines, true).is_none());
    assert!(analysis::solver_response(vec![], true).is_none());
}

#[test]
fn interesting_positions() {
    // Below the completely-winning threshold: always interesting.
    assert!(analysis::puzzle_is_interesting(100, &vec![]));
    assert!(analysis::puzzle_is_interesting(-499, &vec![]));
    // Decisive, but only one reply known: interesting.
    assert!(analysis::puzzle_is_interesting(600, &vec![line(Score::Cp(0), &["a1a2"])]));
    // Decisive and the second reply keeps it near the drawing range.
    let near = vec![line(Score::Cp(600), &["a1a2"]), line(Score::Cp(50), &["b1b2"])];
    assert!(analysis::puzzle_is_interesting(600, &near));
    // Decisive and the second reply stays decisive: not interesting.
    let still = vec![line(Score::Cp(600), &["a1a2"]), line(Score::Cp(300), &["b1b2"])];
    assert!(!analysis::puzzle_is_interesting(600, &still));
    // A reversal past the drawing range is interesting.
    let rev = vec![line(Score::Cp(-600), &["a1a2"]), line(Score::Cp(150), &["b1b2"])];
    assert!(analysis::puzzle_is_interesting(-600, &rev));
}

#[test]
fn builder_runs_a_full_sequence() {
    let post = bv(STARTPOS);
    let mut st = builder::builder_new(&post, true, -200);
    let resp = analysis::SolverResponse {
        solution_move: bv("e2e4"),
        alternative_moves: vec![bv("d2d4"), bv("e2e5"), bv("g1f3")],
        ambiguous: false,
        score: Score::Cp(120),
        post_cp: 120,
    };
    assert!(builder::builder_solver_step(&mut st, Some(resp)));
    // The inapplicable alternative was dropped; the cap keeps two.
    assert_eq!(st.alternatives.len(), 1);
    assert_eq!(st.alternatives[0].ply, 0);
    assert_eq!(st.alternatives[0].moves, vec![bv("d2d4"), bv("g1f3")]);
    assert!(builder::builder_opponent_step(&mut st, Some(bv("e7e5"))));
    let resp2 = analysis::SolverResponse {
        solution_move: bv("g1f3"),
        alternative_moves: vec![],
        ambiguous: false,
        score: Score::Cp(150),
        post_cp: 150,
    };
    assert!(builder::builder_solver_step(&mut st, Some(resp2)));
    assert!(builder::builder_opponent_step(&mut st, Some(bv("b8c6"))));
    // The opponent's reply ends the collection; finalize pops it.
    let s = builder::builder_finalize(st).unwrap();
    assert_eq!(s.moves, vec![bv("e2e4"), bv("e7e5"), bv("g1f3")]);
    assert_eq!(s.moves.len() % 2, 1);
    assert_eq!(s.final_cp, 150);
    assert!(!s.is_mate);
}

#[test]
fn builder_stops_on_ambiguity_and_none() {
    let post = bv(STARTPOS);
    let mut st = builder::builder_new(&post, true, 0);
    let ambiguous = analysis::SolverResponse {
        solution_move: bv("e2e4"),
        alternative_moves: vec![],
        ambiguous: true,
        score: Score::Cp(0),
        post_cp: 0,
    };
    assert!(!builder::builder_solver_step(&mut st, Some(ambiguous)));
    assert!(st.finished);
    assert!(st.moves.is_empty());
    // Too few solver moves: no sequence.
    assert!(builder::builder_finalize(st).is_none());

    let mut st2 = builder::builder_new(&post, true, 0);
    assert!(!builder::builder_solver_step(&mut st2, None));
}

#[test]
fn classify_tactic_cascade() {
    assert_eq!(builder::classify_tactic(0, 0, true), builder::TacticalObjective::Mate);
    assert_eq!(builder::classify_tactic(-50, 200, false), builder::TacticalObjective::Reversal);
    assert_eq!(builder::classify_tactic(20, 200, false), builder::TacticalObjective::Advantage);
    assert_eq!(builder::classify_tactic(20, 150, false), builder::TacticalObjective::Advantage);
    assert_eq!(
        builder::classify_tactic(-200, 0, false),
        builder::TacticalObjective::Equalization
    );
    assert_eq!(
        builder::classify_tactic(-50, -30, false),
        builder::TacticalObjective::Resistance
    );
    assert_eq!(builder::classify_tactic(50, 50, false), builder::TacticalObjective::Tactical);
}

#[test]
fn classify_phase_bands() {
    // The standard opening position sits in the middle band of the
    // indicator.
    assert_eq!(builder::classify_phase(&bv(STARTPOS), 0), builder::GamePhase::Middlegame);
    // Bare kings early on: the endgame band.
    assert_eq!(
        builder::classify_phase(&bv("8/8/4k3/8/8/4K3/8/8 w - - 0 1"), 8),
        builder::GamePhase::Endgame
    );
    // A board dense with heavy material, late plies and full rights
    // reaches the opening band.
    let heavy = bv("QQQQQQQQ/QQQQQQQQ/QQQQQQQQ/QQQQQQQQ/8/4k3/8/4K3 w KQkq - 0 1");
    assert_eq!(builder::classify_phase(&heavy, 100), builder::GamePhase::Opening);
}
