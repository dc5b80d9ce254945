//! The record text: header round trips, the numbered mainline, the
//! alternatives, record assembly, and the run-level helpers.

use puzzle_miner::builder;
use puzzle_miner::candidates::PuzzleCandidate;
use puzzle_miner::fen::Color;
use puzzle_miner::pgn;
use puzzle_miner::pipeline;
use puzzle_miner::stats::PuzzleStatistics;

fn bv(s: &str) -> Vec<u8> {
    s.as_bytes().to_vec()
}

const STARTPOS: &str = "rnbqkbnr/pppppppp/8/8/8/8/PPPPPPPP/RNBQKBNR w KQkq - 0 1";

#[test]
fn header_block_round_trip() {
    let entries = vec![
        (bv("Event"), bv("Club championship 2019")),
        (bv("Site"), bv("?")),
        (bv("Result"), bv("1-0")),
    ];
    let block = pgn::format_headers(&entries);
    assert_eq!(
        block,
        bv("[Event \"Club championship 2019\"]\n[Site \"?\"]\n[Result \"1-0\"]\n")
    );
    // Text record -> parse headers -> re-serialize: the same block.
    let parsed = pgn::parse_headers(&block);
    assert_eq!(parsed, entries);
    assert_eq!(pgn::format_headers(&parsed), block);
}

#[test]
fn header_parse_stops_at_movetext() {
    let mut text = pgn::format_headers(&vec![(bv("White"), bv("A")), (bv("Black"), bv("B"))]);
    text.extend_from_slice(b"\n1. e4 e5");
    let parsed = pgn::parse_headers(&text);
    assert_eq!(parsed, vec![(bv("White"), bv("A")), (bv("Black"), bv("B"))]);
}

#[test]
fn header_line_parse_rejects_malformed() {
    assert!(pgn::parse_header_line(&bv("[Event \"x\"]")).is_some());
    assert!(pgn::parse_header_line(&bv("Event \"x\"]")).is_none());
    assert!(pgn::parse_header_line(&bv("[Event x]")).is_none());
    assert!(pgn::parse_header_line(&bv("[ \"x\"]")).is_none());
}

fn record_of(fen_value: &str, moves: &[&str], alts: Vec<builder::AltLine>) -> Vec<u8> {
    let mut map: indexmap::IndexMap<Vec<u8>, Vec<u8>> = indexmap::IndexMap::new();
    map.insert(bv("FEN"), bv(fen_value));
    let seq = builder::PuzzleSeq {
        moves: moves.iter().map(|m| bv(m)).collect(),
        alternatives: alts,
        final_cp: 0,
        is_mate: false,
    };
    pgn::build_pgn_san(&map, &seq).unwrap()
}

#[test]
fn record_mainline_numbering_white() {
    let rec = record_of(STARTPOS, &["e2e4", "e7e5", "g1f3"], vec![]);
    let expected = format!("[FEN \"{}\"]\n\n1. e4 e5 2. Nf3", STARTPOS);
    assert_eq!(rec, expected.into_bytes());
}

#[test]
fn record_first_marker_black() {
    // Starting side Black to move: the first marker is `1...`.
    let black_fen = "rnbqkbnr/pppppppp/8/8/4P3/8/PPPP1PPP/RNBQKBNR b KQkq - 0 1";
    let rec = record_of(black_fen, &["e7e5", "g1f3", "b8c6"], vec![]);
    let expected = format!("[FEN \"{}\"]\n\n1... e5 2. Nf3 Nc6", black_fen);
    assert_eq!(rec, expected.into_bytes());
}

#[test]
fn record_alternatives_branch_at_their_ply() {
    let alts = vec![builder::AltLine { ply: 0, moves: vec![bv("d2d4"), bv("g1f3")] }];
    let rec = record_of(STARTPOS, &["e2e4", "e7e5", "f1c4"], alts);
    let expected = format!("[FEN \"{}\"]\n\n1. e4 e5 2. Bc4 (d4 Nf3)", STARTPOS);
    assert_eq!(rec, expected.into_bytes());
}

#[test]
fn record_rejects_inapplicable_moves() {
    let mut map: indexmap::IndexMap<Vec<u8>, Vec<u8>> = indexmap::IndexMap::new();
    map.insert(bv("FEN"), bv(STARTPOS));
    let seq = builder::PuzzleSeq {
        moves: vec![bv("e2e5")],
        alternatives: vec![],
        final_cp: 0,
        is_mate: false,
    };
    assert!(pgn::build_pgn_san(&map, &seq).is_none());
}

#[test]
fn export_appends_blank_line() {
    let out = pgn::export_puzzle(&bv("[A \"b\"]\n\n1. e4"));
    assert_eq!(out, bv("[A \"b\"]\n\n1. e4\n\n"));
}

fn sample_candidate() -> PuzzleCandidate {
    PuzzleCandidate {
        board_pre_blunder: bv(STARTPOS),
        board_post_blunder: bv("rnbqkbnr/pppppppp/8/8/4P3/8/PPPP1PPP/RNBQKBNR b KQkq - 0 1"),
        blunder_move: bv("e2e4"),
        solver_color: Color::Black,
        pre_cp: 0,
        post_cp: -200,
        move_number: 1,
    }
}

#[test]
fn process_puzzle_assembles_headers_and_moves() {
    let cand = sample_candidate();
    let seq = builder::PuzzleSeq {
        moves: vec![bv("e7e5"), bv("g1f3"), bv("b8c6")],
        alternatives: vec![builder::AltLine { ply: 0, moves: vec![bv("d7d5")] }],
        final_cp: -250,
        is_mate: false,
    };
    let headers = vec![(bv("Event"), bv("T")), (bv("White"), bv("A"))];
    let rec = builder::process_puzzle(&cand, &seq, &headers).unwrap();
    let expected = format!(
        "[Event \"T\"]\n[White \"A\"]\n[Phase \"Middlegame\"]\n[Tactical \"Resistance\"]\n[SetUp \"1\"]\n[FEN \"{}\"]\n\n1. e4 e5 2. Nf3 Nc6 (d5)",
        STARTPOS
    );
    assert_eq!(rec, expected.into_bytes());
}

#[test]
fn process_puzzle_is_deterministic() {
    // The same candidate and sequence give byte-identical records.
    let cand = sample_candidate();
    let seq = builder::PuzzleSeq {
        moves: vec![bv("e7e5"), bv("g1f3"), bv("b8c6")],
        alternatives: vec![],
        final_cp: -250,
        is_mate: false,
    };
    let headers = vec![(bv("Event"), bv("T"))];
    let a = builder::process_puzzle(&cand, &seq, &headers).unwrap();
    let b = builder::process_puzzle(&cand, &seq, &headers).unwrap();
    assert_eq!(a, b);
}

#[test]
fn header_map_keeps_insertion_order_on_reinsert() {
    // Re-inserting a key keeps its place and replaces its value.
    let mut map: indexmap::IndexMap<Vec<u8>, Vec<u8>> = indexmap::IndexMap::new();
    map.insert(bv("Event"), bv("old"));
    map.insert(bv("Site"), bv("?"));
    map.insert(bv("Event"), bv("new"));
    let seq = builder::PuzzleSeq {
        moves: vec![],
        alternatives: vec![],
        final_cp: 0,
        is_mate: false,
    };
    // Without a FEN header the record starts from the standard
    // position; with no moves the text is just the trimmed block.
    let rec = pgn::build_pgn_san(&map, &seq).unwrap();
    assert_eq!(rec, bv("[Event \"new\"]\n[Site \"?\"]"));
}

#[test]
fn statistics_counters() {
    let mut st = PuzzleStatistics::new();
    st.increment_games(3);
    st.add_found(2);
    st.add_rejected(&bv("ambiguous"), 1);
    st.add_rejected(&bv("ambiguous"), 1);
    st.add_rejected(&bv("too-short"), 1);
    st.update_objective(&bv("Mate"), 1);
    st.update_phase(&bv("Endgame"), 4);
    st.add_elapsed(90);
    assert_eq!(st.total_games, 3);
    assert_eq!(st.puzzles_found, 2);
    assert_eq!(st.puzzles_rejected, 3);
    assert_eq!(st.rejection_reasons, vec![(bv("ambiguous"), 2), (bv("too-short"), 1)]);
    assert_eq!(st.objective_stats, vec![(bv("Mate"), 1)]);
    assert_eq!(st.phase_stats, vec![(bv("Endgame"), 4)]);
    assert_eq!(st.get_elapsed_time(), 90);
}

#[test]
fn depth_calculation() {
    let d = pipeline::calculate_depths(16);
    assert_eq!(d.scan, 16);
    assert_eq!(d.solve, 19);
    let d0 = pipeline::calculate_depths(0);
    assert_eq!(d0.scan, 1);
    assert_eq!(d0.solve, 1);
    let dmax = pipeline::calculate_depths(255);
    assert_eq!(dmax.scan, 255);
    assert_eq!(dmax.solve, 255);
    let d5 = pipeline::calculate_depths(5);
    assert_eq!(d5.solve, 6);
}

#[test]
fn skipping_processed_games() {
    let items = vec![10, 20, 30, 40];
    assert_eq!(pipeline::skip_processed_games(items.clone(), 2), vec![30, 40]);
    assert_eq!(pipeline::skip_processed_games(items.clone(), 0), items);
    assert_eq!(pipeline::skip_processed_games(items, 9), Vec::<i32>::new());
}

#[test]
fn generate_result_total() {
    let r = pipeline::GenerateResult { puzzles: 7 };
    assert_eq!(r.total(), 7);
}

#[test]
fn phase_two_pipeline_from_wire_lines() {
    // From raw search output to a finished record, with a Black solver.
    let cand = sample_candidate();

    // Black to move after the blunder: raw scores are Black-relative.
    let mut st = puzzle_miner::uci::search_new(2);
    puzzle_miner::uci::search_step(
        &mut st,
        &bv("info depth 12 multipv 1 score cp 300 pv e7e5 g1f3"),
    );
    puzzle_miner::uci::search_step(
        &mut st,
        &bv("info depth 12 multipv 2 score cp -100 pv a7a6"),
    );
    puzzle_miner::uci::search_step(&mut st, &bv("bestmove e7e5"));
    let lines = puzzle_miner::uci::finish_search(st, false);
    assert_eq!(lines[0].score, puzzle_miner::score::Score::Cp(-300));

    let mut b = builder::builder_new(&cand.board_post_blunder, false, cand.pre_cp);
    let resp = puzzle_miner::analysis::solver_response(lines, false).unwrap();
    assert_eq!(resp.solution_move, bv("e7e5"));
    assert!(!resp.ambiguous);
    assert!(builder::builder_solver_step(&mut b, Some(resp)));

    // White replies; its single line names the best move.
    let mut st2 = puzzle_miner::uci::search_new(1);
    puzzle_miner::uci::search_step(
        &mut st2,
        &bv("info depth 12 multipv 1 score cp -280 pv g1f3 b8c6"),
    );
    puzzle_miner::uci::search_step(&mut st2, &bv("bestmove g1f3"));
    let white_lines = puzzle_miner::uci::finish_search(st2, true);
    let reply = puzzle_miner::uci::first_move_of_best(&white_lines);
    assert_eq!(reply, Some(bv("g1f3")));
    assert!(builder::builder_opponent_step(&mut b, reply));

    // The solver's second move ends the line.
    let mut st3 = puzzle_miner::uci::search_new(1);
    puzzle_miner::uci::search_step(
        &mut st3,
        &bv("info depth 12 multipv 1 score cp 350 pv b8c6"),
    );
    puzzle_miner::uci::search_step(&mut st3, &bv("bestmove b8c6"));
    let black_lines = puzzle_miner::uci::finish_search(st3, false);
    let resp2 = puzzle_miner::analysis::solver_response(black_lines, false).unwrap();
    assert!(builder::builder_solver_step(&mut b, Some(resp2)));

    let seq = builder::builder_finalize(b).unwrap();
    assert_eq!(seq.moves, vec![bv("e7e5"), bv("g1f3"), bv("b8c6")]);
    assert_eq!(seq.final_cp, -350);

    let rec = builder::process_puzzle(&cand, &seq, &vec![(bv("Event"), bv("T"))]).unwrap();
    let expected = format!(
        "[Event \"T\"]\n[Phase \"Middlegame\"]\n[Tactical \"Resistance\"]\n[SetUp \"1\"]\n[FEN \"{}\"]\n\n1. e4 e5 2. Nf3 Nc6",
        STARTPOS
    );
    assert_eq!(rec, expected.into_bytes());
}
