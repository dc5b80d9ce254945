//! The wire protocol: tokenizing, number parsing, the info-line parser,
//! the search collector and the client's command text.

use puzzle_miner::client::EngineClient;
use puzzle_miner::client::ProtocolState;
use puzzle_miner::client::is_readyok_line;
use puzzle_miner::client::search_timeout_ms;
use puzzle_miner::score::Score;
use puzzle_miner::text;
use puzzle_miner::uci;

fn bv(s: &str) -> Vec<u8> {
    s.as_bytes().to_vec()
}

#[test]
fn decimal_formatting() {
    assert_eq!(text::u64_to_dec(0), bv("0"));
    assert_eq!(text::u64_to_dec(7), bv("7"));
    assert_eq!(text::u64_to_dec(1234), bv("1234"));
    assert_eq!(text::u64_to_dec(18_446_744_073_709_551_615), bv("18446744073709551615"));
}

#[test]
fn number_parsing() {
    assert_eq!(text::parse_u64(&bv("123")), Some(123));
    assert_eq!(text::parse_u64(&bv("")), None);
    assert_eq!(text::parse_u64(&bv("12a")), None);
    assert_eq!(text::parse_u64(&bv("18446744073709551616")), None);
    assert_eq!(text::parse_i32(&bv("-42")), Some(-42));
    assert_eq!(text::parse_i32(&bv("2147483647")), Some(2147483647));
    assert_eq!(text::parse_i32(&bv("2147483648")), None);
    assert_eq!(text::parse_i64(&bv("-9223372036854775808")), Some(i64::MIN));
}

#[test]
fn tokenizing() {
    let toks = text::tokenize(&bv("  info  depth 12 \r\n"));
    assert_eq!(toks, vec![bv("info"), bv("depth"), bv("12")]);
    assert_eq!(text::tokenize(&bv("")).len(), 0);
    assert_eq!(text::tokenize(&bv("   ")).len(), 0);
}

#[test]
fn info_line_full() {
    let line = bv("info depth 18 seldepth 24 multipv 2 score cp -35 nodes 5123 pv e2e4 e7e5");
    let u = uci::parse_info_line(&line).unwrap();
    assert_eq!(u.depth, Some(18));
    assert_eq!(u.multipv, 2);
    assert_eq!(u.score, Score::Cp(-35));
    assert_eq!(u.pv, vec![bv("e2e4"), bv("e7e5")]);
}

#[test]
fn info_line_mate() {
    let line = bv("info depth 5 score mate 3 pv h5f7");
    let u = uci::parse_info_line(&line).unwrap();
    assert_eq!(u.score, Score::Mate(3));
    assert_eq!(u.pv, vec![bv("h5f7")]);
}

#[test]
fn info_line_rejects() {
    // No score token: no update.
    assert!(uci::parse_info_line(&bv("info depth 9 pv e2e4")).is_none());
    // Not an info line at all.
    assert!(uci::parse_info_line(&bv("bestmove e2e4")).is_none());
    assert!(uci::parse_info_line(&bv("")).is_none());
}

#[test]
fn bestmove_lines() {
    assert_eq!(uci::bestmove_of(&bv("bestmove e2e4 ponder e7e5")), Some(bv("e2e4")));
    assert_eq!(uci::bestmove_of(&bv("bestmove (none)")), None);
    assert_eq!(uci::bestmove_of(&bv("info depth 1")), None);
    assert!(uci::is_bestmove_line(&bv("bestmove e2e4")));
    assert!(!uci::is_bestmove_line(&bv("info string hello")));
}

#[test]
fn search_collects_last_full_update_per_variation() {
    let mut st = uci::search_new(2);
    // An early, shallower update for variation 1.
    uci::search_step(&mut st, &bv("info depth 5 multipv 1 score cp 10 pv e2e4"));
    // A later update overwrites it.
    uci::search_step(&mut st, &bv("info depth 12 multipv 1 score cp 31 pv d2d4 d7d5"));
    // Variation 2.
    uci::search_step(&mut st, &bv("info depth 12 multipv 2 score cp -8 pv g1f3"));
    // An update without a variation list is ignored.
    uci::search_step(&mut st, &bv("info depth 12 multipv 3 score cp 99 pv a2a3"));
    // Chatter is ignored.
    uci::search_step(&mut st, &bv("info string using all threads"));
    assert!(!st.done);
    uci::search_step(&mut st, &bv("bestmove d2d4"));
    assert!(st.done);

    // White to move: the raw scores are already White-relative.
    let lines = uci::finish_search(st, true);
    assert_eq!(lines.len(), 2);
    assert_eq!(lines[0].score, Score::Cp(31));
    assert_eq!(lines[0].depth, 12);
    assert_eq!(lines[0].multipv, 1);
    assert_eq!(lines[0].pv, vec![bv("d2d4"), bv("d7d5")]);
    assert_eq!(lines[1].score, Score::Cp(-8));
    assert!(matches!(lines[0].origin, uci::AnalysisOrigin::Engine));
}

#[test]
fn finish_search_standardizes_for_black() {
    let mut st = uci::search_new(2);
    // Black to move reports +50 for itself; White-relative that is -50.
    uci::search_step(&mut st, &bv("info depth 10 multipv 1 score cp 50 pv e7e5"));
    uci::search_step(&mut st, &bv("info depth 10 multipv 2 score mate 2 pv d8h4"));
    let lines = uci::finish_search(st, false);
    assert_eq!(lines.len(), 2);
    // Best for the side to move (Black) first: its mate beats 50 cp.
    assert_eq!(lines[0].score, Score::Mate(-2));
    assert_eq!(lines[1].score, Score::Cp(-50));
}

#[test]
fn client_handshake_commands() {
    let mut c = EngineClient::new_client();
    assert!(matches!(c.state, ProtocolState::Spawned));
    let init = c.begin_init();
    assert_eq!(init, vec![bv("uci"), bv("isready")]);
    assert!(!c.on_wait_line(&bv("id name analyzer")));
    assert!(c.on_wait_line(&bv("readyok")));
    let conf = c.configure();
    assert_eq!(
        conf,
        vec![
            bv("setoption name Threads value 4"),
            bv("setoption name Hash value 1024"),
            bv("isready"),
        ]
    );
    assert!(c.on_wait_line(&bv("readyok")));
    assert!(matches!(c.state, ProtocolState::Ready));
}

#[test]
fn client_position_tracking() {
    let mut c = EngineClient::new_client();
    c.begin_init();
    c.on_wait_line(&bv("readyok"));
    c.configure();
    c.on_wait_line(&bv("readyok"));
    c.push_move(&bv("e2e4"));
    assert_eq!(c.position_cmd, bv("position startpos moves e2e4"));
    c.push_move(&bv("e7e5"));
    assert_eq!(c.position_cmd, bv("position startpos moves e2e4 e7e5"));
    let (opt, pos, go) = c.begin_search(16, 3);
    assert_eq!(opt, Some(bv("setoption name MultiPV value 3")));
    assert_eq!(pos, Some(bv("position startpos moves e2e4 e7e5")));
    assert_eq!(go, bv("go depth 16 multipv 3"));
    assert!(matches!(c.state, ProtocolState::Searching));
    c.end_search();
    // Unchanged option and synced position: only the search command.
    let (opt2, pos2, go2) = c.begin_search(16, 3);
    assert_eq!(opt2, None);
    assert_eq!(pos2, None);
    assert_eq!(go2, bv("go depth 16 multipv 3"));
}

#[test]
fn client_fen_submission_and_quit() {
    let mut c = EngineClient::new_client();
    c.set_position_fen(&bv("8/8/4k3/8/8/4K3/8/8 w - - 0 1"));
    assert_eq!(c.position_cmd, bv("position fen 8/8/4k3/8/8/4K3/8/8 w - - 0 1"));
    assert_eq!(c.quit(), bv("quit"));
    assert!(matches!(c.state, ProtocolState::Quitting));
}

#[test]
fn readiness_and_timeouts() {
    assert!(is_readyok_line(&bv("readyok")));
    assert!(is_readyok_line(&bv("  readyok \r")));
    assert!(!is_readyok_line(&bv("readyok now")));
    assert_eq!(search_timeout_ms(16), 160_000);
}
