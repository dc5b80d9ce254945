//! The score algebra on concrete values: the key injection, the
//! centipawn projection, standardization, and manually ranked vectors.

use puzzle_miner::score::Score;

#[test]
fn key_exact_values() {
    assert_eq!(Score::Cp(150).key(), 150);
    assert_eq!(Score::Cp(-37).key(), -37);
    assert_eq!(Score::Mate(3).key(), 1_999_997);
    assert_eq!(Score::Mate(0).key(), 2_000_000);
    assert_eq!(Score::Mate(-3).key(), -1_999_997);
}

#[test]
fn mate_chain_ordering() {
    // MateIn(1) > MateIn(5) > Centipawns(v) > MateIn(-5) > MateIn(-1).
    let v = 731;
    assert!(Score::Mate(1).key() > Score::Mate(5).key());
    assert!(Score::Mate(5).key() > Score::Cp(v).key());
    assert!(Score::Cp(v).key() > Score::Mate(-5).key());
    assert!(Score::Mate(-5).key() > Score::Mate(-1).key());
}

#[test]
fn ranked_vectors_match_key_order() {
    // Manually ranked best-to-worst for White; key must descend.
    let ranked = vec![
        Score::Mate(1),
        Score::Mate(2),
        Score::Mate(9),
        Score::Cp(900),
        Score::Cp(150),
        Score::Cp(0),
        Score::Cp(-150),
        Score::Cp(-900),
        Score::Mate(-9),
        Score::Mate(-2),
        Score::Mate(-1),
    ];
    for w in ranked.windows(2) {
        assert!(w[0].key() > w[1].key());
    }
}

#[test]
fn solver_key_flips_for_white() {
    let a = Score::Cp(40);
    let b = Score::Cp(-40);
    // Ascending solver key puts the best line for the solver first.
    assert!(a.solver_key(true) < b.solver_key(true));
    assert!(b.solver_key(false) < a.solver_key(false));
}

#[test]
fn to_cp_projection() {
    assert_eq!(Score::Cp(250).to_cp(), 250);
    assert_eq!(Score::Mate(2).to_cp(), 99_998);
    assert_eq!(Score::Mate(-2).to_cp(), -99_998);
    // The projection of a mate in zero sits at the positive sentinel.
    assert_eq!(Score::Mate(0).to_cp(), 100_000);
}

#[test]
fn standardize_flips_for_black() {
    assert_eq!(Score::Cp(50).standardize(true), Score::Cp(50));
    assert_eq!(Score::Cp(50).standardize(false), Score::Cp(-50));
    assert_eq!(Score::Mate(3).standardize(false), Score::Mate(-3));
    assert_eq!(Score::Mate(-4).standardize(false), Score::Mate(4));
}

#[test]
fn key_diff_is_absolute() {
    assert_eq!(puzzle_miner::score::key_diff(&Score::Cp(100), &Score::Cp(-30)), 130);
    assert_eq!(puzzle_miner::score::key_diff(&Score::Cp(-30), &Score::Cp(100)), 130);
    assert_eq!(puzzle_miner::score::key_diff(&Score::Mate(1), &Score::Mate(3)), 2);
}
