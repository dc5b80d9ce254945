//! Trusted bridge to the chess-rules crate.
//!
//! Positions cross this boundary as FEN byte strings and moves as UCI
//! byte strings, so that everything on the verified side is plain data.
//! Each outside result is given a name: the names are functions of the
//! byte strings alone, since the underlying move generation is
//! deterministic.

use shakmaty::Position;
use vstd::prelude::*;

verus! {

/// The FEN of the position reached by playing a UCI move on a FEN
/// position; nothing when the FEN does not parse or the move is not
/// legal there.
pub uninterp spec fn fen_after_uci(fen: Seq<u8>, uci: Seq<u8>) -> Option<Seq<u8>>;

/// The short algebraic rendering of a UCI move on a FEN position;
/// nothing when the FEN does not parse or the move is not legal there.
pub uninterp spec fn san_of_uci(fen: Seq<u8>, uci: Seq<u8>) -> Option<Seq<u8>>;

/// The number of legal moves of a FEN position; nothing when the FEN
/// does not parse.
pub uninterp spec fn legal_count_of(fen: Seq<u8>) -> Option<int>;

/// Relies on shakmaty's `Fen::from_ascii`, `Fen::into_position`,
/// `UciMove::from_ascii`, `UciMove::to_move`, `Position::play_unchecked`
/// and `Fen::from_position`: parsing, legality checking and move
/// application are deterministic in the two byte strings.
#[verifier::external_body]
pub(crate) fn apply_uci_move(fen: &Vec<u8>, uci: &Vec<u8>) -> (r: Option<Vec<u8>>)
    ensures
        r is Some <==> fen_after_uci(fen@, uci@) is Some,
        r matches Some(f2) ==> fen_after_uci(fen@, uci@) == Some(f2@),
{
    let f = shakmaty::fen::Fen::from_ascii(fen).ok()?;
    let mut pos: shakmaty::Chess = f.into_position(shakmaty::CastlingMode::Standard).ok()?;
    let m = shakmaty::uci::UciMove::from_ascii(uci).ok()?.to_move(&pos).ok()?;
    pos.play_unchecked(m);
    let out = shakmaty::fen::Fen::from_position(&pos, shakmaty::EnPassantMode::Legal);
    Some(out.to_string().into_bytes())
}

/// Relies on shakmaty's `San::from_move`: the short algebraic notation
/// of a legal move, with disambiguation resolved from the position.
#[verifier::external_body]
pub(crate) fn san_for_uci_move(fen: &Vec<u8>, uci: &Vec<u8>) -> (r: Option<Vec<u8>>)
    ensures
        r is Some <==> san_of_uci(fen@, uci@) is Some,
        r matches Some(t) ==> san_of_uci(fen@, uci@) == Some(t@),
{
    let f = shakmaty::fen::Fen::from_ascii(fen).ok()?;
    let pos: shakmaty::Chess = f.into_position(shakmaty::CastlingMode::Standard).ok()?;
    let m = shakmaty::uci::UciMove::from_ascii(uci).ok()?.to_move(&pos).ok()?;
    Some(shakmaty::san::San::from_move(&pos, m).to_string().into_bytes())
}

/// Relies on shakmaty's `Position::legal_moves`: the number of legal
/// moves of the parsed position.
#[verifier::external_body]
pub(crate) fn legal_move_count(fen: &Vec<u8>) -> (r: Option<usize>)
    ensures
        r is Some <==> legal_count_of(fen@) is Some,
        r matches Some(n) ==> legal_count_of(fen@) == Some(n as int),
{
    let f = shakmaty::fen::Fen::from_ascii(fen).ok()?;
    let pos: shakmaty::Chess = f.into_position(shakmaty::CastlingMode::Standard).ok()?;
    Some(pos.legal_moves().len())
}

} // verus!
