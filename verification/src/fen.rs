//! Verified readers for the textual fields of a FEN position string.
//!
//! A FEN line is space-separated: piece placement, side to move,
//! castling rights, en-passant target, halfmove clock, fullmove number.
//! The pipeline reads only plain facts out of it — occupied squares,
//! side to move, material weight, castling rights — and all of that is
//! text arithmetic, done here in verified code.  Position semantics
//! (legality, move application) stay with the rules crate.

use vstd::prelude::*;
use crate::text::ascii_seq;
use crate::text::ascii_bytes;

verus! {

/// A chess side.
#[derive(Debug, Clone, Copy, PartialEq, Eq, Structural)]
pub enum Color {
    White,
    Black,
}

pub open spec fn is_alpha(b: u8) -> bool {
    (65 <= b && b <= 90) || (97 <= b && b <= 122)
}

/// Index of the first space byte at or after `i`, or the length.
pub open spec fn spec_space_from(s: Seq<u8>, i: int) -> int
    recommends
        0 <= i <= s.len(),
    decreases s.len() - i
        when 0 <= i <= s.len()
{
    if i >= s.len() {
        s.len() as int
    } else if s[i] == 32 {
        i
    } else {
        spec_space_from(s, i + 1)
    }
}

pub proof fn lemma_space_from(s: Seq<u8>, i: int)
    requires
        0 <= i <= s.len(),
    ensures
        i <= spec_space_from(s, i) <= s.len(),
    decreases s.len() - i,
{
    if i < s.len() && s[i] != 32 {
        lemma_space_from(s, i + 1);
    }
}

/// Finds the first space at or after `from`.
pub fn find_space(s: &Vec<u8>, from: usize) -> (r: usize)
    requires
        from <= s@.len(),
    ensures
        r as int == spec_space_from(s@, from as int),
        from <= r <= s@.len(),
{
    let mut i: usize = from;
    while i < s.len()
        invariant
            from <= i <= s@.len(),
            spec_space_from(s@, from as int) == spec_space_from(s@, i as int),
        decreases s@.len() - i,
    {
        if s[i] == 32 {
            return i;
        }
        i = i + 1;
    }
    i
}

/// The piece-placement field: everything before the first space.
pub open spec fn spec_board_field(s: Seq<u8>) -> Seq<u8> {
    s.take(spec_space_from(s, 0))
}

/// Letters in the placement field stand for pieces; digits are empty
/// runs and `/` separates ranks, so the letter count is the number of
/// occupied squares.
pub open spec fn spec_count_alpha(s: Seq<u8>) -> int
    decreases s.len(),
{
    if s.len() == 0 {
        0
    } else {
        spec_count_alpha(s.drop_last()) + (if is_alpha(s.last()) {
            1int
        } else {
            0int
        })
    }
}

pub open spec fn spec_occupied_count(s: Seq<u8>) -> int {
    spec_count_alpha(spec_board_field(s))
}

/// Counts the occupied squares of a FEN position.
pub fn occupied_count(fen: &Vec<u8>) -> (r: usize)
    ensures
        r as int == spec_occupied_count(fen@),
{
    let end = find_space(fen, 0);
    let ghost field = spec_board_field(fen@);
    let mut acc: usize = 0;
    let mut i: usize = 0;
    while i < end
        invariant
            0 <= i <= end,
            end as int == spec_space_from(fen@, 0),
            end <= fen@.len(),
            field == spec_board_field(fen@),
            acc as int == spec_count_alpha(field.take(i as int)),
            acc <= i,
        decreases end - i,
    {
        let b = fen[i];
        proof {
            assert(field.take(i as int + 1).drop_last() =~= field.take(i as int));
            assert(field.take(i as int + 1).last() == fen@[i as int]);
        }
        if (65 <= b && b <= 90) || (97 <= b && b <= 122) {
            acc = acc + 1;
        }
        i = i + 1;
    }
    proof {
        assert(field.take(end as int) =~= field);
    }
    acc
}

/// The side to move: the byte right after the first space.
pub open spec fn spec_side_to_move(s: Seq<u8>) -> Option<Color> {
    let i = spec_space_from(s, 0);
    if i + 1 < s.len() && s[i + 1] == 119 {
        Some(Color::White)
    } else if i + 1 < s.len() && s[i + 1] == 98 {
        Some(Color::Black)
    } else {
        None
    }
}

pub fn side_to_move(fen: &Vec<u8>) -> (r: Option<Color>)
    ensures
        r == spec_side_to_move(fen@),
{
    let i = find_space(fen, 0);
    if fen.len() - i > 1 {
        let b = fen[i + 1];
        if b == 119 {
            Some(Color::White)
        } else if b == 98 {
            Some(Color::Black)
        } else {
            None
        }
    } else {
        None
    }
}

/// Phase weight of one piece letter: minor pieces 1, rooks 2, queens 4;
/// pawns and kings 0.
pub open spec fn piece_weight(b: u8) -> int {
    if b == 78 || b == 110 || b == 66 || b == 98 {
        1
    } else if b == 82 || b == 114 {
        2
    } else if b == 81 || b == 113 {
        4
    } else {
        0
    }
}

pub open spec fn spec_weight_sum(s: Seq<u8>) -> int
    decreases s.len(),
{
    if s.len() == 0 {
        0
    } else {
        spec_weight_sum(s.drop_last()) + piece_weight(s.last())
    }
}

pub proof fn lemma_weight_sum_bound(s: Seq<u8>)
    ensures
        0 <= spec_weight_sum(s) <= 4 * s.len(),
    decreases s.len(),
{
    if s.len() > 0 {
        lemma_weight_sum_bound(s.drop_last());
    }
}

/// The weighted material remaining on the board of a FEN position.
pub fn material_weight(fen: &Vec<u8>) -> (r: u64)
    requires
        fen@.len() <= 1_000_000_000,
    ensures
        r as int == spec_weight_sum(spec_board_field(fen@)),
{
    let end = find_space(fen, 0);
    let ghost field = spec_board_field(fen@);
    let mut acc: u64 = 0;
    let mut i: usize = 0;
    while i < end
        invariant
            0 <= i <= end,
            end as int == spec_space_from(fen@, 0),
            end <= fen@.len(),
            fen@.len() <= 1_000_000_000,
            field == spec_board_field(fen@),
            acc as int == spec_weight_sum(field.take(i as int)),
            acc <= 4 * (i as u64),
        decreases end - i,
    {
        let b = fen[i];
        proof {
            assert(field.take(i as int + 1).drop_last() =~= field.take(i as int));
            assert(field.take(i as int + 1).last() == fen@[i as int]);
        }
        let w: u64 = if b == 78 || b == 110 || b == 66 || b == 98 {
            1
        } else if b == 82 || b == 114 {
            2
        } else if b == 81 || b == 113 {
            4
        } else {
            0
        };
        acc = acc + w;
        i = i + 1;
    }
    proof {
        assert(field.take(end as int) =~= field);
    }
    acc
}

/// The castling-rights count of a FEN position: the length of the third
/// field, zero for `-`, capped at four.
pub open spec fn spec_castling_rights(s: Seq<u8>) -> int {
    let i1 = spec_space_from(s, 0);
    if i1 >= s.len() {
        0
    } else {
        let i2 = spec_space_from(s, i1 + 1);
        if i2 >= s.len() {
            0
        } else {
            let i3 = spec_space_from(s, i2 + 1);
            let f = s.subrange(i2 + 1, i3);
            if f == seq![45u8] {
                0
            } else if f.len() >= 4 {
                4
            } else {
                f.len() as int
            }
        }
    }
}

pub fn castling_rights(fen: &Vec<u8>) -> (r: u64)
    ensures
        r as int == spec_castling_rights(fen@),
        r <= 4,
{
    let i1 = find_space(fen, 0);
    if i1 >= fen.len() {
        return 0;
    }
    let i2 = find_space(fen, i1 + 1);
    if i2 >= fen.len() {
        return 0;
    }
    let i3 = find_space(fen, i2 + 1);
    let ghost f = fen@.subrange(i2 as int + 1, i3 as int);
    proof {
        lemma_space_from(fen@, i2 as int + 1);
    }
    let flen = i3 - (i2 + 1);
    if flen == 1 && fen[i2 + 1] == 45 {
        proof {
            assert(f =~= seq![45u8]);
        }
        0
    } else {
        proof {
            if flen == 1 {
                assert(f[0] == fen@[i2 as int + 1]);
                assert(f != seq![45u8]);
            } else {
                assert(f.len() != 1);
                assert(f != seq![45u8]);
            }
        }
        if flen >= 4 {
            4
        } else {
            flen as u64
        }
    }
}

/// The FEN of the standard starting position.
pub fn startpos_fen() -> (r: Vec<u8>)
    ensures
        r@ == ascii_seq("rnbqkbnr/pppppppp/8/8/8/8/PPPPPPPP/RNBQKBNR w KQkq - 0 1"),
{
    proof {
        reveal_strlit("rnbqkbnr/pppppppp/8/8/8/8/PPPPPPPP/RNBQKBNR w KQkq - 0 1");
    }
    ascii_bytes("rnbqkbnr/pppppppp/8/8/8/8/PPPPPPPP/RNBQKBNR w KQkq - 0 1")
}

} // verus!
