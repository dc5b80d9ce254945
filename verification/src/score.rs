//! Score algebra: a total order over centipawn and mate evaluations.
//!
//! A `Score` is either a centipawn value or a distance to mate, both taken
//! from White's perspective once standardized.  The `key` injection into the
//! integers is the single source of truth for ordering: closer mates beat
//! farther mates, any favorable mate beats any centipawn value, and being
//! mated later beats being mated sooner.

use vstd::prelude::*;

verus! {

/// Sentinel added to mate distances by `key`; strictly exceeds every
/// centipawn magnitude the pipeline accepts as in range.
pub const MATE_OFFSET: i64 = 2_000_000;

/// Centipawn stand-in used by `to_cp` when a mate distance must be
/// projected onto the centipawn axis.
pub const MATE_CP_PROJECTION: i32 = 100_000;

/// Centipawn magnitudes at or above this are out of range for the order
/// laws; real engine evaluations stay far below it.
pub const CP_MAGNITUDE_BOUND: i32 = 1_000_000;

/// Mate distances beyond this are out of range for the order laws.
pub const MATE_PLY_BOUND: i32 = 100_000;

/// A position evaluation: centipawns, or plies until forced mate
/// (positive = mating, negative = being mated).
#[derive(Debug, Clone, Copy, PartialEq, Eq, Structural)]
pub enum Score {
    Cp(i32),
    Mate(i32),
}

/// The key injection: `Cp(v)` maps to `v`; a favorable mate in `m` maps just
/// below `MATE_OFFSET`, an unfavorable mate just above `-MATE_OFFSET`.
pub open spec fn spec_key(s: Score) -> int {
    match s {
        Score::Cp(v) => v as int,
        Score::Mate(m) => if m >= 0 { MATE_OFFSET - m } else { -MATE_OFFSET - m },
    }
}

pub open spec fn spec_is_mate(s: Score) -> bool {
    s matches Score::Mate(_)
}

/// Lossy projection onto the centipawn axis; mates collapse to a band
/// around `MATE_CP_PROJECTION`.
pub open spec fn spec_to_cp(s: Score) -> int {
    match s {
        Score::Cp(v) => v as int,
        Score::Mate(m) => if m >= 0 {
            MATE_CP_PROJECTION - m
        } else {
            -MATE_CP_PROJECTION - m
        },
    }
}

/// Negation, used to turn a side-to-move-relative score into a
/// White-relative one when Black is to move.
pub open spec fn spec_negate(s: Score) -> Score {
    match s {
        Score::Cp(v) => Score::Cp((-v) as i32),
        Score::Mate(m) => Score::Mate((-m) as i32),
    }
}

/// Standardization: a raw score reported from the side to move's
/// perspective, turned into a White-relative score.
pub open spec fn spec_standardize(raw: Score, white_to_move: bool) -> Score {
    if white_to_move {
        raw
    } else {
        spec_negate(raw)
    }
}

/// Scores whose magnitudes the order laws cover.
pub open spec fn score_in_range(s: Score) -> bool {
    match s {
        Score::Cp(v) => -CP_MAGNITUDE_BOUND < v < CP_MAGNITUDE_BOUND,
        Score::Mate(m) => -MATE_PLY_BOUND <= m <= MATE_PLY_BOUND,
    }
}

/// The intuitive strict order from White's point of view, written out by
/// cases rather than through `key`: a favorable mate beats everything, a
/// closer favorable mate beats a farther one, centipawns compare by value
/// and beat every unfavorable mate, and among unfavorable mates the more
/// distant one is better.
pub open spec fn better_for_white(a: Score, b: Score) -> bool {
    match (a, b) {
        (Score::Mate(x), Score::Mate(y)) => if x >= 0 && y >= 0 {
            x < y
        } else if x >= 0 {
            true
        } else if y >= 0 {
            false
        } else {
            x < y
        },
        (Score::Mate(x), Score::Cp(_)) => x >= 0,
        (Score::Cp(_), Score::Mate(y)) => y < 0,
        (Score::Cp(u), Score::Cp(v)) => u > v,
    }
}

/// The key a solver sorts ascending by: for a White solver smaller key is
/// worse for Black's replies, so the sign flips.
pub open spec fn spec_solver_key(s: Score, solver_white: bool) -> int {
    if solver_white {
        -spec_key(s)
    } else {
        spec_key(s)
    }
}

impl Score {
    pub fn key(&self) -> (r: i64)
        ensures
            r == spec_key(*self),
    {
        match self {
            Score::Cp(v) => *v as i64,
            Score::Mate(m) => if *m >= 0 {
                MATE_OFFSET - (*m as i64)
            } else {
                -MATE_OFFSET - (*m as i64)
            },
        }
    }

    pub fn is_mate(&self) -> (r: bool)
        ensures
            r == spec_is_mate(*self),
    {
        match self {
            Score::Mate(_) => true,
            Score::Cp(_) => false,
        }
    }

    pub fn to_cp(&self) -> (r: i32)
        requires
            self matches Score::Mate(m) ==> m > i32::MIN,
        ensures
            r == spec_to_cp(*self),
    {
        match self {
            Score::Cp(v) => *v,
            Score::Mate(m) => if *m >= 0 {
                MATE_CP_PROJECTION - *m
            } else {
                -MATE_CP_PROJECTION - *m
            },
        }
    }

    pub fn negate(&self) -> (r: Score)
        requires
            self matches Score::Cp(v) ==> v > i32::MIN,
            self matches Score::Mate(m) ==> m > i32::MIN,
        ensures
            r == spec_negate(*self),
    {
        match self {
            Score::Cp(v) => Score::Cp(-*v),
            Score::Mate(m) => Score::Mate(-*m),
        }
    }

    pub fn standardize(&self, white_to_move: bool) -> (r: Score)
        requires
            self matches Score::Cp(v) ==> v > i32::MIN,
            self matches Score::Mate(m) ==> m > i32::MIN,
        ensures
            r == spec_standardize(*self, white_to_move),
    {
        if white_to_move {
            *self
        } else {
            self.negate()
        }
    }

    pub fn solver_key(&self, solver_white: bool) -> (r: i64)
        ensures
            r == spec_solver_key(*self, solver_white),
    {
        if solver_white {
            -self.key()
        } else {
            self.key()
        }
    }
}

/// Absolute distance between two keys.
pub open spec fn spec_key_diff(a: Score, b: Score) -> int {
    if spec_key(a) >= spec_key(b) {
        spec_key(a) - spec_key(b)
    } else {
        spec_key(b) - spec_key(a)
    }
}

pub fn key_diff(a: &Score, b: &Score) -> (r: i64)
    ensures
        r == spec_key_diff(*a, *b),
{
    let ka = a.key();
    let kb = b.key();
    if ka >= kb {
        ka - kb
    } else {
        kb - ka
    }
}

/// `key` is order-preserving: for every pair of in-range scores, the one
/// the intuitive order prefers for White is exactly the one with the
/// greater key, and the one it prefers for Black (the mirrored pair) is
/// exactly the one with the smaller key.
pub proof fn lemma_key_order_preserving(a: Score, b: Score)
    requires
        score_in_range(a),
        score_in_range(b),
    ensures
        better_for_white(a, b) <==> spec_key(a) > spec_key(b),
        better_for_white(b, a) <==> spec_key(b) > spec_key(a),
        better_for_white(a, b) <==> spec_solver_key(a, false) > spec_solver_key(b, false),
        better_for_white(a, b) <==> spec_solver_key(a, true) < spec_solver_key(b, true),
{
}

/// The canonical chain: `Mate(1) > Mate(5) > Cp(v) > Mate(-5) > Mate(-1)`
/// under `key`, for every in-range centipawn value `v`.
pub proof fn lemma_mate_ordering_chain(v: i32)
    requires
        -CP_MAGNITUDE_BOUND < v < CP_MAGNITUDE_BOUND,
    ensures
        spec_key(Score::Mate(1i32)) > spec_key(Score::Mate(5i32)),
        spec_key(Score::Mate(5i32)) > spec_key(Score::Cp(v)),
        spec_key(Score::Cp(v)) > spec_key(Score::Mate(-5i32)),
        spec_key(Score::Mate(-5i32)) > spec_key(Score::Mate(-1i32)),
{
}

} // verus!
