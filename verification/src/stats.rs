//! Run statistics: counters over games, found and rejected puzzles,
//! and named tallies per tactical objective, game phase and rejection
//! reason.
//!
//! The named tallies are association lists keyed by byte strings, each
//! key held once; bumping a key raises its count, saturating instead of
//! overflowing, and a fresh key is appended.

use vstd::prelude::*;
use crate::text::bytes_eq;
use crate::text::copy_bytes;

verus! {

pub open spec fn spec_sat_add(a: u64, b: u64) -> u64 {
    if a + b > u64::MAX {
        u64::MAX
    } else {
        (a + b) as u64
    }
}

pub fn sat_add(a: u64, b: u64) -> (r: u64)
    ensures
        r == spec_sat_add(a, b),
{
    if a <= u64::MAX - b {
        a + b
    } else {
        u64::MAX
    }
}

/// The first position of a key in a tally list, or a negative number.
pub open spec fn spec_count_pos(s: Seq<(Vec<u8>, u64)>, k: Seq<u8>) -> int
    decreases s.len(),
{
    if s.len() == 0 {
        -1
    } else if s[0].0@ == k {
        0
    } else {
        let r = spec_count_pos(s.skip(1), k);
        if r < 0 {
            -1
        } else {
            r + 1
        }
    }
}

/// The tally of a key, or nothing when the key is absent.
pub open spec fn spec_count_of(s: Seq<(Vec<u8>, u64)>, k: Seq<u8>) -> Option<u64> {
    let i = spec_count_pos(s, k);
    if i < 0 {
        None
    } else {
        Some(s[i].1)
    }
}

proof fn lemma_count_pos_range(s: Seq<(Vec<u8>, u64)>, k: Seq<u8>)
    ensures
        -1 <= spec_count_pos(s, k) < s.len(),
        spec_count_pos(s, k) >= 0 ==> s[spec_count_pos(s, k)].0@ == k,
        spec_count_pos(s, k) < 0 ==> forall|j: int|
            0 <= j < s.len() ==> (#[trigger] s[j]).0@ != k,
    decreases s.len(),
{
    if s.len() > 0 && s[0].0@ != k {
        lemma_count_pos_range(s.skip(1), k);
        assert forall|j: int|
            spec_count_pos(s, k) < 0 && 0 <= j < s.len() implies (#[trigger] s[j]).0@ != k by {
            if j > 0 {
                assert(s.skip(1)[j - 1] == s[j]);
            }
        }
        if spec_count_pos(s.skip(1), k) >= 0 {
            assert(s.skip(1)[spec_count_pos(s.skip(1), k)] == s[spec_count_pos(s, k)]);
        }
    }
}

proof fn lemma_count_pos_first(s: Seq<(Vec<u8>, u64)>, k: Seq<u8>, i: int)
    requires
        0 <= i < s.len(),
        s[i].0@ == k,
        forall|j: int| 0 <= j < i ==> (#[trigger] s[j]).0@ != k,
    ensures
        spec_count_pos(s, k) == i,
    decreases s.len(),
{
    if i > 0 {
        assert forall|j: int| 0 <= j < i - 1 implies (#[trigger] s.skip(1)[j]).0@ != k by {
            assert(s.skip(1)[j] == s[j + 1]);
        }
        assert(s.skip(1)[i - 1] == s[i]);
        lemma_count_pos_first(s.skip(1), k, i - 1);
    }
}

/// Raises the tally of a key, appending it with the given count when it
/// is new.
fn bump(counts: &mut Vec<(Vec<u8>, u64)>, key: &Vec<u8>, count: u64)
    ensures
        ({
            let i = spec_count_pos(old(counts)@, key@);
            if i < 0 {
                &&& final(counts)@.len() == old(counts)@.len() + 1
                &&& forall|j: int|
                    0 <= j < old(counts)@.len() ==> final(counts)@[j] == old(counts)@[j]
                &&& final(counts)@.last().0@ == key@
                &&& final(counts)@.last().1 == count
            } else {
                &&& final(counts)@.len() == old(counts)@.len()
                &&& forall|j: int|
                    0 <= j < old(counts)@.len() && j != i ==> final(counts)@[j] == old(counts)@[j]
                &&& final(counts)@[i].0@ == key@
                &&& final(counts)@[i].1 == spec_sat_add(old(counts)@[i].1, count)
            }
        }),
{
    let ghost s0 = old(counts)@;
    match find_key(counts, key) {
        Some(i) => {
            let cur = counts[i].1;
            let kcopy = copy_bytes(&counts[i].0);
            let bumped = sat_add(cur, count);
            counts.set(i, (kcopy, bumped));
            proof {
                assert(counts@.len() == s0.len());
                assert(counts@[i as int].0@ == key@);
                assert(counts@[i as int].1 == spec_sat_add(s0[i as int].1, count));
                assert forall|j: int| 0 <= j < s0.len() && j != i implies counts@[j] == s0[j] by {
                    assert(counts@ == s0.update(i as int, (kcopy, bumped)));
                }
            }
        },
        None => {
            counts.push((copy_bytes(key), count));
        },
    }
}

/// Finds the position of a key in a tally list.
fn find_key(counts: &Vec<(Vec<u8>, u64)>, key: &Vec<u8>) -> (r: Option<usize>)
    ensures
        r matches Some(i) ==> 0 <= i < counts@.len() && i as int == spec_count_pos(counts@, key@)
            && counts@[i as int].0@ == key@,
        r is None ==> spec_count_pos(counts@, key@) < 0,
{
    let ghost s0 = counts@;
    let mut i: usize = 0;
    while i < counts.len()
        invariant
            0 <= i <= s0.len(),
            counts@ == s0,
            forall|j: int| 0 <= j < i ==> (#[trigger] s0[j]).0@ != key@,
        decreases s0.len() - i,
    {
        if bytes_eq(&counts[i].0, key) {
            proof {
                lemma_count_pos_first(s0, key@, i as int);
            }
            return Some(i);
        }
        i = i + 1;
    }
    proof {
        lemma_count_pos_range(s0, key@);
        if spec_count_pos(s0, key@) >= 0 {
            assert(s0[spec_count_pos(s0, key@)].0@ == key@);
        }
    }
    None
}

/// The counters of one extraction run.
pub struct PuzzleStatistics {
    pub elapsed_secs: u64,
    pub total_games: u64,
    pub puzzles_found: u64,
    pub puzzles_rejected: u64,
    pub objective_stats: Vec<(Vec<u8>, u64)>,
    pub phase_stats: Vec<(Vec<u8>, u64)>,
    pub rejection_reasons: Vec<(Vec<u8>, u64)>,
}

impl PuzzleStatistics {
    pub fn new() -> (r: PuzzleStatistics)
        ensures
            r.elapsed_secs == 0,
            r.total_games == 0,
            r.puzzles_found == 0,
            r.puzzles_rejected == 0,
            r.objective_stats@.len() == 0,
            r.phase_stats@.len() == 0,
            r.rejection_reasons@.len() == 0,
    {
        PuzzleStatistics {
            elapsed_secs: 0,
            total_games: 0,
            puzzles_found: 0,
            puzzles_rejected: 0,
            objective_stats: Vec::new(),
            phase_stats: Vec::new(),
            rejection_reasons: Vec::new(),
        }
    }

    pub fn increment_games(&mut self, count: u64)
        ensures
            final(self).total_games == spec_sat_add(old(self).total_games, count),
            final(self).elapsed_secs == old(self).elapsed_secs,
            final(self).puzzles_found == old(self).puzzles_found,
            final(self).puzzles_rejected == old(self).puzzles_rejected,
            final(self).objective_stats == old(self).objective_stats,
            final(self).phase_stats == old(self).phase_stats,
            final(self).rejection_reasons == old(self).rejection_reasons,
    {
        self.total_games = sat_add(self.total_games, count);
    }

    pub fn add_found(&mut self, count: u64)
        ensures
            final(self).puzzles_found == spec_sat_add(old(self).puzzles_found, count),
            final(self).elapsed_secs == old(self).elapsed_secs,
            final(self).total_games == old(self).total_games,
            final(self).puzzles_rejected == old(self).puzzles_rejected,
            final(self).objective_stats == old(self).objective_stats,
            final(self).phase_stats == old(self).phase_stats,
            final(self).rejection_reasons == old(self).rejection_reasons,
    {
        self.puzzles_found = sat_add(self.puzzles_found, count);
    }

    pub fn add_rejected(&mut self, reason: &Vec<u8>, count: u64)
        ensures
            final(self).puzzles_rejected == spec_sat_add(old(self).puzzles_rejected, count),
            final(self).elapsed_secs == old(self).elapsed_secs,
            final(self).total_games == old(self).total_games,
            final(self).puzzles_found == old(self).puzzles_found,
            final(self).objective_stats == old(self).objective_stats,
            final(self).phase_stats == old(self).phase_stats,
            spec_count_pos(old(self).rejection_reasons@, reason@) >= 0 ==> spec_count_of(
                final(self).rejection_reasons@,
                reason@,
            ) == Some(
                spec_sat_add(
                    old(self).rejection_reasons@[spec_count_pos(
                        old(self).rejection_reasons@,
                        reason@,
                    )].1,
                    count,
                ),
            ),
            spec_count_pos(old(self).rejection_reasons@, reason@) < 0 ==> final(self).rejection_reasons@.len() == old(self).rejection_reasons@.len() + 1 && final(self).rejection_reasons@.last().0@ == reason@ && final(self).rejection_reasons@.last().1 == count,
    {
        self.puzzles_rejected = sat_add(self.puzzles_rejected, count);
        let ghost s0 = self.rejection_reasons@;
        bump(&mut self.rejection_reasons, reason, count);
        proof {
            lemma_count_pos_range(s0, reason@);
            let i = spec_count_pos(s0, reason@);
            if i >= 0 {
                assert forall|j: int|
                    0 <= j < i implies (#[trigger] self.rejection_reasons@[j]).0@ != reason@ by {
                    assert(self.rejection_reasons@[j] == s0[j]);
                    lemma_count_pos_le(s0, reason@, j);
                }
                lemma_count_pos_first(self.rejection_reasons@, reason@, i);
            }
        }
    }

    pub fn update_objective(&mut self, objective: &Vec<u8>, count: u64)
        ensures
            final(self).elapsed_secs == old(self).elapsed_secs,
            final(self).total_games == old(self).total_games,
            final(self).puzzles_found == old(self).puzzles_found,
            final(self).puzzles_rejected == old(self).puzzles_rejected,
            final(self).phase_stats == old(self).phase_stats,
            final(self).rejection_reasons == old(self).rejection_reasons,
            spec_count_pos(old(self).objective_stats@, objective@) < 0 ==> final(self).objective_stats@.len() == old(self).objective_stats@.len() + 1 && final(self).objective_stats@.last().0@ == objective@ && final(self).objective_stats@.last().1 == count,
            spec_count_pos(old(self).objective_stats@, objective@) >= 0 ==> final(self).objective_stats@[spec_count_pos(old(self).objective_stats@, objective@)].1
                == spec_sat_add(
                old(self).objective_stats@[spec_count_pos(
                    old(self).objective_stats@,
                    objective@,
                )].1,
                count,
            ),
    {
        bump(&mut self.objective_stats, objective, count);
    }

    pub fn update_phase(&mut self, phase: &Vec<u8>, count: u64)
        ensures
            final(self).elapsed_secs == old(self).elapsed_secs,
            final(self).total_games == old(self).total_games,
            final(self).puzzles_found == old(self).puzzles_found,
            final(self).puzzles_rejected == old(self).puzzles_rejected,
            final(self).objective_stats == old(self).objective_stats,
            final(self).rejection_reasons == old(self).rejection_reasons,
            spec_count_pos(old(self).phase_stats@, phase@) < 0 ==> final(self).phase_stats@.len()
                == old(self).phase_stats@.len() + 1 && final(self).phase_stats@.last().0@ == phase@
                && final(self).phase_stats@.last().1 == count,
            spec_count_pos(old(self).phase_stats@, phase@) >= 0 ==> final(self).phase_stats@[spec_count_pos(old(self).phase_stats@, phase@)].1 == spec_sat_add(
                old(self).phase_stats@[spec_count_pos(old(self).phase_stats@, phase@)].1,
                count,
            ),
    {
        bump(&mut self.phase_stats, phase, count);
    }

    /// Adds wall-clock seconds measured outside to the accumulated
    /// total.
    pub fn add_elapsed(&mut self, secs: u64)
        ensures
            final(self).elapsed_secs == spec_sat_add(old(self).elapsed_secs, secs),
            final(self).total_games == old(self).total_games,
            final(self).puzzles_found == old(self).puzzles_found,
            final(self).puzzles_rejected == old(self).puzzles_rejected,
            final(self).objective_stats == old(self).objective_stats,
            final(self).phase_stats == old(self).phase_stats,
            final(self).rejection_reasons == old(self).rejection_reasons,
    {
        self.elapsed_secs = sat_add(self.elapsed_secs, secs);
    }

    /// The accumulated run time in seconds.
    pub fn get_elapsed_time(&self) -> (r: u64)
        ensures
            r == self.elapsed_secs,
    {
        self.elapsed_secs
    }
}

proof fn lemma_count_pos_le(s: Seq<(Vec<u8>, u64)>, k: Seq<u8>, j: int)
    requires
        0 <= j < spec_count_pos(s, k),
    ensures
        s[j].0@ != k,
    decreases j,
{
    lemma_count_pos_range(s, k);
    assert(s.len() > 0);
    assert(s[0].0@ != k);
    if j > 0 {
        lemma_count_pos_le(s.skip(1), k, j - 1);
        assert(s.skip(1)[j - 1] == s[j]);
    }
}

} // verus!
