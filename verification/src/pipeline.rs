//! Run-level plumbing types: search depths, run arguments and the run
//! result.

use vstd::prelude::*;

verus! {

/// The two depths one run works at: a scan depth for phase 1 and a
/// deeper solve depth for phase 2.
pub struct DepthSet {
    pub scan: u8,
    pub solve: u8,
}

/// Computes both depths from the base: the scan uses the base itself,
/// the solve uses six fifths of it, each at least one and capped at the
/// depth range.
pub fn calculate_depths(base: u8) -> (r: DepthSet)
    ensures
        r.scan == (if base < 1 {
            1u8
        } else {
            base
        }),
        r.solve as int == ({
            let s = (base as int) * 12 / 10;
            if s < 1 {
                1int
            } else if s > 255 {
                255int
            } else {
                s
            }
        }),
{
    let scan: u8 = if base < 1 {
        1
    } else {
        base
    };
    let s: u32 = (base as u32) * 12 / 10;
    let solve: u8 = if s < 1 {
        1
    } else if s > 255 {
        255
    } else {
        s as u8
    };
    DepthSet { scan, solve }
}

/// What a run is asked to do.
pub struct GeneratorArgs {
    pub base_depth: u8,
    pub resume: bool,
    pub verbose: bool,
}

/// What a run produced.
pub struct GenerateResult {
    pub puzzles: u64,
}

impl GenerateResult {
    pub fn total(&self) -> (r: u64)
        ensures
            r == self.puzzles,
    {
        self.puzzles
    }
}

/// The command-line surface: input path, optional output path, base
/// depth, resume flag, verbosity, log level.
pub struct Args {
    pub input: String,
    pub output: Option<String>,
    pub depth: u8,
    pub resume: bool,
    pub verbose: bool,
    pub log_level: String,
}

/// Drops the first `games_analyzed` items of a resumed stream.
pub fn skip_processed_games<T>(items: Vec<T>, games_analyzed: usize) -> (r: Vec<T>)
    ensures
        games_analyzed <= items@.len() ==> r@ == items@.skip(games_analyzed as int),
        games_analyzed > items@.len() ==> r@.len() == 0,
{
    let mut v = items;
    let at = if games_analyzed > v.len() {
        v.len()
    } else {
        games_analyzed
    };
    v.split_off(at)
}

} // verus!
