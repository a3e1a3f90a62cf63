//! Strategies for combining several sub-scores into one aggregate score.
//!
//! Scores are unsigned integers combined with saturating arithmetic:
//! `DoNothingCombiner` is used when scoring is disabled and always yields
//! zero; `SumWithCoordsCombiner` sums the contributing sub-scores and
//! applies a coordination factor rewarding documents matched by more of the
//! sub-clauses.

use vstd::prelude::*;
use crate::Score;

verus! {

/// `a + b`, saturating at the largest score.
pub open spec fn sat_add(a: Score, b: Score) -> Score {
    if a + b > Score::MAX {
        Score::MAX
    } else {
        (a + b) as Score
    }
}

/// `a * b`, saturating at the largest score.
pub open spec fn sat_mul(a: Score, b: Score) -> Score {
    if a * b > Score::MAX {
        Score::MAX
    } else {
        (a * b) as Score
    }
}

pub fn saturating_add(a: Score, b: Score) -> (r: Score)
    ensures
        r == sat_add(a, b),
{
    if a > Score::MAX - b {
        Score::MAX
    } else {
        a + b
    }
}

pub fn saturating_mul(a: Score, b: Score) -> (r: Score)
    ensures
        r == sat_mul(a, b),
{
    if a == 0 || b == 0 {
        proof {
            assert(a * b == 0) by (nonlinear_arith)
                requires a == 0 || b == 0;
        }
        0
    } else if a > Score::MAX / b {
        proof {
            assert(a * b > Score::MAX) by (nonlinear_arith)
                requires b > 0 && a > Score::MAX / b && Score::MAX / b == Score::MAX as int / b as int;
        }
        Score::MAX
    } else {
        proof {
            assert(a * b <= Score::MAX) by (nonlinear_arith)
                requires b > 0 && a <= Score::MAX / b && Score::MAX / b == Score::MAX as int / b as int;
        }
        a * b
    }
}

/// Saturating sum of a sequence of scores, combined left to right.
pub open spec fn sat_sum(scores: Seq<Score>) -> Score
    decreases scores.len(),
{
    if scores.len() == 0 {
        0
    } else {
        sat_add(sat_sum(scores.drop_last()), scores.last())
    }
}

/// Combines the scores of the sub-scorers that matched the current document
/// into one aggregate score. `total` is the number of sub-scorers the
/// combinator was built over; `scores` holds exactly the sub-scores of
/// those that matched.
pub trait ScoreCombiner: Sized {
    /// The combined score, as a function of the matching sub-scores and the
    /// total number of sub-scorers.
    spec fn combine_spec(scores: Seq<Score>, total: int) -> Score;

    fn combine(scores: &Vec<Score>, total: usize) -> (r: Score)
        requires
            1 <= scores@.len() <= total,
        ensures
            r == Self::combine_spec(scores@, total as int),
    ;
}

/// Combiner used when scoring is disabled: every combined score is zero,
/// while matching semantics stay intact.
pub struct DoNothingCombiner;

impl ScoreCombiner for DoNothingCombiner {
    open spec fn combine_spec(scores: Seq<Score>, total: int) -> Score {
        0
    }

    fn combine(scores: &Vec<Score>, total: usize) -> (r: Score) {
        0
    }
}

/// Sums the matching sub-scores and applies a coordination bonus: the sum is
/// scaled by `matched / total`, so that a document matched by more of the
/// sub-clauses scores at least as high as one matched by fewer, all else
/// equal.
pub struct SumWithCoordsCombiner;

impl ScoreCombiner for SumWithCoordsCombiner {
    open spec fn combine_spec(scores: Seq<Score>, total: int) -> Score {
        if total >= 1 && scores.len() >= 1 {
            (sat_mul(sat_sum(scores), scores.len() as Score) / total as Score) as Score
        } else {
            0
        }
    }

    fn combine(scores: &Vec<Score>, total: usize) -> (r: Score) {
        let mut sum: Score = 0;
        let mut i: usize = 0;
        while i < scores.len()
            invariant
                i <= scores@.len(),
                sum == sat_sum(scores@.take(i as int)),
            decreases scores@.len() - i,
        {
            proof {
                assert(scores@.take(i + 1).drop_last() =~= scores@.take(i as int));
                assert(scores@.take(i + 1).last() == scores@[i as int]);
            }
            sum = saturating_add(sum, scores[i]);
            i = i + 1;
        }
        proof {
            assert(scores@.take(scores@.len() as int) =~= scores@);
        }
        let matched: Score = scores.len() as Score;
        saturating_mul(sum, matched) / (total as Score)
    }
}

} // verus!
