//! The similarity function consumed by the scorers: it maps a document's
//! field-norm identifier and a term (or phrase-occurrence) frequency to a
//! score, supports a boost multiplier, and can explain its score. The engine
//! treats it as opaque; this one scores proportionally to the frequency.

use vstd::prelude::*;
use crate::Score;
use crate::explanation::{Explanation, ExplanationKind};
use crate::score_combiner::{sat_mul, saturating_mul};

verus! {

/// A boosted, frequency-proportional similarity function.
pub struct SimilarityWeight {
    pub boost: Score,
}

impl SimilarityWeight {
    /// The score of a document with field norm `fieldnorm_id` and frequency
    /// `freq`.
    pub open spec fn spec_score(&self, fieldnorm_id: u8, freq: u32) -> Score {
        sat_mul(self.boost, freq as Score)
    }

    pub fn new(boost: Score) -> (w: SimilarityWeight)
        ensures
            w.boost == boost,
    {
        SimilarityWeight { boost }
    }

    /// A copy of this similarity with its boost multiplied by `boost`.
    pub fn boost_by(&self, boost: Score) -> (w: SimilarityWeight)
        ensures
            w.boost == sat_mul(self.boost, boost),
    {
        SimilarityWeight { boost: saturating_mul(self.boost, boost) }
    }

    pub fn score(&self, fieldnorm_id: u8, freq: u32) -> (s: Score)
        ensures
            s == self.spec_score(fieldnorm_id, freq),
    {
        saturating_mul(self.boost, freq as Score)
    }

    /// Decomposition of the score this similarity gives: a single leaf
    /// explanation carrying the similarity's own value.
    pub fn explain(&self, fieldnorm_id: u8, freq: u32) -> (e: Explanation)
        ensures
            e.value == self.spec_score(fieldnorm_id, freq),
            e.kind == ExplanationKind::Similarity,
            e.details@.len() == 0,
    {
        Explanation::new(ExplanationKind::Similarity, self.score(fieldnorm_id, freq))
    }
}

} // verus!
