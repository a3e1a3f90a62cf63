//! Required/optional combinator: the required scorer alone decides which
//! documents match; at each of its documents the optional scorer, when it
//! also matches, adds its score as a bonus. The optional side can only raise
//! the score, never exclude a document.

use vstd::prelude::*;
use crate::Score;
use crate::docset::{DocSet, lemma_index_unique};
use crate::scorer::VecScorer;
use crate::score_combiner::{sat_add, saturating_add};
use crate::union::{score_at, find_score};

verus! {

/// Combines a required and an optional scorer. The emitted documents are
/// exactly the required scorer's; each score is at least the required
/// scorer's own score at that position, equal where the optional scorer
/// does not match, and strictly greater wherever the optional scorer
/// matches with a positive score (short of score saturation).
pub fn required_optional(required: VecScorer, optional: VecScorer) -> (out: VecScorer)
    requires
        required.wf(),
        optional.wf(),
    ensures
        out.inv(),
        out.cursor() == 0,
        out.docs@ == required.docs@,
        out.scores@.len() == required.scores@.len(),
        forall|k: int| 0 <= k < out.docs@.len() ==> out.scores@[k] == (
            if optional.docs@.contains(required.docs@[k]) {
                sat_add(required.scores@[k], score_at(optional, required.docs@[k]))
            } else {
                required.scores@[k]
            }
        ),
        forall|k: int| 0 <= k < out.docs@.len() ==> out.scores@[k] >= required.scores@[k],
        forall|k: int| 0 <= k < out.docs@.len() && optional.docs@.contains(required.docs@[k])
            && score_at(optional, required.docs@[k]) > 0 && required.scores@[k] < Score::MAX
            ==> out.scores@[k] > required.scores@[k],
{
    let mut scores: Vec<Score> = Vec::new();
    let mut i: usize = 0;
    while i < required.docs.len()
        invariant
            required.wf(),
            optional.wf(),
            i <= required.docs@.len(),
            scores@.len() == i,
            forall|k: int| 0 <= k < i ==> scores@[k] == (
                if optional.docs@.contains(required.docs@[k]) {
                    sat_add(required.scores@[k], score_at(optional, required.docs@[k]))
                } else {
                    required.scores@[k]
                }
            ),
        decreases required.docs@.len() - i,
    {
        let d = required.docs[i];
        let base = required.scores[i];
        proof {
            lemma_index_unique(required.docs@, i as int, d);
        }
        let bonus = find_score(&optional, d);
        let combined = match bonus {
            Some(b) => saturating_add(base, b),
            None => base,
        };
        scores.push(combined);
        i = i + 1;
    }
    let docs = required.docs;
    VecScorer::new(docs, scores)
}

} // verus!
