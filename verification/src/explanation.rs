//! Score explanations and the errors the weight layer reports.

use vstd::prelude::*;
use crate::{DocId, Score};

verus! {

/// What a node of an explanation tree accounts for.
#[derive(Clone, Copy, PartialEq, Eq, Structural)]
pub enum ExplanationKind {
    /// A boolean query evaluated without scoring: a fixed score.
    BooleanWithoutScoring,
    /// A boolean clause: the sum of its scoring sub-clauses.
    BooleanSumOfClauses,
    /// A phrase scorer's score at a document.
    PhraseScorer,
    /// The similarity function's own contribution.
    Similarity,
}

/// A score, decomposed: what kind of computation produced it and the
/// explanations of its parts.
pub struct Explanation {
    pub kind: ExplanationKind,
    pub value: Score,
    pub details: Vec<Explanation>,
}

impl Explanation {
    pub fn new(kind: ExplanationKind, value: Score) -> (e: Explanation)
        ensures
            e.kind == kind,
            e.value == value,
            e.details@.len() == 0,
    {
        Explanation { kind, value, details: Vec::new() }
    }

    pub fn add_detail(&mut self, child: Explanation)
        ensures
            final(self).kind == old(self).kind,
            final(self).value == old(self).value,
            final(self).details@ == old(self).details@.push(child),
    {
        self.details.push(child);
    }
}

/// Errors the weight layer reports. Construction-time data errors would
/// surface here as further variants; asking for an explanation of a
/// document the scorer does not reach is a distinct "does not match"
/// condition, not a data error.
#[derive(Clone, Copy, Debug, PartialEq, Eq, Structural)]
pub enum QueryError {
    /// The document does not match the query.
    DoesNotMatch(DocId),
}

/// The error `explain` reports for a document the scorer does not match.
pub fn does_not_match(doc: DocId) -> (e: QueryError)
    ensures
        e == QueryError::DoesNotMatch(doc),
{
    QueryError::DoesNotMatch(doc)
}

} // verus!
