//! Weights: per-query-node factories that, given a segment, build the
//! scorer tree and can explain a score for a specific document. A boolean
//! weight owns `(Occur, sub-weight)` pairs; a phrase weight owns its
//! ordered `(offset, term)` pairs.

use vstd::prelude::*;
use crate::{DocId, Score};
use crate::docset::DocSet;
use crate::score_combiner::ScoreCombiner;
use crate::scorer::VecScorer;
use crate::postings::SegmentReader;
use crate::explanation::{Explanation, QueryError};
use crate::boolean_weight::BooleanWeight;
use crate::phrase_weight::PhraseWeight;

verus! {

/// Occurrence requirement tagging a boolean clause.
#[derive(Clone, Copy, PartialEq, Eq, Structural)]
pub enum Occur {
    /// The clause must match (AND).
    Must,
    /// The clause may match and contributes to scoring (OR).
    Should,
    /// The clause must not match (AND NOT).
    MustNot,
}

/// A clause's weight: either a nested boolean node or a phrase leaf.
pub enum SubWeight {
    Boolean(Box<BooleanWeight>),
    Phrase(PhraseWeight),
}

/// Well-formedness of a sub-weight.
pub open spec fn sub_wf(w: SubWeight) -> bool
    decreases w,
{
    match w {
        SubWeight::Boolean(bw) => seq_wf(bw.weights@),
        SubWeight::Phrase(pw) => pw.phrase_terms@.len() >= 1,
    }
}

pub open spec fn seq_wf(ws: Seq<(Occur, SubWeight)>) -> bool
    decreases ws, ws.len(),
{
    forall|i: int| 0 <= i < ws.len() ==> sub_wf(#[trigger] ws[i].1)
}

/// Whether document `d` of the segment matches the sub-weight's query.
pub open spec fn sub_matches(w: SubWeight, reader: SegmentReader, d: DocId) -> bool
    decreases w,
{
    match w {
        SubWeight::Boolean(bw) => boolean_matches(*bw, reader, d),
        SubWeight::Phrase(pw) => crate::phrase_weight::phrase_weight_matches(pw, reader, d),
    }
}

/// Whether document `d` matches a boolean node: every `Must` clause
/// matches (or, with no `Must` clause, some `Should` clause does) and no
/// `MustNot` clause matches. A node with no clauses, and a node whose one
/// clause is `MustNot`, match nothing: a pure negation with no positive
/// clause is defined to be empty.
pub open spec fn boolean_matches(bw: BooleanWeight, reader: SegmentReader, d: DocId) -> bool
    decreases bw,
{
    let ws = bw.weights@;
    if ws.len() == 0 {
        false
    } else if ws.len() == 1 {
        ws[0].0 != Occur::MustNot && sub_matches(ws[0].1, reader, d)
    } else {
        let positive = if count_occur(ws, Occur::Must) > 0 {
            forall|i: int| 0 <= i < ws.len() && (#[trigger] ws[i]).0 == Occur::Must
                ==> sub_matches(ws[i].1, reader, d)
        } else if count_occur(ws, Occur::Should) > 0 {
            exists|i: int| 0 <= i < ws.len() && (#[trigger] ws[i]).0 == Occur::Should
                && sub_matches(ws[i].1, reader, d)
        } else {
            false
        };
        positive && !(exists|i: int| 0 <= i < ws.len() && (#[trigger] ws[i]).0 == Occur::MustNot
            && sub_matches(ws[i].1, reader, d))
    }
}

/// The sub-weights of the clauses carrying the occurrence `o`, in clause
/// order.
pub open spec fn filter_occur(ws: Seq<(Occur, SubWeight)>, o: Occur) -> Seq<SubWeight>
    decreases ws.len(),
{
    if ws.len() == 0 {
        Seq::empty()
    } else {
        let pre = filter_occur(ws.drop_last(), o);
        if ws.last().0 == o {
            pre.push(ws.last().1)
        } else {
            pre
        }
    }
}

/// How many clauses carry the occurrence `o`.
pub open spec fn count_occur(ws: Seq<(Occur, SubWeight)>, o: Occur) -> nat {
    filter_occur(ws, o).len()
}

/// The score the weight layer's scorer gives document `d` under `boost`.
pub open spec fn sub_score(w: SubWeight, reader: SegmentReader, boost: Score, d: DocId) -> Score
    decreases w,
{
    match w {
        SubWeight::Boolean(bw) => boolean_score(*bw, reader, boost, d),
        SubWeight::Phrase(pw) => crate::phrase_weight::phrase_weight_score(pw, reader, boost, d),
    }
}

/// The scores of the `o` clauses matching `d`, in clause order: what the
/// score combiner of a union over that bucket is applied to.
pub open spec fn matching_occur_scores(
    ws: Seq<(Occur, SubWeight)>,
    reader: SegmentReader,
    boost: Score,
    d: DocId,
    o: Occur,
) -> Seq<Score>
    decreases ws, ws.len(),
{
    if ws.len() == 0 {
        Seq::empty()
    } else {
        let pre = matching_occur_scores(ws.drop_last(), reader, boost, d, o);
        if ws.last().0 == o && sub_matches(ws.last().1, reader, d) {
            pre.push(sub_score(ws.last().1, reader, boost, d))
        } else {
            pre
        }
    }
}

/// The saturating sum of the scores of all `o` clauses at `d`: the score of
/// an intersection over that bucket (meaningful when every `o` clause
/// matches `d`).
pub open spec fn occur_scores_sum(
    ws: Seq<(Occur, SubWeight)>,
    reader: SegmentReader,
    boost: Score,
    d: DocId,
    o: Occur,
) -> Score
    decreases ws, ws.len(),
{
    if ws.len() == 0 {
        0
    } else {
        let pre = occur_scores_sum(ws.drop_last(), reader, boost, d, o);
        if ws.last().0 == o {
            crate::score_combiner::sat_add(pre, sub_score(ws.last().1, reader, boost, d))
        } else {
            pre
        }
    }
}

/// Some `Should` clause matches `d`.
pub open spec fn any_should_matches(
    ws: Seq<(Occur, SubWeight)>,
    reader: SegmentReader,
    d: DocId,
) -> bool {
    exists|i: int| 0 <= i < ws.len() && (#[trigger] ws[i]).0 == Occur::Should && sub_matches(
        ws[i].1,
        reader,
        d,
    )
}

/// The score the boolean assembly gives a matching document `d`.
///
/// With scoring enabled: the `Must` side contributes the saturating sum of
/// all `Must` clause scores; the `Should` side contributes the coordination
/// combiner over the matching `Should` clause scores; with both sides
/// present the `Should` side is an additive bonus at documents it also
/// matches. With scoring disabled the score degenerates: the `Must` side
/// alone where present, a lone `Should` clause's own score (its scorer is
/// returned unwrapped), zero otherwise. A single positive clause scores as
/// that clause alone.
pub open spec fn boolean_score(
    bw: BooleanWeight,
    reader: SegmentReader,
    boost: Score,
    d: DocId,
) -> Score
    decreases bw,
{
    let ws = bw.weights@;
    if ws.len() == 0 {
        0
    } else if ws.len() == 1 {
        if ws[0].0 != Occur::MustNot {
            sub_score(ws[0].1, reader, boost, d)
        } else {
            0
        }
    } else {
        let n_must = count_occur(ws, Occur::Must);
        let n_should = count_occur(ws, Occur::Should);
        let must_sum = occur_scores_sum(ws, reader, boost, d, Occur::Must);
        let should_part = crate::score_combiner::SumWithCoordsCombiner::combine_spec(
            matching_occur_scores(ws, reader, boost, d, Occur::Should),
            n_should as int,
        );
        if bw.scoring_enabled {
            if n_must > 0 && n_should > 0 {
                if any_should_matches(ws, reader, d) {
                    crate::score_combiner::sat_add(must_sum, should_part)
                } else {
                    must_sum
                }
            } else if n_must > 0 {
                must_sum
            } else {
                should_part
            }
        } else {
            if n_must > 0 {
                must_sum
            } else if n_should == 1 {
                crate::score_combiner::sat_sum(
                    matching_occur_scores(ws, reader, boost, d, Occur::Should),
                )
            } else {
                0
            }
        }
    }
}

/// A boolean node with no clauses matches nothing, and so does one whose
/// only clause is `MustNot`: a pure negation with no positive clause is
/// empty by policy, not an error.
pub proof fn lemma_degenerate_boolean_matches_nothing(
    bw: BooleanWeight,
    reader: SegmentReader,
    d: DocId,
)
    requires
        bw.weights@.len() == 0 || (bw.weights@.len() == 1 && bw.weights@[0].0 == Occur::MustNot),
    ensures
        !boolean_matches(bw, reader, d),
{
}

/// A boolean node with exactly one clause of any other kind matches the
/// same documents, with the same scores, as that sub-clause evaluated
/// alone.
pub proof fn lemma_single_clause_boolean(
    bw: BooleanWeight,
    reader: SegmentReader,
    boost: Score,
    d: DocId,
)
    requires
        bw.weights@.len() == 1,
        bw.weights@[0].0 != Occur::MustNot,
    ensures
        boolean_matches(bw, reader, d) == sub_matches(bw.weights@[0].1, reader, d),
        boolean_score(bw, reader, boost, d) == sub_score(bw.weights@[0].1, reader, boost, d),
{
}

/// The value `explain` reports for a matching document of a sub-weight.
pub open spec fn sub_explain_value(w: SubWeight, reader: SegmentReader, d: DocId) -> Score
    decreases w,
{
    match w {
        SubWeight::Boolean(bw) => boolean_explain_value(*bw, reader, d),
        SubWeight::Phrase(pw) => crate::phrase_weight::phrase_weight_score(pw, reader, 1, d),
    }
}

/// A boolean node explains a fixed score of one when scoring is disabled,
/// and its unboosted score otherwise.
pub open spec fn boolean_explain_value(bw: BooleanWeight, reader: SegmentReader, d: DocId) -> Score
    decreases bw,
{
    if bw.scoring_enabled {
        boolean_score(bw, reader, 1, d)
    } else {
        1
    }
}

/// The explain values of the positive (`Must`/`Should`) clauses matching
/// `d`, in clause order: the itemization a scoring boolean explanation
/// carries. `MustNot` clauses are never itemized — they do not contribute
/// to the score.
pub open spec fn positive_detail_values(
    ws: Seq<(Occur, SubWeight)>,
    reader: SegmentReader,
    d: DocId,
) -> Seq<Score>
    decreases ws.len(),
{
    if ws.len() == 0 {
        Seq::empty()
    } else {
        let pre = positive_detail_values(ws.drop_last(), reader, d);
        if ws.last().0 != Occur::MustNot && sub_matches(ws.last().1, reader, d) {
            pre.push(sub_explain_value(ws.last().1, reader, d))
        } else {
            pre
        }
    }
}

/// The full shape of a boolean node's explanation: with scoring disabled, a
/// fixed, non-decomposed explanation; with scoring enabled, the node's
/// unboosted score, itemized by the explain values of exactly the matching
/// positive clauses, in clause order.
pub open spec fn boolean_explain_ok(
    bw: BooleanWeight,
    reader: SegmentReader,
    d: DocId,
    e: Explanation,
) -> bool {
    if !bw.scoring_enabled {
        &&& e.kind == crate::explanation::ExplanationKind::BooleanWithoutScoring
        &&& e.value == 1
        &&& e.details@.len() == 0
    } else {
        &&& e.kind == crate::explanation::ExplanationKind::BooleanSumOfClauses
        &&& e.value == boolean_score(bw, reader, 1, d)
        &&& e.details@.len() == positive_detail_values(bw.weights@, reader, d).len()
        &&& (forall|k: int| 0 <= k < e.details@.len() ==> (#[trigger] e.details@[k]).value
            == positive_detail_values(bw.weights@, reader, d)[k])
    }
}

/// The full shape of a phrase weight's explanation: the unboosted phrase
/// score, decomposed into the similarity function's own explanation of the
/// phrase-occurrence count.
pub open spec fn phrase_explain_ok(
    pw: crate::phrase_weight::PhraseWeight,
    reader: SegmentReader,
    d: DocId,
    e: Explanation,
) -> bool {
    &&& e.kind == crate::explanation::ExplanationKind::PhraseScorer
    &&& e.value == crate::phrase_weight::phrase_weight_score(pw, reader, 1, d)
    &&& e.details@.len() == 1
    &&& e.details@[0].kind == crate::explanation::ExplanationKind::Similarity
    &&& e.details@[0].value == crate::phrase_weight::phrase_similarity_value(pw, reader, d)
    &&& e.details@[0].details@.len() == 0
}

/// The full shape of a sub-weight's explanation.
pub open spec fn sub_explain_ok(
    w: SubWeight,
    reader: SegmentReader,
    d: DocId,
    e: Explanation,
) -> bool
    decreases w,
{
    match w {
        SubWeight::Boolean(bw) => boolean_explain_ok(*bw, reader, d, e),
        SubWeight::Phrase(pw) => phrase_explain_ok(pw, reader, d, e),
    }
}

/// The scorers the weight layer produces materialize their postings at
/// construction; a factory that, for a given segment and boost, produces a
/// scorer over the matching documents and can explain a single document's
/// score.
pub trait Weight: Sized {
    /// Well-formedness of the weight.
    spec fn w_wf(&self) -> bool;

    /// Whether document `d` of the segment matches this weight's query.
    spec fn w_matches(&self, reader: SegmentReader, d: DocId) -> bool;

    /// The score this weight's scorer gives document `d` under `boost`.
    spec fn w_score(&self, reader: SegmentReader, boost: Score, d: DocId) -> Score;

    /// The value `explain` reports for a matching document.
    spec fn w_explain_value(&self, reader: SegmentReader, d: DocId) -> Score;

    /// The full shape of the explanation `explain` reports for a matching
    /// document: its kind and its decomposition into details, not just its
    /// value.
    spec fn w_explain_ok(&self, reader: SegmentReader, d: DocId, e: Explanation) -> bool;

    /// Builds the scorer for one segment. Fails only if the underlying
    /// postings lookup fails, never for lack of results: with this
    /// in-memory postings model it always succeeds, and an empty scorer is
    /// a valid value.
    fn scorer(&self, reader: &SegmentReader, boost: Score) -> (r: Result<VecScorer, QueryError>)
        requires
            self.w_wf(),
            reader.wf(),
        ensures
            r.is_ok(),
            r.is_ok() ==> {
                let s = r.unwrap();
                &&& s.inv()
                &&& s.cursor() == 0
                &&& (forall|d: DocId| s.docs@.contains(d) <==> self.w_matches(*reader, d))
                &&& (forall|k: int| 0 <= k < s.docs@.len() ==> s.scores@[k] == self.w_score(
                    *reader,
                    boost,
                    s.docs@[k],
                ))
            },
    ;

    /// Explains the score of `doc`: reports the "does not match" condition
    /// exactly when the weight's scorer does not land on `doc`, and never a
    /// fabricated score.
    fn explain(&self, reader: &SegmentReader, doc: DocId) -> (r: Result<Explanation, QueryError>)
        requires
            self.w_wf(),
            reader.wf(),
        ensures
            r.is_err() <==> !self.w_matches(*reader, doc),
            r.is_err() ==> r == Result::<Explanation, QueryError>::Err(
                QueryError::DoesNotMatch(doc),
            ),
            r.is_ok() ==> r.unwrap().value == self.w_explain_value(*reader, doc),
            r.is_ok() ==> self.w_explain_ok(*reader, doc, r.unwrap()),
    ;
}

} // verus!
