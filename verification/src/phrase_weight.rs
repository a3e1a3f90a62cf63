//! The phrase weight: resolves, per term, its positional postings for a
//! segment (honoring deletions) and builds the phrase scorer. A term with
//! no postings in the segment means the phrase cannot match anywhere:
//! construction yields an empty scorer, not an error.

use vstd::prelude::*;
use crate::{DocId, Score};
use crate::docset::{DocSet, strictly_sorted, lemma_sorted_push, lemma_push_contains,
    lemma_seek_index_finds, TERMINATED};
use crate::scorer::VecScorer;
use crate::score_combiner::sat_mul;
use crate::postings::{
    Term, IndexRecordOption, SegmentPostings, FieldNormReader, SegmentReader, positions_at,
    stored_postings, stored_norms,
};
use crate::phrase_scorer::{PhraseScorer, phrase_count_spec, lemma_alignment_congruence};
use crate::similarity::SimilarityWeight;
use crate::explanation::{Explanation, ExplanationKind, QueryError, does_not_match};
use crate::weight::Weight;

verus! {

/// Every phrase term has postings stored in the segment.
pub open spec fn all_terms_present(pw: PhraseWeight, reader: SegmentReader) -> bool {
    forall|c: int| 0 <= c < pw.phrase_terms@.len() ==> stored_postings(
        reader.postings@,
        (#[trigger] pw.phrase_terms@[c]).1,
    ).is_some()
}

/// The stored (unfiltered) posting list of the phrase's `c`-th term.
pub open spec fn raw_term_postings(
    pw: PhraseWeight,
    reader: SegmentReader,
    c: int,
) -> SegmentPostings {
    stored_postings(reader.postings@, pw.phrase_terms@[c].1).unwrap()
}

/// The phrase's terms paired with their stored postings, in phrase order.
pub open spec fn raw_postings_seq(pw: PhraseWeight, reader: SegmentReader) -> Seq<
    (usize, SegmentPostings),
> {
    Seq::new(
        pw.phrase_terms@.len(),
        |c: int| (pw.phrase_terms@[c].0, raw_term_postings(pw, reader, c)),
    )
}

/// Document `d` matches the phrase: it is live, contains every term, and
/// some position is common to all the offset-adjusted term position lists.
pub open spec fn phrase_weight_matches(pw: PhraseWeight, reader: SegmentReader, d: DocId) -> bool {
    &&& all_terms_present(pw, reader)
    &&& !reader.deleted@.contains(d)
    &&& (forall|c: int| 0 <= c < pw.phrase_terms@.len() ==> #[trigger] raw_term_postings(
        pw,
        reader,
        c,
    ).spec_docs().contains(d))
    &&& phrase_count_spec(raw_postings_seq(pw, reader), d) > 0
}

/// The score the phrase weight's scorer gives a matching document: the
/// boosted similarity applied to the phrase-occurrence count (zero when
/// scoring is not needed).
pub open spec fn phrase_weight_score(
    pw: PhraseWeight,
    reader: SegmentReader,
    boost: Score,
    d: DocId,
) -> Score {
    if pw.score_needed {
        sat_mul(
            sat_mul(pw.similarity_weight.boost, boost),
            phrase_count_spec(raw_postings_seq(pw, reader), d) as Score,
        )
    } else {
        0
    }
}

/// The value of the similarity function's own explanation of document `d`,
/// under the unit boost `explain` evaluates with: the boosted similarity
/// applied to the phrase-occurrence count, whether or not scoring is
/// needed.
pub open spec fn phrase_similarity_value(pw: PhraseWeight, reader: SegmentReader, d: DocId) -> Score {
    sat_mul(
        sat_mul(pw.similarity_weight.boost, 1),
        phrase_count_spec(raw_postings_seq(pw, reader), d) as Score,
    )
}

/// A correctly resolved phrase scorer: per term, the postings are the
/// stored ones minus the segment's deleted documents, positions kept.
pub open spec fn phrase_scorer_ok(
    pw: PhraseWeight,
    reader: SegmentReader,
    boost: Score,
    ps: PhraseScorer,
) -> bool {
    &&& ps.wf()
    &&& ps.cursor() == 0
    &&& ps.score_needed == pw.score_needed
    &&& ps.similarity.boost == sat_mul(pw.similarity_weight.boost, boost)
    &&& ps.fieldnorm_reader.norms@ == stored_norms(reader.fieldnorms@, pw.phrase_terms@[0].1.field)
    &&& ps.term_postings@.len() == pw.phrase_terms@.len()
    &&& (forall|c: int| 0 <= c < ps.term_postings@.len() ==> (#[trigger] ps.term_postings@[c]).0
        == pw.phrase_terms@[c].0)
    &&& (forall|c: int, d: DocId| 0 <= c < ps.term_postings@.len() ==> ((
    #[trigger] ps.term_postings@[c].1.docs@.contains(d)) <==> (raw_term_postings(
        pw,
        reader,
        c,
    ).spec_docs().contains(d) && !reader.deleted@.contains(d))))
    &&& (forall|c: int, d: DocId| 0 <= c < ps.term_postings@.len() && (
    #[trigger] ps.term_postings@[c].1.docs@.contains(d)) ==> positions_at(ps.term_postings@[c].1, d)
        == positions_at(raw_term_postings(pw, reader, c), d))
}

/// Weight of a phrase query: the ordered `(position offset, term)` pairs,
/// the similarity to score matches with, and whether scores are needed.
pub struct PhraseWeight {
    pub phrase_terms: Vec<(usize, Term)>,
    pub similarity_weight: SimilarityWeight,
    pub score_needed: bool,
}

impl PhraseWeight {
    /// Creates a new phrase weight; a phrase has at least one term.
    pub fn new(
        phrase_terms: Vec<(usize, Term)>,
        similarity_weight: SimilarityWeight,
        score_needed: bool,
    ) -> (w: PhraseWeight)
        requires
            phrase_terms@.len() >= 1,
        ensures
            w == (PhraseWeight { phrase_terms, similarity_weight, score_needed }),
    {
        PhraseWeight { phrase_terms, similarity_weight, score_needed }
    }

    /// The norms of the phrase's field (the field of its first term).
    pub fn fieldnorm_reader(&self, reader: &SegmentReader) -> (r: FieldNormReader)
        requires
            self.phrase_terms@.len() >= 1,
        ensures
            r.norms@ == stored_norms(reader.fieldnorms@, self.phrase_terms@[0].1.field),
    {
        let field = self.phrase_terms[0].1.field();
        reader.get_fieldnorms_reader(field)
    }

    /// Resolves each term's postings for the segment and builds the phrase
    /// scorer; `None` when some term has no postings here, so the phrase
    /// matches nowhere.
    pub fn phrase_scorer(&self, reader: &SegmentReader, boost: Score) -> (r: Result<
        Option<PhraseScorer>,
        QueryError,
    >)
        requires
            self.phrase_terms@.len() >= 1,
            reader.wf(),
        ensures
            r.is_ok(),
            r.is_ok() ==> (r.unwrap().is_some() <==> all_terms_present(*self, *reader)),
            r.is_ok() && r.unwrap().is_some() ==> phrase_scorer_ok(
                *self,
                *reader,
                boost,
                r.unwrap().unwrap(),
            ),
    {
        let similarity_weight = self.similarity_weight.boost_by(boost);
        let fieldnorm_reader = self.fieldnorm_reader(reader);
        let has_deletes = reader.has_deletes();
        let mut term_postings_list: Vec<(usize, SegmentPostings)> = Vec::new();
        let mut c: usize = 0;
        while c < self.phrase_terms.len()
            invariant
                self.phrase_terms@.len() >= 1,
                reader.wf(),
                c <= self.phrase_terms@.len(),
                has_deletes <==> reader.deleted@.len() > 0,
                term_postings_list@.len() == c,
                forall|k: int| 0 <= k < c ==> stored_postings(
                    reader.postings@,
                    (#[trigger] self.phrase_terms@[k]).1,
                ).is_some(),
                forall|k: int| 0 <= k < c ==> (#[trigger] term_postings_list@[k]).0
                    == self.phrase_terms@[k].0,
                forall|k: int| 0 <= k < c ==> (#[trigger] term_postings_list@[k]).1.wf(),
                forall|k: int, d: DocId| 0 <= k < c ==> ((
                #[trigger] term_postings_list@[k].1.docs@.contains(d)) <==> (raw_term_postings(
                    *self,
                    *reader,
                    k,
                ).spec_docs().contains(d) && !reader.deleted@.contains(d))),
                forall|k: int, d: DocId| 0 <= k < c && (
                #[trigger] term_postings_list@[k].1.docs@.contains(d)) ==> positions_at(
                    term_postings_list@[k].1,
                    d,
                ) == positions_at(raw_term_postings(*self, *reader, k), d),
            decreases self.phrase_terms@.len() - c,
        {
            let offset = self.phrase_terms[c].0;
            let term = self.phrase_terms[c].1;
            let looked_up = if has_deletes {
                reader.read_postings(&term, IndexRecordOption::WithFreqsAndPositions)
            } else {
                reader.read_postings_no_deletes(&term, IndexRecordOption::WithFreqsAndPositions)
            };
            match looked_up {
                Some(postings) => {
                    proof {
                        if !has_deletes {
                            assert(forall|d: DocId| !reader.deleted@.contains(d));
                        }
                    }
                    term_postings_list.push((offset, postings));
                },
                None => {
                    return Ok(None);
                },
            }
            c = c + 1;
        }
        let scorer = PhraseScorer::new(
            term_postings_list,
            similarity_weight,
            fieldnorm_reader,
            self.score_needed,
        );
        Ok(Some(scorer))
    }
}

/// At a candidate document of a resolved phrase scorer, the occurrence
/// count over the filtered postings equals the count over the stored ones.
proof fn lemma_resolved_count(
    pw: PhraseWeight,
    reader: SegmentReader,
    boost: Score,
    ps: PhraseScorer,
    d: DocId,
)
    requires
        phrase_scorer_ok(pw, reader, boost, ps),
        ps.candidates@.contains(d),
    ensures
        phrase_count_spec(ps.term_postings@, d) == phrase_count_spec(
            raw_postings_seq(pw, reader),
            d,
        ),
{
    let raw = raw_postings_seq(pw, reader);
    assert forall|c: int| 0 <= c < ps.term_postings@.len() implies positions_at(
        (#[trigger] ps.term_postings@[c]).1,
        d,
    ) == positions_at(raw[c].1, d) && ps.term_postings@[c].0 == raw[c].0 by {
        assert(ps.term_postings@[c].1.docs@.contains(d));
    }
    lemma_alignment_congruence(ps.term_postings@, raw, d);
}

impl Weight for PhraseWeight {
    open spec fn w_wf(&self) -> bool {
        self.phrase_terms@.len() >= 1
    }

    open spec fn w_matches(&self, reader: SegmentReader, d: DocId) -> bool {
        phrase_weight_matches(*self, reader, d)
    }

    open spec fn w_score(&self, reader: SegmentReader, boost: Score, d: DocId) -> Score {
        phrase_weight_score(*self, reader, boost, d)
    }

    open spec fn w_explain_value(&self, reader: SegmentReader, d: DocId) -> Score {
        phrase_weight_score(*self, reader, 1, d)
    }

    open spec fn w_explain_ok(&self, reader: SegmentReader, d: DocId, e: Explanation) -> bool {
        crate::weight::phrase_explain_ok(*self, reader, d, e)
    }

    /// Drains the phrase scorer's approximation, keeping the candidates the
    /// positional verification confirms, with their scores.
    fn scorer(&self, reader: &SegmentReader, boost: Score) -> (r: Result<VecScorer, QueryError>) {
        let ps = match self.phrase_scorer(reader, boost)? {
            Some(ps) => ps,
            None => {
                proof {
                    let c = choose|c: int| 0 <= c < self.phrase_terms@.len() && !stored_postings(
                        reader.postings@,
                        self.phrase_terms@[c].1,
                    ).is_some();
                    assert(!phrase_weight_matches(*self, *reader, 0));
                }
                return Ok(VecScorer::empty());
            },
        };
        let mut docs: Vec<DocId> = Vec::new();
        let mut scores: Vec<Score> = Vec::new();
        let mut i: usize = 0;
        while i < ps.candidates.len()
            invariant
                phrase_scorer_ok(*self, *reader, boost, ps),
                self.phrase_terms@.len() >= 1,
                i <= ps.candidates@.len(),
                strictly_sorted(docs@),
                scores@.len() == docs@.len(),
                forall|d: DocId| docs@.contains(d) <==> (ps.candidates@.take(i as int).contains(d)
                    && phrase_count_spec(ps.term_postings@, d) > 0),
                forall|k: int| 0 <= k < docs@.len() ==> #[trigger] scores@[k]
                    == phrase_weight_score(*self, *reader, boost, docs@[k]),
                docs@.len() > 0 && i < ps.candidates@.len() ==> docs@.last()
                    < ps.candidates@[i as int],
            decreases ps.candidates@.len() - i,
        {
            let ghost old_docs = docs@;
            let ghost oi = i as int;
            let d = ps.candidates[i];
            proof {
                assert(ps.candidates@.contains(d));
            }
            let count = crate::phrase_scorer::phrase_count_of(&ps.term_postings, d);
            if count > 0 {
                let score = if ps.score_needed {
                    let fid = ps.fieldnorm_reader.fieldnorm_id(d);
                    ps.similarity.score(fid, count)
                } else {
                    0
                };
                proof {
                    lemma_sorted_push(docs@, d);
                    lemma_resolved_count(*self, *reader, boost, ps, d);
                }
                docs.push(d);
                scores.push(score);
            }
            i = i + 1;
            proof {
                assert(ps.candidates@.take(i as int) =~= ps.candidates@.take(oi).push(d));
                assert forall|x: DocId| docs@.contains(x) <==> (ps.candidates@.take(
                    i as int,
                ).contains(x) && phrase_count_spec(ps.term_postings@, x) > 0) by {
                    lemma_push_contains(ps.candidates@.take(oi), d, x);
                    if count > 0 {
                        lemma_push_contains(old_docs, d, x);
                    }
                }
            }
        }
        proof {
            assert(ps.candidates@.take(i as int) =~= ps.candidates@);
            assert forall|d: DocId| docs@.contains(d) <==> phrase_weight_matches(
                *self,
                *reader,
                d,
            ) by {
                if ps.candidates@.contains(d) {
                    lemma_resolved_count(*self, *reader, boost, ps, d);
                    assert(ps.term_postings@[0].1.docs@.contains(d));
                    assert forall|c: int| 0 <= c < self.phrase_terms@.len() implies
                        #[trigger] raw_term_postings(*self, *reader, c).spec_docs().contains(
                        d,
                    ) by {
                        assert(ps.term_postings@[c].1.docs@.contains(d));
                    }
                }
                if phrase_weight_matches(*self, *reader, d) {
                    assert forall|c: int| 0 <= c < ps.term_postings@.len() implies (
                    #[trigger] ps.term_postings@[c]).1.docs@.contains(d) by {
                        assert(raw_term_postings(*self, *reader, c).spec_docs().contains(d));
                    }
                    assert(ps.candidates@.contains(d));
                }
            }
        }
        Ok(VecScorer::new(docs, scores))
    }

    /// Explains the phrase score of `doc`: fails with the "does not match"
    /// condition unless the scorer lands exactly on `doc` and the
    /// positional verification confirms it.
    fn explain(&self, reader: &SegmentReader, doc: DocId) -> (r: Result<Explanation, QueryError>) {
        let ps_opt = self.phrase_scorer(reader, 1)?;
        let ps = match ps_opt {
            Some(ps) => ps,
            None => {
                proof {
                    assert(!phrase_weight_matches(*self, *reader, doc));
                }
                return Err(does_not_match(doc));
            },
        };
        let idx = crate::intersection::seek_from(&ps.candidates, 0, doc);
        let on_doc = idx < ps.candidates.len() && ps.candidates[idx] == doc;
        if !on_doc {
            proof {
                if phrase_weight_matches(*self, *reader, doc) {
                    assert forall|c: int| 0 <= c < ps.term_postings@.len() implies (
                    #[trigger] ps.term_postings@[c].1.docs@.contains(doc)) by {
                        assert(raw_term_postings(*self, *reader, c).spec_docs().contains(doc));
                    }
                    assert(ps.candidates@.contains(doc));
                    assert(doc < TERMINATED);
                    lemma_seek_index_finds(ps.candidates@, doc);
                }
            }
            return Err(does_not_match(doc));
        }
        proof {
            assert(ps.candidates@[idx as int] == doc);
            assert(ps.candidates@.contains(doc));
            assert forall|c: int| 0 <= c < ps.term_postings@.len() implies (
            #[trigger] ps.term_postings@[c].1).wf() && ps.term_postings@[c].1.docs@.contains(
                doc,
            ) by {
            }
        }
        let count = crate::phrase_scorer::phrase_count_of(&ps.term_postings, doc);
        proof {
            lemma_resolved_count(*self, *reader, 1, ps, doc);
        }
        if count == 0 {
            return Err(does_not_match(doc));
        }
        proof {
            assert(ps.term_postings@[0].1.docs@.contains(doc));
            assert forall|c: int| 0 <= c < self.phrase_terms@.len() implies
                #[trigger] raw_term_postings(*self, *reader, c).spec_docs().contains(doc) by {
                assert(ps.term_postings@[c].1.docs@.contains(doc));
            }
            assert(phrase_weight_matches(*self, *reader, doc));
        }
        let fieldnorm_reader = self.fieldnorm_reader(reader);
        let fieldnorm_id = fieldnorm_reader.fieldnorm_id(doc);
        let score = if ps.score_needed {
            ps.similarity.score(fieldnorm_id, count)
        } else {
            0
        };
        let mut explanation = Explanation::new(ExplanationKind::PhraseScorer, score);
        explanation.add_detail(ps.similarity.explain(fieldnorm_id, count));
        proof {
            assert(explanation.details@.len() == 1);
            assert(explanation.details@[0].value == phrase_similarity_value(
                *self,
                *reader,
                doc,
            ));
            assert(crate::weight::phrase_explain_ok(*self, *reader, doc, explanation));
        }
        Ok(explanation)
    }
}

} // verus!
