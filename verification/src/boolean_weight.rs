//! The boolean weight: assembles sub-weights grouped by occurrence
//! requirement into the scorer tree — `Should` clauses into a union, `Must`
//! clauses into an intersection, both combined for scoring with the
//! optional side as a bonus, and `MustNot` clauses as an exclusion set.
//! Zero clauses, and a single `MustNot` clause, give the empty scorer; a
//! single positive clause gives that clause's scorer unchanged.

use vstd::prelude::*;
use crate::{DocId, Score};
use crate::docset::{lemma_seek_index_finds, lemma_index_unique};
use crate::scorer::VecScorer;
use crate::score_combiner::{
    sat_add, sat_mul, sat_sum, ScoreCombiner, DoNothingCombiner, SumWithCoordsCombiner,
};
use crate::union::{scorer_union, union_contains, matching_scores, score_at};
use crate::intersection::{intersect_scorers, intersection_contains, sum_scores_at};
use crate::exclude::exclude;
use crate::required_optional::required_optional;
use crate::postings::SegmentReader;
use crate::explanation::{Explanation, ExplanationKind, QueryError, does_not_match};
use crate::weight::{
    Occur, SubWeight, Weight, sub_wf, seq_wf, sub_matches, boolean_matches, sub_score,
    boolean_score, sub_explain_value, boolean_explain_value, sub_explain_ok, boolean_explain_ok,
    positive_detail_values, filter_occur, count_occur, matching_occur_scores, occur_scores_sum,
    any_should_matches,
};

verus! {

/// Weight of a boolean query node: its clauses, each tagged with an
/// occurrence requirement, and whether scoring is enabled.
pub struct BooleanWeight {
    pub weights: Vec<(Occur, SubWeight)>,
    pub scoring_enabled: bool,
}

impl BooleanWeight {
    pub fn new(weights: Vec<(Occur, SubWeight)>, scoring_enabled: bool) -> (w: BooleanWeight)
        ensures
            w.weights@ == weights@,
            w.scoring_enabled == scoring_enabled,
    {
        BooleanWeight { weights, scoring_enabled }
    }
}

/// Whether a clause with this occurrence can contribute to a positive
/// match (and so to the score).
pub fn is_positive_occur(occur: Occur) -> (r: bool)
    ensures
        r <==> occur != Occur::MustNot,
{
    match occur {
        Occur::Must | Occur::Should => true,
        Occur::MustNot => false,
    }
}

/// The scorer `s` evaluates the sub-weight `w` on this segment: same
/// documents, and the weight's score at each of them.
pub open spec fn scorer_matches_weight(
    s: VecScorer,
    w: SubWeight,
    reader: SegmentReader,
    boost: Score,
) -> bool {
    &&& s.wf()
    &&& (forall|d: DocId| s.docs@.contains(d) <==> sub_matches(w, reader, d))
    &&& (forall|k: int| 0 <= k < s.docs@.len() ==> s.scores@[k] == sub_score(
        w,
        reader,
        boost,
        s.docs@[k],
    ))
}

/// The bucket `bs` holds, in clause order, one evaluating scorer per clause
/// of `ws` carrying the occurrence `o`.
pub open spec fn bucket_ok(
    bs: Seq<VecScorer>,
    ws: Seq<(Occur, SubWeight)>,
    o: Occur,
    reader: SegmentReader,
    boost: Score,
) -> bool {
    &&& bs.len() == filter_occur(ws, o).len()
    &&& (forall|k: int| 0 <= k < bs.len() ==> scorer_matches_weight(
        #[trigger] bs[k],
        filter_occur(ws, o)[k],
        reader,
        boost,
    ))
}

/// At a document an evaluating scorer matches, its score is the weight's.
proof fn lemma_score_at_weight(
    s: VecScorer,
    w: SubWeight,
    reader: SegmentReader,
    boost: Score,
    d: DocId,
)
    requires
        scorer_matches_weight(s, w, reader, boost),
        s.docs@.contains(d),
    ensures
        score_at(s, d) == sub_score(w, reader, boost, d),
{
    let widx = choose|widx: int| 0 <= widx < s.docs@.len() && s.docs@[widx] == d;
    lemma_index_unique(s.docs@, widx, d);
}

/// A bucket evaluates its occurrence's clauses: membership across the
/// bucket mirrors the clauses, and the gathered matching scores are the
/// clauses' matching scores.
proof fn lemma_bucket_matching(
    bs: Seq<VecScorer>,
    ws: Seq<(Occur, SubWeight)>,
    o: Occur,
    reader: SegmentReader,
    boost: Score,
    d: DocId,
)
    requires
        bucket_ok(bs, ws, o, reader, boost),
    ensures
        matching_scores(bs, d) == matching_occur_scores(ws, reader, boost, d, o),
        union_contains(bs, d) <==> (exists|i: int| 0 <= i < ws.len() && (#[trigger] ws[i]).0 == o
            && sub_matches(ws[i].1, reader, d)),
        intersection_contains(bs, d) <==> (forall|i: int| 0 <= i < ws.len() && (
        #[trigger] ws[i]).0 == o ==> sub_matches(ws[i].1, reader, d)),
    decreases ws.len(),
{
    if ws.len() == 0 {
        assert(bs.len() == 0);
        assert(matching_scores(bs, d) =~= matching_occur_scores(ws, reader, boost, d, o));
    } else {
        let pre_ws = ws.drop_last();
        let last = ws.last();
        assert(forall|i: int| 0 <= i < pre_ws.len() ==> pre_ws[i] == ws[i]);
        if last.0 == o {
            let n = bs.len();
            assert(n >= 1);
            let pre_bs = bs.drop_last();
            assert(forall|k: int| 0 <= k < pre_bs.len() ==> pre_bs[k] == bs[k]);
            assert(filter_occur(ws, o) == filter_occur(pre_ws, o).push(last.1));
            assert forall|k: int| 0 <= k < pre_bs.len() implies scorer_matches_weight(
                #[trigger] pre_bs[k],
                filter_occur(pre_ws, o)[k],
                reader,
                boost,
            ) by {
                assert(filter_occur(ws, o)[k] == filter_occur(pre_ws, o)[k]);
            }
            lemma_bucket_matching(pre_bs, pre_ws, o, reader, boost, d);
            assert(filter_occur(ws, o)[n - 1] == last.1);
            assert(scorer_matches_weight(bs[n - 1], last.1, reader, boost));
            assert(bs.last() == bs[n - 1]);
            if bs.last().docs@.contains(d) {
                lemma_score_at_weight(bs.last(), last.1, reader, boost, d);
            }
            // Membership both ways.
            assert forall|i: int|
                0 <= i < ws.len() && (#[trigger] ws[i]).0 == o && sub_matches(ws[i].1, reader, d)
                    implies union_contains(bs, d) by {
                if i < ws.len() - 1 {
                    assert(pre_ws[i].0 == o && sub_matches(pre_ws[i].1, reader, d));
                    let k = choose|k: int| 0 <= k < pre_bs.len() && pre_bs[k].docs@.contains(d);
                    assert(bs[k].docs@.contains(d));
                } else {
                    assert(bs[n - 1].docs@.contains(d));
                }
            }
            if union_contains(bs, d) {
                let k = choose|k: int| 0 <= k < bs.len() && bs[k].docs@.contains(d);
                if k < n - 1 {
                    assert(pre_bs[k].docs@.contains(d));
                    let i = choose|i: int| 0 <= i < pre_ws.len() && (#[trigger] pre_ws[i]).0 == o
                        && sub_matches(pre_ws[i].1, reader, d);
                    assert(ws[i].0 == o && sub_matches(ws[i].1, reader, d));
                } else {
                    assert(sub_matches(last.1, reader, d));
                    assert(ws[ws.len() - 1].0 == o);
                }
            }
            if intersection_contains(bs, d) {
                assert(intersection_contains(pre_bs, d));
                assert forall|i: int| 0 <= i < ws.len() && (#[trigger] ws[i]).0 == o implies
                    sub_matches(ws[i].1, reader, d) by {
                    if i < ws.len() - 1 {
                        assert(pre_ws[i].0 == o);
                    } else {
                        assert(bs[n - 1].docs@.contains(d));
                    }
                }
            }
            if forall|i: int| 0 <= i < ws.len() && (#[trigger] ws[i]).0 == o ==> sub_matches(
                ws[i].1,
                reader,
                d,
            ) {
                assert forall|k: int| 0 <= k < bs.len() implies (
                #[trigger] bs[k]).docs@.contains(d) by {
                    if k < n - 1 {
                        assert(intersection_contains(pre_bs, d));
                        assert(pre_bs[k].docs@.contains(d));
                    } else {
                        assert(ws[ws.len() - 1].0 == o);
                        assert(sub_matches(last.1, reader, d));
                    }
                }
            }
        } else {
            assert(filter_occur(ws, o) == filter_occur(pre_ws, o));
            lemma_bucket_matching(bs, pre_ws, o, reader, boost, d);
            assert forall|i: int|
                0 <= i < ws.len() && (#[trigger] ws[i]).0 == o && sub_matches(ws[i].1, reader, d)
                    implies (exists|j: int| 0 <= j < pre_ws.len() && (#[trigger] pre_ws[j]).0 == o
                && sub_matches(pre_ws[j].1, reader, d)) by {
                assert(i < ws.len() - 1);
                assert(pre_ws[i].0 == o && sub_matches(pre_ws[i].1, reader, d));
            }
            if forall|i: int| 0 <= i < ws.len() && (#[trigger] ws[i]).0 == o ==> sub_matches(
                ws[i].1,
                reader,
                d,
            ) {
                assert forall|j: int| 0 <= j < pre_ws.len() && (#[trigger] pre_ws[j]).0 == o
                    implies sub_matches(pre_ws[j].1, reader, d) by {
                    assert(ws[j].0 == o);
                }
            }
            if forall|j: int| 0 <= j < pre_ws.len() && (#[trigger] pre_ws[j]).0 == o
                ==> sub_matches(pre_ws[j].1, reader, d) {
                assert forall|i: int| 0 <= i < ws.len() && (#[trigger] ws[i]).0 == o implies
                    sub_matches(ws[i].1, reader, d) by {
                    assert(i < ws.len() - 1);
                    assert(pre_ws[i].0 == o);
                }
            }
        }
    }
}

/// When every `o` clause matches `d`, the bucket's saturating score sum at
/// `d` is the clauses' score sum.
proof fn lemma_bucket_sum(
    bs: Seq<VecScorer>,
    ws: Seq<(Occur, SubWeight)>,
    o: Occur,
    reader: SegmentReader,
    boost: Score,
    d: DocId,
)
    requires
        bucket_ok(bs, ws, o, reader, boost),
        forall|i: int| 0 <= i < ws.len() && (#[trigger] ws[i]).0 == o ==> sub_matches(
            ws[i].1,
            reader,
            d,
        ),
    ensures
        sum_scores_at(bs, d) == occur_scores_sum(ws, reader, boost, d, o),
    decreases ws.len(),
{
    if ws.len() == 0 {
        assert(bs.len() == 0);
    } else {
        let pre_ws = ws.drop_last();
        let last = ws.last();
        assert(forall|i: int| 0 <= i < pre_ws.len() ==> pre_ws[i] == ws[i]);
        assert forall|i: int| 0 <= i < pre_ws.len() && (#[trigger] pre_ws[i]).0 == o implies
            sub_matches(pre_ws[i].1, reader, d) by {
            assert(ws[i].0 == o);
        }
        if last.0 == o {
            let n = bs.len();
            assert(filter_occur(ws, o) == filter_occur(pre_ws, o).push(last.1));
            assert(n >= 1);
            let pre_bs = bs.drop_last();
            assert(forall|k: int| 0 <= k < pre_bs.len() ==> pre_bs[k] == bs[k]);
            assert forall|k: int| 0 <= k < pre_bs.len() implies scorer_matches_weight(
                #[trigger] pre_bs[k],
                filter_occur(pre_ws, o)[k],
                reader,
                boost,
            ) by {
                assert(filter_occur(ws, o)[k] == filter_occur(pre_ws, o)[k]);
            }
            lemma_bucket_sum(pre_bs, pre_ws, o, reader, boost, d);
            assert(filter_occur(ws, o)[n - 1] == last.1);
            assert(bs.last() == bs[n - 1]);
            assert(scorer_matches_weight(bs.last(), last.1, reader, boost));
            assert(ws[ws.len() - 1].0 == o);
            assert(sub_matches(last.1, reader, d));
            assert(bs.last().docs@.contains(d));
            lemma_score_at_weight(bs.last(), last.1, reader, boost, d);
        } else {
            assert(filter_occur(ws, o) == filter_occur(pre_ws, o));
            lemma_bucket_sum(bs, pre_ws, o, reader, boost, d);
        }
    }
}

/// Builds the evaluating scorer of a sub-weight for one segment.
pub fn build_weight_scorer(w: &SubWeight, reader: &SegmentReader, boost: Score) -> (r: Result<
    VecScorer,
    QueryError,
>)
    requires
        sub_wf(*w),
        reader.wf(),
    ensures
        r.is_ok(),
        r.is_ok() ==> {
            let s = r.unwrap();
            &&& scorer_matches_weight(s, *w, *reader, boost)
            &&& s.pos == 0
        },
    decreases *w, 2int,
{
    match w {
        SubWeight::Boolean(bw) => {
            let s = match build_boolean_scorer(bw, reader, boost) {
                Ok(s) => s,
                Err(e) => {
                    return Err(e);
                },
            };
            proof {
                assert(sub_wf(*w) == seq_wf(bw.weights@));
                assert(forall|d: DocId| sub_matches(*w, *reader, d) == boolean_matches(
                    **bw,
                    *reader,
                    d,
                ));
                assert(forall|d: DocId| sub_score(*w, *reader, boost, d) == boolean_score(
                    **bw,
                    *reader,
                    boost,
                    d,
                ));
            }
            Ok(s)
        },
        SubWeight::Phrase(pw) => {
            let s = match pw.scorer(reader, boost) {
                Ok(s) => s,
                Err(e) => {
                    return Err(e);
                },
            };
            proof {
                assert(forall|d: DocId| sub_matches(*w, *reader, d)
                    == crate::phrase_weight::phrase_weight_matches(*pw, *reader, d));
                assert(forall|d: DocId| sub_score(*w, *reader, boost, d)
                    == crate::phrase_weight::phrase_weight_score(*pw, *reader, boost, d));
                assert(scorer_matches_weight(s, *w, *reader, boost));
            }
            Ok(s)
        },
    }
}

/// One evaluating scorer per clause, grouped by occurrence requirement:
/// `(Must, Should, MustNot)` buckets, each in clause order.
fn per_occur_scorers(bw: &BooleanWeight, reader: &SegmentReader, boost: Score) -> (r: Result<
    (Vec<VecScorer>, Vec<VecScorer>, Vec<VecScorer>),
    QueryError,
>)
    requires
        seq_wf(bw.weights@),
        reader.wf(),
    ensures
        r.is_ok(),
        r.is_ok() ==> {
            let (musts, shoulds, mustnots) = r.unwrap();
            &&& bucket_ok(musts@, bw.weights@, Occur::Must, *reader, boost)
            &&& bucket_ok(shoulds@, bw.weights@, Occur::Should, *reader, boost)
            &&& bucket_ok(mustnots@, bw.weights@, Occur::MustNot, *reader, boost)
        },
    decreases *bw, 0int,
{
    let ws_len = bw.weights.len();
    let mut musts: Vec<VecScorer> = Vec::new();
    let mut shoulds: Vec<VecScorer> = Vec::new();
    let mut mustnots: Vec<VecScorer> = Vec::new();
    let mut i: usize = 0;
    proof {
        assert(bw.weights@.take(0) =~= Seq::<(Occur, SubWeight)>::empty());
    }
    while i < bw.weights.len()
        invariant
            seq_wf(bw.weights@),
            reader.wf(),
            i <= bw.weights@.len(),
            bucket_ok(musts@, bw.weights@.take(i as int), Occur::Must, *reader, boost),
            bucket_ok(shoulds@, bw.weights@.take(i as int), Occur::Should, *reader, boost),
            bucket_ok(mustnots@, bw.weights@.take(i as int), Occur::MustNot, *reader, boost),
        decreases bw.weights@.len() - i,
    {
        let ghost oi = i as int;
        let ghost pre = bw.weights@.take(oi);
        let occur = bw.weights[i].0;
        let scorer = match build_weight_scorer(&bw.weights[i].1, reader, boost) {
            Ok(s) => s,
            Err(e) => {
                return Err(e);
            },
        };
        proof {
            assert(bw.weights@.take(oi + 1).drop_last() =~= pre);
            assert(bw.weights@.take(oi + 1).last() == bw.weights@[oi]);
        }
        match occur {
            Occur::Must => musts.push(scorer),
            Occur::Should => shoulds.push(scorer),
            Occur::MustNot => mustnots.push(scorer),
        }
        i = i + 1;
        proof {
            let now = bw.weights@.take(i as int);
            assert(filter_occur(now, Occur::Must) == if bw.weights@[oi].0 == Occur::Must {
                filter_occur(pre, Occur::Must).push(bw.weights@[oi].1)
            } else {
                filter_occur(pre, Occur::Must)
            });
            assert(filter_occur(now, Occur::Should) == if bw.weights@[oi].0 == Occur::Should {
                filter_occur(pre, Occur::Should).push(bw.weights@[oi].1)
            } else {
                filter_occur(pre, Occur::Should)
            });
            assert(filter_occur(now, Occur::MustNot) == if bw.weights@[oi].0 == Occur::MustNot {
                filter_occur(pre, Occur::MustNot).push(bw.weights@[oi].1)
            } else {
                filter_occur(pre, Occur::MustNot)
            });
        }
    }
    proof {
        assert(bw.weights@.take(i as int) =~= bw.weights@);
    }
    Ok((musts, shoulds, mustnots))
}

/// Assembles the scorer of a boolean node with two or more clauses.
fn complex_scorer(bw: &BooleanWeight, reader: &SegmentReader, boost: Score) -> (r: Result<
    VecScorer,
    QueryError,
>)
    requires
        seq_wf(bw.weights@),
        reader.wf(),
        bw.weights@.len() >= 2,
    ensures
        r.is_ok(),
        r.is_ok() ==> {
            let s = r.unwrap();
            &&& s.wf()
            &&& (forall|d: DocId| s.docs@.contains(d) <==> boolean_matches(*bw, *reader, d))
            &&& (forall|k: int| 0 <= k < s.docs@.len() ==> s.scores@[k] == boolean_score(
                *bw,
                *reader,
                boost,
                s.docs@[k],
            ))
        },
    decreases *bw, 1int,
{
    let ghost ws = bw.weights@;
    let (musts, shoulds, mustnots) = per_occur_scorers(bw, reader, boost)?;
    let scoring_enabled = bw.scoring_enabled;

    let positive: VecScorer = if musts.len() > 0 && shoulds.len() > 0 {
        let ghost musts_view = musts@;
        let ghost shoulds_view = shoulds@;
        let must_scorer = intersect_scorers(musts);
        if scoring_enabled {
            let should_scorer = scorer_union::<SumWithCoordsCombiner>(shoulds);
            let combined = required_optional(must_scorer, should_scorer);
            proof {
                lemma_positive_both(
                    musts_view, shoulds_view, must_scorer, should_scorer, combined,
                    *bw, *reader, boost,
                );
            }
            combined
        } else {
            proof {
                lemma_positive_must_only(musts_view, must_scorer, *bw, *reader, boost);
            }
            must_scorer
        }
    } else if musts.len() > 0 {
        let ghost musts_view = musts@;
        let must_scorer = intersect_scorers(musts);
        proof {
            lemma_positive_must_only(musts_view, must_scorer, *bw, *reader, boost);
        }
        must_scorer
    } else if shoulds.len() > 0 {
        let ghost shoulds_view = shoulds@;
        let should_scorer = if scoring_enabled {
            scorer_union::<SumWithCoordsCombiner>(shoulds)
        } else {
            scorer_union::<DoNothingCombiner>(shoulds)
        };
        proof {
            lemma_positive_should_only(
                shoulds_view, should_scorer, *bw, *reader, boost, scoring_enabled,
            );
        }
        should_scorer
    } else {
        let empty = VecScorer::empty();
        proof {
            assert(count_occur(ws, Occur::Must) == 0);
            assert(count_occur(ws, Occur::Should) == 0);
            assert(forall|d: DocId| !positive_matches_spec(*bw, *reader, d));
        }
        empty
    };

    proof {
        assert(forall|d: DocId| positive.docs@.contains(d) <==> positive_matches_spec(
            *bw,
            *reader,
            d,
        ));
        assert(forall|k: int| 0 <= k < positive.docs@.len() ==> positive.scores@[k]
            == boolean_score(*bw, *reader, boost, positive.docs@[k]));
    }
    let ghost gpos = positive;
    if mustnots.len() > 0 {
        let ghost mustnots_view = mustnots@;
        // The exclusion side's scores never contribute, so no combining is
        // needed over it.
        let exclusion = scorer_union::<DoNothingCombiner>(mustnots);
        let result = exclude(positive, exclusion);
        proof {
            assert forall|d: DocId| exclusion.docs@.contains(d) <==> (exists|i: int|
                0 <= i < ws.len() && (#[trigger] ws[i]).0 == Occur::MustNot && sub_matches(
                    ws[i].1,
                    *reader,
                    d,
                )) by {
                lemma_bucket_matching(mustnots_view, ws, Occur::MustNot, *reader, boost, d);
            }
            assert forall|d: DocId| result.docs@.contains(d) <==> boolean_matches(
                *bw,
                *reader,
                d,
            ) by {
                assert(result.docs@.contains(d) <==> (gpos.docs@.contains(d)
                    && !exclusion.docs@.contains(d)));
                assert(gpos.docs@.contains(d) <==> positive_matches_spec(*bw, *reader, d));
                assert(boolean_matches(*bw, *reader, d) == (positive_matches_spec(*bw, *reader, d)
                    && !(exists|i: int| 0 <= i < ws.len() && (#[trigger] ws[i]).0
                    == Occur::MustNot && sub_matches(ws[i].1, *reader, d))));
            }
            assert forall|k: int| 0 <= k < result.docs@.len() implies result.scores@[k]
                == boolean_score(*bw, *reader, boost, result.docs@[k]) by {
                let d = result.docs@[k];
                assert(result.scores@[k] == score_at(positive, d));
                assert(positive.docs@.contains(d));
                let w = choose|w: int| 0 <= w < positive.docs@.len() && positive.docs@[w] == d;
                lemma_index_unique(positive.docs@, w, d);
            }
        }
        Ok(result)
    } else {
        proof {
            assert forall|d: DocId| positive.docs@.contains(d) <==> boolean_matches(
                *bw,
                *reader,
                d,
            ) by {
                if exists|i: int| 0 <= i < ws.len() && (#[trigger] ws[i]).0 == Occur::MustNot
                    && sub_matches(ws[i].1, *reader, d) {
                    let i = choose|i: int| 0 <= i < ws.len() && (#[trigger] ws[i]).0
                        == Occur::MustNot && sub_matches(ws[i].1, *reader, d);
                    assert(filter_occur(ws, Occur::MustNot).len() > 0) by {
                        lemma_filter_member(ws, Occur::MustNot, i);
                    }
                }
                assert(positive.docs@.contains(d) <==> positive_matches_spec(*bw, *reader, d));
                assert(boolean_matches(*bw, *reader, d) == (positive_matches_spec(*bw, *reader, d)
                    && !(exists|i: int| 0 <= i < ws.len() && (#[trigger] ws[i]).0
                    == Occur::MustNot && sub_matches(ws[i].1, *reader, d))));
            }
        }
        Ok(positive)
    }
}

/// Whether the positive (non-excluding) side of a multi-clause boolean node
/// matches `d`.
pub open spec fn positive_matches_spec(bw: BooleanWeight, reader: SegmentReader, d: DocId) -> bool {
    let ws = bw.weights@;
    if count_occur(ws, Occur::Must) > 0 {
        forall|i: int| 0 <= i < ws.len() && (#[trigger] ws[i]).0 == Occur::Must ==> sub_matches(
            ws[i].1,
            reader,
            d,
        )
    } else if count_occur(ws, Occur::Should) > 0 {
        any_should_matches(ws, reader, d)
    } else {
        false
    }
}

/// A clause with occurrence `o` makes the `o` bucket non-empty.
proof fn lemma_filter_member(ws: Seq<(Occur, SubWeight)>, o: Occur, i: int)
    requires
        0 <= i < ws.len(),
        ws[i].0 == o,
    ensures
        filter_occur(ws, o).len() > 0,
    decreases ws.len(),
{
    if i == ws.len() - 1 {
    } else {
        assert(ws.drop_last()[i] == ws[i]);
        lemma_filter_member(ws.drop_last(), o, i);
    }
}

/// The positive scorer of a node with `Must` and `Should` clauses under
/// scoring: required/optional over the two buckets.
proof fn lemma_positive_both(
    musts: Seq<VecScorer>,
    shoulds: Seq<VecScorer>,
    must_scorer: VecScorer,
    should_scorer: VecScorer,
    combined: VecScorer,
    bw: BooleanWeight,
    reader: SegmentReader,
    boost: Score,
)
    requires
        bw.weights@.len() >= 2,
        bw.scoring_enabled,
        bucket_ok(musts, bw.weights@, Occur::Must, reader, boost),
        bucket_ok(shoulds, bw.weights@, Occur::Should, reader, boost),
        musts.len() >= 1,
        shoulds.len() >= 1,
        must_scorer.wf(),
        forall|d: DocId| must_scorer.docs@.contains(d) <==> intersection_contains(musts, d),
        musts.len() == 1 ==> must_scorer == musts[0],
        musts.len() >= 2 ==> forall|k: int| 0 <= k < must_scorer.docs@.len()
            ==> must_scorer.scores@[k] == sum_scores_at(musts, must_scorer.docs@[k]),
        should_scorer.wf(),
        forall|d: DocId| should_scorer.docs@.contains(d) <==> union_contains(shoulds, d),
        shoulds.len() == 1 ==> should_scorer == shoulds[0],
        shoulds.len() >= 2 ==> forall|k: int| 0 <= k < should_scorer.docs@.len()
            ==> should_scorer.scores@[k] == SumWithCoordsCombiner::combine_spec(
            matching_scores(shoulds, should_scorer.docs@[k]),
            shoulds.len() as int,
        ),
        combined.wf(),
        combined.docs@ == must_scorer.docs@,
        combined.scores@.len() == must_scorer.scores@.len(),
        forall|k: int| 0 <= k < combined.docs@.len() ==> combined.scores@[k] == (
            if should_scorer.docs@.contains(must_scorer.docs@[k]) {
                sat_add(must_scorer.scores@[k], score_at(should_scorer, must_scorer.docs@[k]))
            } else {
                must_scorer.scores@[k]
            }
        ),
    ensures
        forall|d: DocId| combined.docs@.contains(d) <==> positive_matches_spec(bw, reader, d),
        forall|k: int| 0 <= k < combined.docs@.len() ==> combined.scores@[k] == boolean_score(
            bw,
            reader,
            boost,
            combined.docs@[k],
        ),
{
    let ws = bw.weights@;
    assert(count_occur(ws, Occur::Must) == musts.len());
    assert(count_occur(ws, Occur::Should) == shoulds.len());
    assert forall|d: DocId| combined.docs@.contains(d) <==> positive_matches_spec(
        bw,
        reader,
        d,
    ) by {
        lemma_bucket_matching(musts, ws, Occur::Must, reader, boost, d);
    }
    assert forall|k: int| 0 <= k < combined.docs@.len() implies combined.scores@[k]
        == boolean_score(bw, reader, boost, combined.docs@[k]) by {
        let d = combined.docs@[k];
        assert(combined.docs@.contains(d));
        assert(must_scorer.docs@.contains(d));
        lemma_bucket_matching(musts, ws, Occur::Must, reader, boost, d);
        lemma_bucket_matching(shoulds, ws, Occur::Should, reader, boost, d);
        lemma_bucket_sum(musts, ws, Occur::Must, reader, boost, d);
        // The must side's score at this position.
        lemma_index_unique(must_scorer.docs@, k, d);
        if musts.len() == 1 {
            assert(sum_scores_at(musts, d) == sat_add(
                sum_scores_at(musts.drop_last(), d),
                score_at(musts.last(), d),
            ));
            assert(musts.drop_last().len() == 0);
            assert(musts.last() == musts[0]);
            lemma_score_at_weight(musts[0], filter_occur(ws, Occur::Must)[0], reader, boost, d);
            assert(must_scorer.scores@[k] == score_at(must_scorer, d));
        } else {
            assert(must_scorer.scores@[k] == sum_scores_at(musts, d));
        }
        assert(must_scorer.scores@[k] == occur_scores_sum(ws, reader, boost, d, Occur::Must));
        // The should side's bonus where it matches.
        if should_scorer.docs@.contains(d) {
            assert(union_contains(shoulds, d));
            assert(any_should_matches(ws, reader, d));
            let sw = choose|sw: int| 0 <= sw < should_scorer.docs@.len()
                && should_scorer.docs@[sw] == d;
            lemma_index_unique(should_scorer.docs@, sw, d);
            if shoulds.len() == 1 {
                assert(shoulds[0].docs@.contains(d));
                lemma_score_at_weight(
                    shoulds[0], filter_occur(ws, Occur::Should)[0], reader, boost, d,
                );
                assert(matching_scores(shoulds, d) == matching_scores(
                    shoulds.drop_last(),
                    d,
                ).push(score_at(shoulds[0], d)));
                assert(matching_scores(shoulds.drop_last(), d) =~= Seq::<Score>::empty());
                let single = matching_occur_scores(ws, reader, boost, d, Occur::Should);
                assert(single.len() == 1);
                let v = single[0];
                assert(sat_sum(single) == sat_add(sat_sum(single.drop_last()), v));
                assert(single.drop_last() =~= Seq::<Score>::empty());
                assert(sat_sum(single) == v);
                assert(sat_mul(v, 1) == v) by {
                    assert(v * 1 == v) by (nonlinear_arith);
                }
                assert(SumWithCoordsCombiner::combine_spec(single, 1int) == v);
                assert(score_at(should_scorer, d) == v);
            } else {
                assert(should_scorer.scores@[sw] == SumWithCoordsCombiner::combine_spec(
                    matching_scores(shoulds, d),
                    shoulds.len() as int,
                ));
            }
            assert(score_at(should_scorer, d) == SumWithCoordsCombiner::combine_spec(
                matching_occur_scores(ws, reader, boost, d, Occur::Should),
                count_occur(ws, Occur::Should) as int,
            ));
        } else {
            assert(!union_contains(shoulds, d));
            assert(!any_should_matches(ws, reader, d));
        }
    }
}

/// The positive scorer of a node whose positive side is its `Must` bucket
/// alone (no `Should` clause, or scoring disabled).
proof fn lemma_positive_must_only(
    musts: Seq<VecScorer>,
    must_scorer: VecScorer,
    bw: BooleanWeight,
    reader: SegmentReader,
    boost: Score,
)
    requires
        bw.weights@.len() >= 2,
        bucket_ok(musts, bw.weights@, Occur::Must, reader, boost),
        musts.len() >= 1,
        must_scorer.wf(),
        forall|d: DocId| must_scorer.docs@.contains(d) <==> intersection_contains(musts, d),
        musts.len() == 1 ==> must_scorer == musts[0],
        musts.len() >= 2 ==> forall|k: int| 0 <= k < must_scorer.docs@.len()
            ==> must_scorer.scores@[k] == sum_scores_at(musts, must_scorer.docs@[k]),
        !bw.scoring_enabled || count_occur(bw.weights@, Occur::Should) == 0,
    ensures
        forall|d: DocId| must_scorer.docs@.contains(d) <==> positive_matches_spec(bw, reader, d),
        forall|k: int| 0 <= k < must_scorer.docs@.len() ==> must_scorer.scores@[k]
            == boolean_score(bw, reader, boost, must_scorer.docs@[k]),
{
    let ws = bw.weights@;
    assert(count_occur(ws, Occur::Must) == musts.len());
    assert forall|d: DocId| must_scorer.docs@.contains(d) <==> positive_matches_spec(
        bw,
        reader,
        d,
    ) by {
        lemma_bucket_matching(musts, ws, Occur::Must, reader, boost, d);
    }
    assert forall|k: int| 0 <= k < must_scorer.docs@.len() implies must_scorer.scores@[k]
        == boolean_score(bw, reader, boost, must_scorer.docs@[k]) by {
        let d = must_scorer.docs@[k];
        assert(must_scorer.docs@.contains(d));
        lemma_bucket_matching(musts, ws, Occur::Must, reader, boost, d);
        lemma_bucket_sum(musts, ws, Occur::Must, reader, boost, d);
        lemma_index_unique(must_scorer.docs@, k, d);
        if musts.len() == 1 {
            assert(sum_scores_at(musts, d) == sat_add(
                sum_scores_at(musts.drop_last(), d),
                score_at(musts.last(), d),
            ));
            assert(musts.drop_last().len() == 0);
            assert(musts.last() == musts[0]);
            assert(must_scorer.scores@[k] == score_at(must_scorer, d));
        } else {
            assert(must_scorer.scores@[k] == sum_scores_at(musts, d));
        }
        assert(must_scorer.scores@[k] == occur_scores_sum(ws, reader, boost, d, Occur::Must));
    }
}

/// The positive scorer of a node with only `Should` clauses on its positive
/// side: their union.
proof fn lemma_positive_should_only(
    shoulds: Seq<VecScorer>,
    should_scorer: VecScorer,
    bw: BooleanWeight,
    reader: SegmentReader,
    boost: Score,
    scoring: bool,
)
    requires
        bw.weights@.len() >= 2,
        scoring == bw.scoring_enabled,
        bucket_ok(shoulds, bw.weights@, Occur::Should, reader, boost),
        shoulds.len() >= 1,
        count_occur(bw.weights@, Occur::Must) == 0,
        should_scorer.wf(),
        forall|d: DocId| should_scorer.docs@.contains(d) <==> union_contains(shoulds, d),
        shoulds.len() == 1 ==> should_scorer == shoulds[0],
        scoring ==> (shoulds.len() >= 2 ==> forall|k: int| 0 <= k < should_scorer.docs@.len()
            ==> should_scorer.scores@[k] == SumWithCoordsCombiner::combine_spec(
            matching_scores(shoulds, should_scorer.docs@[k]),
            shoulds.len() as int,
        )),
        !scoring ==> (shoulds.len() >= 2 ==> forall|k: int| 0 <= k < should_scorer.docs@.len()
            ==> should_scorer.scores@[k] == DoNothingCombiner::combine_spec(
            matching_scores(shoulds, should_scorer.docs@[k]),
            shoulds.len() as int,
        )),
    ensures
        forall|d: DocId| should_scorer.docs@.contains(d) <==> positive_matches_spec(bw, reader, d),
        forall|k: int| 0 <= k < should_scorer.docs@.len() ==> should_scorer.scores@[k]
            == boolean_score(bw, reader, boost, should_scorer.docs@[k]),
{
    let ws = bw.weights@;
    assert(count_occur(ws, Occur::Should) == shoulds.len());
    assert forall|d: DocId| should_scorer.docs@.contains(d) <==> positive_matches_spec(
        bw,
        reader,
        d,
    ) by {
        lemma_bucket_matching(shoulds, ws, Occur::Should, reader, boost, d);
    }
    assert forall|k: int| 0 <= k < should_scorer.docs@.len() implies should_scorer.scores@[k]
        == boolean_score(bw, reader, boost, should_scorer.docs@[k]) by {
        let d = should_scorer.docs@[k];
        assert(should_scorer.docs@.contains(d));
        lemma_bucket_matching(shoulds, ws, Occur::Should, reader, boost, d);
        lemma_index_unique(should_scorer.docs@, k, d);
        if shoulds.len() == 1 {
            assert(shoulds[0].docs@.contains(d));
            lemma_score_at_weight(shoulds[0], filter_occur(ws, Occur::Should)[0], reader, boost, d);
            assert(matching_scores(shoulds, d) == matching_scores(shoulds.drop_last(), d).push(
                score_at(shoulds[0], d),
            ));
            assert(matching_scores(shoulds.drop_last(), d) =~= Seq::<Score>::empty());
            let single = matching_occur_scores(ws, reader, boost, d, Occur::Should);
            assert(single.len() == 1);
            let v = single[0];
            assert(sat_sum(single) == sat_add(sat_sum(single.drop_last()), v));
            assert(single.drop_last() =~= Seq::<Score>::empty());
            assert(sat_sum(single) == v);
            assert(should_scorer.scores@[k] == score_at(should_scorer, d));
            assert(score_at(should_scorer, d) == v);
            if scoring {
                assert(sat_mul(v, 1) == v) by {
                    assert(v * 1 == v) by (nonlinear_arith);
                }
                assert(SumWithCoordsCombiner::combine_spec(single, 1int) == v);
            }
        }
    }
}

/// Explains the score a sub-weight gives `doc`: the "does not match"
/// condition exactly when the sub-weight does not match it.
pub fn explain_weight(w: &SubWeight, reader: &SegmentReader, doc: DocId) -> (r: Result<
    Explanation,
    QueryError,
>)
    requires
        sub_wf(*w),
        reader.wf(),
    ensures
        r.is_err() <==> !sub_matches(*w, *reader, doc),
        r.is_err() ==> r == Result::<Explanation, QueryError>::Err(QueryError::DoesNotMatch(doc)),
        r.is_ok() ==> r.unwrap().value == sub_explain_value(*w, *reader, doc),
        r.is_ok() ==> sub_explain_ok(*w, *reader, doc, r.unwrap()),
    decreases *w, 1int,
{
    match w {
        SubWeight::Boolean(bw) => {
            let r = explain_boolean(bw, reader, doc);
            proof {
                assert(sub_matches(*w, *reader, doc) == boolean_matches(**bw, *reader, doc));
                assert(sub_explain_value(*w, *reader, doc) == boolean_explain_value(
                    **bw,
                    *reader,
                    doc,
                ));
                if r.is_ok() {
                    assert(sub_explain_ok(*w, *reader, doc, r.unwrap())
                        == boolean_explain_ok(**bw, *reader, doc, r.unwrap()));
                }
            }
            r
        },
        SubWeight::Phrase(pw) => {
            let r = pw.explain(reader, doc);
            proof {
                assert(sub_matches(*w, *reader, doc)
                    == crate::phrase_weight::phrase_weight_matches(*pw, *reader, doc));
                assert(sub_explain_value(*w, *reader, doc)
                    == crate::phrase_weight::phrase_weight_score(*pw, *reader, 1, doc));
                if r.is_ok() {
                    assert(sub_explain_ok(*w, *reader, doc, r.unwrap())
                        == crate::weight::phrase_explain_ok(*pw, *reader, doc, r.unwrap()));
                }
            }
            r
        },
    }
}

/// Explains the score a boolean node gives `doc`: builds the scorer,
/// reports "does not match" unless it lands exactly on `doc`, a fixed
/// explanation when scoring is disabled, and otherwise the score with the
/// matching positive clauses' explanations itemized (`MustNot` clauses are
/// never itemized: they do not contribute to the score).
pub fn explain_boolean(bw: &BooleanWeight, reader: &SegmentReader, doc: DocId) -> (r: Result<
    Explanation,
    QueryError,
>)
    requires
        seq_wf(bw.weights@),
        reader.wf(),
    ensures
        r.is_err() <==> !boolean_matches(*bw, *reader, doc),
        r.is_err() ==> r == Result::<Explanation, QueryError>::Err(QueryError::DoesNotMatch(doc)),
        r.is_ok() ==> r.unwrap().value == boolean_explain_value(*bw, *reader, doc),
        r.is_ok() ==> boolean_explain_ok(*bw, *reader, doc, r.unwrap()),
    decreases *bw, 0int,
{
    let scorer = match build_boolean_scorer(bw, reader, 1) {
        Ok(s) => s,
        Err(e) => {
            return Err(e);
        },
    };
    let idx = crate::intersection::seek_from(&scorer.docs, 0, doc);
    let on_doc = idx < scorer.docs.len() && scorer.docs[idx] == doc;
    if !on_doc {
        proof {
            if boolean_matches(*bw, *reader, doc) {
                assert(scorer.docs@.contains(doc));
                lemma_seek_index_finds(scorer.docs@, doc);
            }
        }
        return Err(does_not_match(doc));
    }
    proof {
        assert(scorer.docs@[idx as int] == doc);
        assert(scorer.docs@.contains(doc));
    }
    if !bw.scoring_enabled {
        return Ok(Explanation::new(ExplanationKind::BooleanWithoutScoring, 1));
    }
    let value = scorer.scores[idx];
    proof {
        assert(value == boolean_score(*bw, *reader, 1, doc));
    }
    let mut explanation = Explanation::new(ExplanationKind::BooleanSumOfClauses, value);
    let ghost ws = bw.weights@;
    let mut i: usize = 0;
    proof {
        assert(ws.take(0) =~= Seq::<(Occur, SubWeight)>::empty());
    }
    while i < bw.weights.len()
        invariant
            seq_wf(bw.weights@),
            reader.wf(),
            ws == bw.weights@,
            i <= bw.weights@.len(),
            explanation.value == value,
            explanation.kind == ExplanationKind::BooleanSumOfClauses,
            explanation.details@.len() == positive_detail_values(
                ws.take(i as int),
                *reader,
                doc,
            ).len(),
            forall|k: int| 0 <= k < explanation.details@.len() ==> (
            #[trigger] explanation.details@[k]).value == positive_detail_values(
                ws.take(i as int),
                *reader,
                doc,
            )[k],
        decreases bw.weights@.len() - i,
    {
        let ghost oi = i as int;
        let occur = bw.weights[i].0;
        if is_positive_occur(occur) {
            match explain_weight(&bw.weights[i].1, reader, doc) {
                Ok(child_explanation) => {
                    explanation.add_detail(child_explanation);
                },
                Err(_) => {},
            }
        }
        i = i + 1;
        proof {
            assert(ws.take(i as int).drop_last() =~= ws.take(oi));
            assert(ws.take(i as int).last() == ws[oi]);
        }
    }
    proof {
        assert(ws.take(i as int) =~= ws);
    }
    Ok(explanation)
}

impl Weight for BooleanWeight {
    open spec fn w_wf(&self) -> bool {
        seq_wf(self.weights@)
    }

    open spec fn w_matches(&self, reader: SegmentReader, d: DocId) -> bool {
        boolean_matches(*self, reader, d)
    }

    open spec fn w_score(&self, reader: SegmentReader, boost: Score, d: DocId) -> Score {
        boolean_score(*self, reader, boost, d)
    }

    open spec fn w_explain_value(&self, reader: SegmentReader, d: DocId) -> Score {
        boolean_explain_value(*self, reader, d)
    }

    open spec fn w_explain_ok(&self, reader: SegmentReader, d: DocId, e: Explanation) -> bool {
        boolean_explain_ok(*self, reader, d, e)
    }

    fn scorer(&self, reader: &SegmentReader, boost: Score) -> (r: Result<VecScorer, QueryError>) {
        build_boolean_scorer(self, reader, boost)
    }

    fn explain(&self, reader: &SegmentReader, doc: DocId) -> (r: Result<Explanation, QueryError>) {
        explain_boolean(self, reader, doc)
    }
}

impl Weight for SubWeight {
    open spec fn w_wf(&self) -> bool {
        sub_wf(*self)
    }

    open spec fn w_matches(&self, reader: SegmentReader, d: DocId) -> bool {
        sub_matches(*self, reader, d)
    }

    open spec fn w_score(&self, reader: SegmentReader, boost: Score, d: DocId) -> Score {
        sub_score(*self, reader, boost, d)
    }

    open spec fn w_explain_value(&self, reader: SegmentReader, d: DocId) -> Score {
        sub_explain_value(*self, reader, d)
    }

    open spec fn w_explain_ok(&self, reader: SegmentReader, d: DocId, e: Explanation) -> bool {
        sub_explain_ok(*self, reader, d, e)
    }

    fn scorer(&self, reader: &SegmentReader, boost: Score) -> (r: Result<VecScorer, QueryError>) {
        build_weight_scorer(self, reader, boost)
    }

    fn explain(&self, reader: &SegmentReader, doc: DocId) -> (r: Result<Explanation, QueryError>) {
        explain_weight(self, reader, doc)
    }
}

/// Builds the scorer of a boolean node for one segment.
pub fn build_boolean_scorer(bw: &BooleanWeight, reader: &SegmentReader, boost: Score) -> (r:
    Result<VecScorer, QueryError>)
    requires
        seq_wf(bw.weights@),
        reader.wf(),
    ensures
        r.is_ok(),
        r.is_ok() ==> {
            let s = r.unwrap();
            &&& s.wf()
            &&& s.pos == 0
            &&& (forall|d: DocId| s.docs@.contains(d) <==> boolean_matches(*bw, *reader, d))
            &&& (forall|k: int| 0 <= k < s.docs@.len() ==> s.scores@[k] == boolean_score(
                *bw,
                *reader,
                boost,
                s.docs@[k],
            ))
        },
    decreases *bw, 2int,
{
    if bw.weights.len() == 0 {
        proof {
            assert(forall|d: DocId| !boolean_matches(*bw, *reader, d));
        }
        Ok(VecScorer::empty())
    } else if bw.weights.len() == 1 {
        let occur = bw.weights[0].0;
        if occur == Occur::MustNot {
            proof {
                assert(forall|d: DocId| !boolean_matches(*bw, *reader, d));
            }
            Ok(VecScorer::empty())
        } else {
            let s = build_weight_scorer(&bw.weights[0].1, reader, boost)?;
            proof {
                assert(forall|d: DocId| boolean_matches(*bw, *reader, d) == sub_matches(
                    bw.weights@[0].1,
                    *reader,
                    d,
                ));
                assert(forall|d: DocId| boolean_score(*bw, *reader, boost, d) == sub_score(
                    bw.weights@[0].1,
                    *reader,
                    boost,
                    d,
                ));
            }
            Ok(s)
        }
    } else {
        let s = complex_scorer(bw, reader, boost)?;
        proof {
            crate::docset::lemma_strictly_sorted_len(s.docs@);
        }
        let reset = VecScorer { docs: s.docs, scores: s.scores, pos: 0 };
        Ok(reset)
    }
}

} // verus!
