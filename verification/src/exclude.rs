//! Exclude combinator (AND NOT semantics): drives the positive scorer and
//! seeks the exclusion scorer forward to each candidate; candidates the
//! exclusion scorer lands on are skipped. Scores are always the positive
//! scorer's own — exclusion never contributes to scoring.

use vstd::prelude::*;
use crate::{DocId, Score};
use crate::docset::{
    DocSet, strictly_sorted, doc_at, seek_index, lemma_seek_index_bounds, lemma_seek_index_finds,
    lemma_seek_index_skip, lemma_push_contains, lemma_sorted_push, lemma_index_unique,
};
use crate::scorer::VecScorer;
use crate::union::score_at;

verus! {

/// Removes from `positive` every document present in `excluded`: the result
/// emits exactly the positive documents the exclusion scorer does not
/// match, each keeping its positive score.
pub fn exclude(positive: VecScorer, excluded: VecScorer) -> (out: VecScorer)
    requires
        positive.wf(),
        excluded.wf(),
    ensures
        out.inv(),
        out.cursor() == 0,
        forall|d: DocId| out.docs@.contains(d) <==> (positive.docs@.contains(d)
            && !excluded.docs@.contains(d)),
        forall|k: int| 0 <= k < out.docs@.len() ==> out.scores@[k] == score_at(
            positive,
            out.docs@[k],
        ),
{
    let mut docs: Vec<DocId> = Vec::new();
    let mut scores: Vec<Score> = Vec::new();
    let mut i: usize = 0;
    let mut j: usize = 0;
    while i < positive.docs.len()
        invariant
            positive.wf(),
            excluded.wf(),
            i <= positive.docs@.len(),
            j <= excluded.docs@.len(),
            strictly_sorted(docs@),
            scores@.len() == docs@.len(),
            forall|d: DocId| docs@.contains(d) <==> (positive.docs@.take(i as int).contains(d)
                && !excluded.docs@.contains(d)),
            forall|k: int| 0 <= k < docs@.len() ==> scores@[k] == score_at(positive, docs@[k]),
            docs@.len() > 0 && i < positive.docs@.len() ==> docs@.last()
                < positive.docs@[i as int],
            i < positive.docs@.len() ==> forall|k: int| 0 <= k < j ==> excluded.docs@[k]
                < positive.docs@[i as int],
        decreases positive.docs@.len() - i,
    {
        let ghost old_docs = docs@;
        let ghost oi = i as int;
        let d = positive.docs[i];
        let nj = crate::intersection::seek_from(&excluded.docs, j, d);
        proof {
            lemma_seek_index_skip(excluded.docs@, j as int, d);
            lemma_seek_index_bounds(excluded.docs@, j as int, d);
            lemma_seek_index_finds(excluded.docs@, d);
        }
        j = nj;
        let is_excluded = j < excluded.docs.len() && excluded.docs[j] == d;
        proof {
            assert(is_excluded <==> doc_at(excluded.docs@, seek_index(excluded.docs@, 0, d)) == d);
            assert(is_excluded <==> excluded.docs@.contains(d));
        }
        if !is_excluded {
            proof {
                lemma_sorted_push(docs@, d);
                lemma_index_unique(positive.docs@, oi, d);
            }
            docs.push(d);
            scores.push(positive.scores[i]);
        }
        i = i + 1;
        proof {
            assert(positive.docs@.take(i as int) =~= positive.docs@.take(oi).push(d));
            assert forall|x: DocId| docs@.contains(x) <==> (positive.docs@.take(
                i as int,
            ).contains(x) && !excluded.docs@.contains(x)) by {
                lemma_push_contains(positive.docs@.take(oi), d, x);
                if !is_excluded {
                    lemma_push_contains(old_docs, d, x);
                }
            }
            assert(i < positive.docs@.len() ==> positive.docs@[oi] < positive.docs@[i as int]);
        }
    }
    proof {
        assert(positive.docs@.take(i as int) =~= positive.docs@);
    }
    VecScorer::new(docs, scores)
}

} // verus!
