//! Intersect combinator (AND semantics): a sorted merge-intersection. The
//! scorer behind the running maximum document is moved forward with `seek`
//! (the classic leapfrog merge-join) until all scorers agree on a document
//! or one of them exhausts; the score of an agreed document is the
//! saturating sum of all member scores.

use vstd::prelude::*;
use crate::{DocId, Score};
use crate::docset::{
    DocSet, strictly_sorted, seek_index, lemma_seek_index_bounds,
    lemma_push_contains, lemma_sorted_push, lemma_sorted_take_contains,
};
use crate::scorer::VecScorer;
use crate::score_combiner::{sat_add, saturating_add};
use crate::union::{score_at, find_score};

verus! {

/// Every sub-scorer matches `d`.
pub open spec fn intersection_contains(children: Seq<VecScorer>, d: DocId) -> bool {
    forall|c: int| 0 <= c < children.len() ==> (#[trigger] children[c]).docs@.contains(d)
}

/// Saturating sum of the scores all sub-scorers give to `d`.
pub open spec fn sum_scores_at(children: Seq<VecScorer>, d: DocId) -> Score
    decreases children.len(),
{
    if children.len() == 0 {
        0
    } else {
        sat_add(sum_scores_at(children.drop_last(), d), score_at(children.last(), d))
    }
}

/// Advances `from` to the first index of `docs` whose entry is `>= target`:
/// the seek primitive the merge combinators drive their inputs with.
pub(crate) fn seek_from(docs: &Vec<DocId>, from: usize, target: DocId) -> (idx: usize)
    requires
        from <= docs@.len(),
    ensures
        idx == seek_index(docs@, from as int, target),
        from <= idx <= docs@.len(),
{
    let mut i = from;
    while i < docs.len() && docs[i] < target
        invariant
            from <= i <= docs@.len(),
            seek_index(docs@, from as int, target) == seek_index(docs@, i as int, target),
        decreases docs@.len() - i,
    {
        i = i + 1;
    }
    proof {
        lemma_seek_index_bounds(docs@, i as int, target);
    }
    i
}

/// Intersects two strictly sorted document lists by leapfrogging: each side
/// repeatedly seeks to the other side's current document.
pub(crate) fn intersect_docs(a: &Vec<DocId>, b: &Vec<DocId>) -> (out: Vec<DocId>)
    requires
        strictly_sorted(a@),
        strictly_sorted(b@),
    ensures
        strictly_sorted(out@),
        forall|d: DocId| out@.contains(d) <==> (a@.contains(d) && b@.contains(d)),
{
    let mut out: Vec<DocId> = Vec::new();
    let mut i: usize = 0;
    let mut j: usize = 0;
    while i < a.len() && j < b.len()
        invariant
            strictly_sorted(a@),
            strictly_sorted(b@),
            i <= a@.len(),
            j <= b@.len(),
            strictly_sorted(out@),
            forall|d: DocId| out@.contains(d) ==> (a@.take(i as int).contains(d)
                && b@.take(j as int).contains(d)),
            forall|d: DocId| (a@.take(i as int).contains(d) && b@.contains(d))
                ==> out@.contains(d),
            forall|d: DocId| (a@.contains(d) && b@.take(j as int).contains(d))
                ==> out@.contains(d),
            out@.len() > 0 && i < a@.len() ==> out@.last() < a@[i as int],
            out@.len() > 0 && j < b@.len() ==> out@.last() < b@[j as int],
        decreases a@.len() - i + b@.len() - j,
    {
        let ghost old_out = out@;
        let ghost oi = i as int;
        let ghost oj = j as int;
        let da = a[i];
        let nj = seek_from(b, j, da);
        proof {
            lemma_seek_index_bounds(b@, oj, da);
            assert forall|d: DocId| (a@.contains(d) && b@.take(nj as int).contains(d))
                implies out@.contains(d) by {
                if !b@.take(oj).contains(d) {
                    let w = choose|w: int| 0 <= w < nj && b@.take(nj as int)[w] == d;
                    assert(b@[w] == d);
                    assert(d < da);
                    lemma_sorted_take_contains(a@, oi, d);
                }
            }
        }
        j = nj;
        if j < b.len() {
            let db = b[j];
            if db == da {
                proof {
                    lemma_sorted_push(out@, da);
                }
                out.push(da);
                i = i + 1;
                j = j + 1;
                proof {
                    assert(a@.take(i as int) =~= a@.take(oi).push(da));
                    assert(b@.take(j as int) =~= b@.take(nj as int).push(db));
                    assert(a@[oi] == da && a@.contains(da));
                    assert(b@[nj as int] == db && b@.contains(db));
                    assert forall|d: DocId| #![all_triggers] out@.contains(d) implies (a@.take(
                        i as int,
                    ).contains(d) && b@.take(j as int).contains(d)) by {
                        lemma_push_contains(old_out, da, d);
                        lemma_push_contains(a@.take(oi), da, d);
                        lemma_push_contains(b@.take(nj as int), db, d);
                    }
                    assert forall|d: DocId| #![all_triggers] ((a@.take(i as int).contains(d)
                        && b@.contains(d)) || (a@.contains(d) && b@.take(j as int).contains(d)))
                        implies out@.contains(d) by {
                        lemma_push_contains(old_out, da, d);
                        lemma_push_contains(a@.take(oi), da, d);
                        lemma_push_contains(b@.take(nj as int), db, d);
                    }
                }
            } else {
                // db > da: skip ahead on the left side.
                let ni = seek_from(a, i, db);
                proof {
                    lemma_seek_index_bounds(a@, oi, db);
                    assert forall|d: DocId| (a@.take(ni as int).contains(d) && b@.contains(d))
                        implies out@.contains(d) by {
                        if !a@.take(oi).contains(d) {
                            let w = choose|w: int| 0 <= w < ni && a@.take(ni as int)[w] == d;
                            assert(a@[w] == d);
                            assert(d < db);
                            lemma_sorted_take_contains(b@, nj as int, d);
                        }
                    }
                }
                i = ni;
            }
        }
    }
    proof {
        if i == a@.len() {
            assert(a@.take(i as int) =~= a@);
        } else {
            assert(b@.take(j as int) =~= b@);
        }
    }
    out
}

/// Intersects the given scorers: the result's documents are exactly those
/// matched by every input, in increasing order without duplicates, and each
/// document's score is the saturating sum of all member scores. An
/// intersection of exactly one scorer degenerates to that scorer unchanged.
pub fn intersect_scorers(scorers: Vec<VecScorer>) -> (out: VecScorer)
    requires
        scorers@.len() >= 1,
        forall|c: int| 0 <= c < scorers@.len() ==> (#[trigger] scorers@[c]).wf(),
    ensures
        out.inv(),
        scorers@.len() == 1 ==> out == scorers@[0],
        scorers@.len() >= 2 ==> out.cursor() == 0,
        forall|d: DocId| out.docs@.contains(d) <==> intersection_contains(scorers@, d),
        scorers@.len() >= 2 ==> forall|k: int| 0 <= k < out.docs@.len() ==> out.scores@[k]
            == sum_scores_at(scorers@, out.docs@[k]),
{
    if scorers.len() == 1 {
        let mut scorers = scorers;
        let only = scorers.pop().unwrap();
        proof {
            assert(only == scorers@.push(only)[0]);
            assert forall|d: DocId| only.docs@.contains(d) <==> intersection_contains(
                scorers@.push(only),
                d,
            ) by {
                if only.docs@.contains(d) {
                    assert forall|c: int| 0 <= c < scorers@.push(only).len() implies (
                    #[trigger] scorers@.push(only)[c]).docs@.contains(d) by {
                        assert(c == 0);
                    }
                }
            }
        }
        return only;
    }
    let mut docs = scorers[0].docs.clone();
    proof {
        assert(docs@ == scorers@[0].docs@);
        assert forall|d: DocId| docs@.contains(d) <==> intersection_contains(
            scorers@.take(1),
            d,
        ) by {
            if intersection_contains(scorers@.take(1), d) {
                assert(scorers@.take(1)[0].docs@.contains(d));
            }
            if docs@.contains(d) {
                assert forall|c: int| 0 <= c < scorers@.take(1).len() implies (
                #[trigger] scorers@.take(1)[c]).docs@.contains(d) by {
                    assert(scorers@.take(1)[c] == scorers@[0]);
                }
            }
        }
    }
    let mut c: usize = 1;
    while c < scorers.len()
        invariant
            forall|k: int| 0 <= k < scorers@.len() ==> (#[trigger] scorers@[k]).wf(),
            1 <= c <= scorers@.len(),
            strictly_sorted(docs@),
            forall|d: DocId| docs@.contains(d) <==> intersection_contains(
                scorers@.take(c as int),
                d,
            ),
        decreases scorers@.len() - c,
    {
        let ghost oc = c as int;
        let merged = intersect_docs(&docs, &scorers[c].docs);
        docs = merged;
        c = c + 1;
        proof {
            assert forall|d: DocId| docs@.contains(d) <==> intersection_contains(
                scorers@.take(c as int),
                d,
            ) by {
                if docs@.contains(d) {
                    assert(intersection_contains(scorers@.take(oc), d));
                    assert forall|w: int| 0 <= w < scorers@.take(c as int).len() implies (
                    #[trigger] scorers@.take(c as int)[w]).docs@.contains(d) by {
                        if w < oc {
                            assert(scorers@.take(oc)[w].docs@.contains(d));
                            assert(scorers@.take(oc)[w] == scorers@.take(c as int)[w]);
                        } else {
                            assert(scorers@.take(c as int)[w] == scorers@[oc]);
                        }
                    }
                }
                if intersection_contains(scorers@.take(c as int), d) {
                    assert(scorers@.take(c as int)[oc].docs@.contains(d));
                    assert(scorers@.take(c as int)[oc] == scorers@[oc]);
                    assert forall|w: int| 0 <= w < scorers@.take(oc).len() implies (
                    #[trigger] scorers@.take(oc)[w]).docs@.contains(d) by {
                        assert(scorers@.take(oc)[w] == scorers@.take(c as int)[w]);
                    }
                }
            }
        }
    }
    proof {
        assert(scorers@.take(c as int) =~= scorers@);
    }
    // Score pass: each agreed document scores the saturating sum of all
    // member scores.
    let mut scores: Vec<Score> = Vec::new();
    let mut k: usize = 0;
    while k < docs.len()
        invariant
            forall|t: int| 0 <= t < scorers@.len() ==> (#[trigger] scorers@[t]).wf(),
            strictly_sorted(docs@),
            forall|d: DocId| docs@.contains(d) <==> intersection_contains(scorers@, d),
            k <= docs@.len(),
            scores@.len() == k,
            forall|t: int| 0 <= t < k ==> scores@[t] == sum_scores_at(scorers@, docs@[t]),
        decreases docs@.len() - k,
    {
        let d = docs[k];
        proof {
            assert(docs@[k as int] == d);
            assert(docs@.contains(d));
        }
        let mut sum: Score = 0;
        let mut c: usize = 0;
        while c < scorers.len()
            invariant
                forall|t: int| 0 <= t < scorers@.len() ==> (#[trigger] scorers@[t]).wf(),
                c <= scorers@.len(),
                d < crate::docset::TERMINATED,
                intersection_contains(scorers@, d),
                sum == sum_scores_at(scorers@.take(c as int), d),
            decreases scorers@.len() - c,
        {
            proof {
                assert(scorers@.take(c + 1).drop_last() =~= scorers@.take(c as int));
                assert(scorers@.take(c + 1).last() == scorers@[c as int]);
                assert(scorers@[c as int].docs@.contains(d));
            }
            let found = find_score(&scorers[c], d);
            sum = saturating_add(sum, found.unwrap());
            c = c + 1;
        }
        proof {
            assert(scorers@.take(scorers@.len() as int) =~= scorers@);
        }
        scores.push(sum);
        k = k + 1;
    }
    VecScorer::new(docs, scores)
}

} // verus!
