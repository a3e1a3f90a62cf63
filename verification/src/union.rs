//! Union combinator (OR semantics): a k-way sorted merge of sub-scorers.
//! The emitted document sequence is the strictly increasing, deduplicated
//! merge of the inputs; at each emitted document all sub-scorers positioned
//! on it contribute their scores through the configured `ScoreCombiner`.

use vstd::prelude::*;
use crate::{DocId, Score};
use crate::docset::{
    DocSet, strictly_sorted, seek_index, lemma_seek_index_bounds, lemma_seek_index_finds,
    lemma_push_contains, lemma_sorted_push,
};
use crate::scorer::VecScorer;
use crate::score_combiner::ScoreCombiner;

verus! {

/// Score a scorer gives to document `d` (meaningful when `d` is one of its
/// documents).
pub open spec fn score_at(s: VecScorer, d: DocId) -> Score {
    s.scores@[seek_index(s.docs@, 0, d)]
}

/// Some sub-scorer matches `d`.
pub open spec fn union_contains(children: Seq<VecScorer>, d: DocId) -> bool {
    exists|c: int| 0 <= c < children.len() && children[c].docs@.contains(d)
}

/// The sub-scores of exactly the children matching `d`, in child order.
pub open spec fn matching_scores(children: Seq<VecScorer>, d: DocId) -> Seq<Score>
    decreases children.len(),
{
    if children.len() == 0 {
        Seq::empty()
    } else {
        let pre = matching_scores(children.drop_last(), d);
        if children.last().docs@.contains(d) {
            pre.push(score_at(children.last(), d))
        } else {
            pre
        }
    }
}

pub proof fn lemma_matching_scores_len(children: Seq<VecScorer>, d: DocId)
    ensures
        matching_scores(children, d).len() <= children.len(),
        union_contains(children, d) ==> matching_scores(children, d).len() >= 1,
    decreases children.len(),
{
    if children.len() > 0 {
        lemma_matching_scores_len(children.drop_last(), d);
        if union_contains(children, d) && !children.last().docs@.contains(d) {
            let c = choose|c: int| 0 <= c < children.len() && children[c].docs@.contains(d);
            assert(children.drop_last()[c] == children[c]);
        }
    }
}

/// Looks up the score a scorer gives to `d`, without moving its cursor:
/// `Some` exactly when the scorer matches `d`.
pub fn find_score(s: &VecScorer, d: DocId) -> (r: Option<Score>)
    requires
        s.wf(),
        d < crate::docset::TERMINATED,
    ensures
        r.is_some() <==> s.docs@.contains(d),
        r.is_some() ==> r == Some(score_at(*s, d)),
{
    let mut i: usize = 0;
    while i < s.docs.len() && s.docs[i] < d
        invariant
            s.wf(),
            i <= s.docs@.len(),
            seek_index(s.docs@, 0, d) == seek_index(s.docs@, i as int, d),
        decreases s.docs@.len() - i,
    {
        i = i + 1;
    }
    proof {
        lemma_seek_index_bounds(s.docs@, i as int, d);
        lemma_seek_index_finds(s.docs@, d);
    }
    if i < s.docs.len() && s.docs[i] == d {
        Some(s.scores[i])
    } else {
        None
    }
}

/// Merges two strictly sorted document lists into their deduplicated union.
fn merge_union_docs(a: &Vec<DocId>, b: &Vec<DocId>) -> (out: Vec<DocId>)
    requires
        strictly_sorted(a@),
        strictly_sorted(b@),
    ensures
        strictly_sorted(out@),
        forall|d: DocId| out@.contains(d) <==> (a@.contains(d) || b@.contains(d)),
{
    let mut out: Vec<DocId> = Vec::new();
    let mut i: usize = 0;
    let mut j: usize = 0;
    while i < a.len() || j < b.len()
        invariant
            strictly_sorted(a@),
            strictly_sorted(b@),
            i <= a@.len(),
            j <= b@.len(),
            strictly_sorted(out@),
            forall|d: DocId| out@.contains(d) <==> (a@.take(i as int).contains(d)
                || b@.take(j as int).contains(d)),
            out@.len() > 0 && i < a@.len() ==> out@.last() < a@[i as int],
            out@.len() > 0 && j < b@.len() ==> out@.last() < b@[j as int],
        decreases a@.len() - i + b@.len() - j,
    {
        let ghost old_out = out@;
        let ghost oi = i as int;
        let ghost oj = j as int;
        let take_a = if i < a.len() && j < b.len() {
            a[i] <= b[j]
        } else {
            i < a.len()
        };
        let take_b = if i < a.len() && j < b.len() {
            b[j] <= a[i]
        } else {
            j < b.len()
        };
        let next = if take_a {
            a[i]
        } else {
            b[j]
        };
        proof {
            lemma_sorted_push(out@, next);
        }
        out.push(next);
        if take_a {
            i = i + 1;
            proof {
                assert(a@.take(i as int) =~= a@.take(oi).push(a@[oi]));
            }
        }
        if take_b {
            j = j + 1;
            proof {
                assert(b@.take(j as int) =~= b@.take(oj).push(b@[oj]));
            }
        }
        proof {
            assert forall|d: DocId| out@.contains(d) <==> (a@.take(i as int).contains(d)
                || b@.take(j as int).contains(d)) by {
                lemma_push_contains(old_out, next, d);
                if take_a {
                    lemma_push_contains(a@.take(oi), a@[oi], d);
                }
                if take_b {
                    lemma_push_contains(b@.take(oj), b@[oj], d);
                }
            }
        }
    }
    proof {
        assert(a@.take(i as int) =~= a@);
        assert(b@.take(j as int) =~= b@);
    }
    out
}

/// The deduplicated merge of all sub-scorers' documents.
fn union_docs(children: &Vec<VecScorer>) -> (out: Vec<DocId>)
    requires
        forall|c: int| 0 <= c < children@.len() ==> (#[trigger] children@[c]).wf(),
    ensures
        strictly_sorted(out@),
        forall|d: DocId| out@.contains(d) <==> union_contains(children@, d),
{
    let mut out: Vec<DocId> = Vec::new();
    proof {
        assert(forall|d: DocId| !out@.contains(d));
    }
    let mut c: usize = 0;
    while c < children.len()
        invariant
            forall|k: int| 0 <= k < children@.len() ==> (#[trigger] children@[k]).wf(),
            c <= children@.len(),
            strictly_sorted(out@),
            forall|d: DocId| out@.contains(d) <==> union_contains(children@.take(c as int), d),
        decreases children@.len() - c,
    {
        let ghost oc = c as int;
        let merged = merge_union_docs(&out, &children[c].docs);
        out = merged;
        c = c + 1;
        proof {
            assert forall|d: DocId| out@.contains(d) <==> union_contains(
                children@.take(c as int),
                d,
            ) by {
                if out@.contains(d) {
                    if children@[oc].docs@.contains(d) {
                        assert(children@.take(c as int)[oc] == children@[oc]);
                    } else {
                        let w = choose|w: int| 0 <= w < children@.take(oc).len()
                            && children@.take(oc)[w].docs@.contains(d);
                        assert(children@.take(c as int)[w] == children@[w]);
                    }
                }
                if union_contains(children@.take(c as int), d) {
                    let w = choose|w: int| 0 <= w < children@.take(c as int).len()
                        && children@.take(c as int)[w].docs@.contains(d);
                    if w < oc {
                        assert(children@.take(oc)[w].docs@.contains(d));
                    }
                }
            }
        }
    }
    proof {
        assert(children@.take(c as int) =~= children@);
    }
    out
}

/// Builds the union of at least two sub-scorers: its documents are the
/// deduplicated merge of theirs, and each document's score is the combiner
/// applied to exactly the sub-scores of the children that matched it.
pub fn union_from<C: ScoreCombiner>(children: Vec<VecScorer>) -> (out: VecScorer)
    requires
        children@.len() >= 1,
        forall|c: int| 0 <= c < children@.len() ==> (#[trigger] children@[c]).wf(),
    ensures
        out.inv(),
        out.cursor() == 0,
        forall|d: DocId| out.docs@.contains(d) <==> union_contains(children@, d),
        forall|k: int| 0 <= k < out.docs@.len() ==> out.scores@[k] == C::combine_spec(
            matching_scores(children@, out.docs@[k]),
            children@.len() as int,
        ),
{
    let docs = union_docs(&children);
    let mut scores: Vec<Score> = Vec::new();
    let mut k: usize = 0;
    while k < docs.len()
        invariant
            children@.len() >= 1,
            forall|c: int| 0 <= c < children@.len() ==> (#[trigger] children@[c]).wf(),
            strictly_sorted(docs@),
            forall|d: DocId| docs@.contains(d) <==> union_contains(children@, d),
            k <= docs@.len(),
            scores@.len() == k,
            forall|t: int| 0 <= t < k ==> scores@[t] == C::combine_spec(
                matching_scores(children@, docs@[t]),
                children@.len() as int,
            ),
        decreases docs@.len() - k,
    {
        let d = docs[k];
        proof {
            assert(docs@[k as int] == d);
            assert(docs@.contains(d));
        }
        let mut gathered: Vec<Score> = Vec::new();
        let mut c: usize = 0;
        while c < children.len()
            invariant
                forall|t: int| 0 <= t < children@.len() ==> (#[trigger] children@[t]).wf(),
                c <= children@.len(),
                d < crate::docset::TERMINATED,
                gathered@ == matching_scores(children@.take(c as int), d),
            decreases children@.len() - c,
        {
            proof {
                assert(children@.take(c + 1).drop_last() =~= children@.take(c as int));
                assert(children@.take(c + 1).last() == children@[c as int]);
            }
            if let Some(s) = find_score(&children[c], d) {
                gathered.push(s);
            }
            c = c + 1;
        }
        proof {
            assert(children@.take(children@.len() as int) =~= children@);
            lemma_matching_scores_len(children@, d);
        }
        let combined = C::combine(&gathered, children.len());
        scores.push(combined);
        k = k + 1;
    }
    VecScorer::new(docs, scores)
}

/// Union entry point used by the boolean assembly: a union of exactly one
/// sub-scorer degenerates to that sub-scorer unchanged, with no wrapping
/// overhead; otherwise the scorers merge under the combiner `C`. A union
/// consumes its inputs whole: the merge is over their full document
/// sequences, which for the freshly built scorers the assembly hands in are
/// exactly their remaining sequences.
pub fn scorer_union<C: ScoreCombiner>(scorers: Vec<VecScorer>) -> (out: VecScorer)
    requires
        scorers@.len() >= 1,
        forall|c: int| 0 <= c < scorers@.len() ==> (#[trigger] scorers@[c]).wf(),
    ensures
        out.inv(),
        scorers@.len() == 1 ==> out == scorers@[0],
        scorers@.len() >= 2 ==> out.cursor() == 0,
        forall|d: DocId| out.docs@.contains(d) <==> union_contains(scorers@, d),
        scorers@.len() >= 2 ==> forall|k: int| 0 <= k < out.docs@.len() ==> out.scores@[k]
            == C::combine_spec(matching_scores(scorers@, out.docs@[k]), scorers@.len() as int),
{
    if scorers.len() == 1 {
        let mut scorers = scorers;
        let only = scorers.pop().unwrap();
        proof {
            assert(only == scorers@.push(only)[0]);
            assert forall|d: DocId| only.docs@.contains(d) <==> union_contains(
                scorers@.push(only),
                d,
            ) by {
                if union_contains(scorers@.push(only), d) {
                    let c = choose|c: int| 0 <= c < scorers@.push(only).len()
                        && scorers@.push(only)[c].docs@.contains(d);
                    assert(c == 0);
                }
            }
        }
        only
    } else {
        union_from::<C>(scorers)
    }
}

} // verus!
