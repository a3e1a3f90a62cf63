//! The phrase scorer: a two-phase scorer over a set of per-term positional
//! postings. Its approximation is the intersection of the terms' document
//! sets (a document can only contain the phrase if it contains every term);
//! its verification reconstructs, at the candidate document, each term's
//! positions shifted left by the term's offset within the phrase and checks
//! for a position common to all terms. The number of such common positions
//! is the phrase-occurrence count the similarity function scores.

use vstd::prelude::*;
use crate::{DocId, Score};
use crate::docset::{
    DocSet, strictly_sorted, lemma_seek_index_bounds,
    lemma_push_contains, lemma_sorted_push, lemma_index_unique, lemma_strictly_sorted_len,
    TERMINATED,
};
use crate::scorer::{Scorer, pruning_trace, lemma_pruning_trace_call, lemma_pruning_trace_skip};
use crate::twophase::TwoPhase;
use crate::postings::{SegmentPostings, FieldNormReader, positions_at};
use crate::similarity::SimilarityWeight;

verus! {

/// Positions of `s` at or past `off`, shifted left by `off`.
pub open spec fn shift_seq(s: Seq<u32>, off: int) -> Seq<u32>
    decreases s.len(),
{
    if s.len() == 0 {
        Seq::empty()
    } else {
        let pre = shift_seq(s.drop_last(), off);
        if s.last() >= off {
            pre.push((s.last() - off) as u32)
        } else {
            pre
        }
    }
}

/// The entries common to `a` and `b`, in `a`'s order.
pub open spec fn seq_intersect(a: Seq<u32>, b: Seq<u32>) -> Seq<u32>
    decreases a.len(),
{
    if a.len() == 0 {
        Seq::empty()
    } else {
        let pre = seq_intersect(a.drop_last(), b);
        if b.contains(a.last()) {
            pre.push(a.last())
        } else {
            pre
        }
    }
}

/// The offset-adjusted positions at which the whole phrase matches within
/// document `d`: each term's positions, shifted left by the term's offset,
/// intersected across all terms.
pub open spec fn phrase_alignment(tp: Seq<(usize, SegmentPostings)>, d: DocId) -> Seq<u32>
    decreases tp.len(),
{
    if tp.len() == 0 {
        Seq::empty()
    } else if tp.len() == 1 {
        shift_seq(positions_at(tp[0].1, d), tp[0].0 as int)
    } else {
        seq_intersect(
            phrase_alignment(tp.drop_last(), d),
            shift_seq(positions_at(tp.last().1, d), tp.last().0 as int),
        )
    }
}

/// How many times the whole phrase occurs within document `d`.
pub open spec fn phrase_count_spec(tp: Seq<(usize, SegmentPostings)>, d: DocId) -> nat {
    phrase_alignment(tp, d).len()
}

proof fn lemma_sorted_drop_last(s: Seq<u32>)
    requires
        strictly_sorted(s),
        s.len() >= 1,
    ensures
        strictly_sorted(s.drop_last()),
{
    assert forall|i: int, j: int| 0 <= i < j < s.drop_last().len() implies s.drop_last()[i]
        < s.drop_last()[j] by {
        assert(s.drop_last()[i] == s[i]);
        assert(s.drop_last()[j] == s[j]);
    }
}

/// Membership in a strictly sorted sequence without its last entry.
proof fn lemma_drop_last_contains(s: Seq<u32>, t: u32)
    requires
        strictly_sorted(s),
        s.len() > 0,
    ensures
        s.drop_last().contains(t) <==> (s.contains(t) && t != s.last()),
{
    if s.drop_last().contains(t) {
        let w = choose|w: int| 0 <= w < s.drop_last().len() && s.drop_last()[w] == t;
        assert(s[w] == t);
        assert(s[w] < s.last());
    }
    if s.contains(t) && t != s.last() {
        let w = choose|w: int| 0 <= w < s.len() && s[w] == t;
        assert(w < s.len() - 1);
        assert(s.drop_last()[w] == t);
    }
}

/// Shifting keeps a position list strictly sorted; every shifted entry
/// stems from an entry of the input list.
pub proof fn lemma_shift_seq(s: Seq<u32>, off: int)
    requires
        strictly_sorted(s),
        off >= 0,
    ensures
        strictly_sorted(shift_seq(s, off)),
        forall|t: u32| #[trigger] shift_seq(s, off).contains(t) ==> t + off < TERMINATED
            && s.contains((t + off) as u32),
    decreases s.len(),
{
    if s.len() > 0 {
        lemma_sorted_drop_last(s);
        lemma_shift_seq(s.drop_last(), off);
        let pre = shift_seq(s.drop_last(), off);
        if s.last() >= off {
            let v = (s.last() - off) as u32;
            if pre.len() > 0 {
                assert(pre.contains(pre.last()));
                let pl = pre.last();
                assert(s.drop_last().contains((pl + off) as u32));
                let w = choose|w: int| 0 <= w < s.drop_last().len() && s.drop_last()[w] == (pl
                    + off) as u32;
                assert(s[w] < s.last());
                assert(pl < v);
            }
            assert(v < TERMINATED);
            lemma_sorted_push(pre, v);
            assert forall|t: u32| #[trigger] shift_seq(s, off).contains(t) implies t + off
                < TERMINATED && s.contains((t + off) as u32) by {
                lemma_push_contains(pre, v, t);
                if t == v {
                    assert(s.contains(s.last()));
                } else {
                    let w = choose|w: int| 0 <= w < s.drop_last().len() && s.drop_last()[w] == (t
                        + off) as u32;
                    assert(s[w] == (t + off) as u32);
                }
            }
        } else {
            assert forall|t: u32| #[trigger] shift_seq(s, off).contains(t) implies t + off
                < TERMINATED && s.contains((t + off) as u32) by {
                let w = choose|w: int| 0 <= w < s.drop_last().len() && s.drop_last()[w] == (t
                    + off) as u32;
                assert(s[w] == (t + off) as u32);
            }
        }
    }
}

/// The constructive intersection of a strictly sorted sequence with any
/// other sequence is strictly sorted and holds exactly the common entries.
pub proof fn lemma_seq_intersect(a: Seq<u32>, b: Seq<u32>)
    requires
        strictly_sorted(a),
    ensures
        strictly_sorted(seq_intersect(a, b)),
        forall|t: u32| #[trigger] seq_intersect(a, b).contains(t) <==> (a.contains(t)
            && b.contains(t)),
    decreases a.len(),
{
    if a.len() > 0 {
        lemma_sorted_drop_last(a);
        lemma_seq_intersect(a.drop_last(), b);
        let pre = seq_intersect(a.drop_last(), b);
        assert forall|t: u32| a.drop_last().contains(t) implies a.contains(t) && t < a.last() by {
            let w = choose|w: int| 0 <= w < a.drop_last().len() && a.drop_last()[w] == t;
            assert(a[w] == t);
            assert(a[w] < a.last());
        }
        if b.contains(a.last()) {
            if pre.len() > 0 {
                assert(pre.contains(pre.last()));
            }
            lemma_sorted_push(pre, a.last());
            assert forall|t: u32| #[trigger] seq_intersect(a, b).contains(t) <==> (a.contains(t)
                && b.contains(t)) by {
                lemma_push_contains(pre, a.last(), t);
                lemma_drop_last_contains(a, t);
            }
        } else {
            assert forall|t: u32| #[trigger] seq_intersect(a, b).contains(t) <==> (a.contains(t)
                && b.contains(t)) by {
                lemma_drop_last_contains(a, t);
            }
        }
    }
}

/// Two strictly sorted sequences with the same members are the same
/// sequence.
pub proof fn lemma_sorted_unique(a: Seq<u32>, b: Seq<u32>)
    requires
        strictly_sorted(a),
        strictly_sorted(b),
        forall|t: u32| a.contains(t) <==> b.contains(t),
    ensures
        a =~= b,
    decreases a.len(),
{
    if a.len() == 0 {
        if b.len() > 0 {
            assert(b.contains(b.last()));
        }
    } else {
        assert(a.contains(a.last()));
        assert(b.contains(a.last()));
        assert(b.len() > 0);
        assert(b.contains(b.last()));
        assert(a.contains(b.last()));
        let wa = choose|w: int| 0 <= w < a.len() && a[w] == b.last();
        let wb = choose|w: int| 0 <= w < b.len() && b[w] == a.last();
        assert(a[wa] <= a.last());
        assert(b[wb] <= b.last());
        assert(a.last() == b.last());
        lemma_sorted_drop_last(a);
        lemma_sorted_drop_last(b);
        assert forall|t: u32| a.drop_last().contains(t) <==> b.drop_last().contains(t) by {
            lemma_drop_last_contains(a, t);
            lemma_drop_last_contains(b, t);
        }
        lemma_sorted_unique(a.drop_last(), b.drop_last());
        assert(a =~= a.drop_last().push(a.last()));
        assert(b =~= b.drop_last().push(b.last()));
    }
}

/// The alignment of well-formed postings all containing `d` is strictly
/// sorted.
pub proof fn lemma_alignment_sorted(tp: Seq<(usize, SegmentPostings)>, d: DocId)
    requires
        forall|c: int| 0 <= c < tp.len() ==> (#[trigger] tp[c].1).wf() && tp[c].1.docs@.contains(
            d,
        ),
    ensures
        strictly_sorted(phrase_alignment(tp, d)),
    decreases tp.len(),
{
    if tp.len() == 0 {
    } else if tp.len() == 1 {
        lemma_positions_at_sorted(tp[0].1, d);
        lemma_shift_seq(positions_at(tp[0].1, d), tp[0].0 as int);
    } else {
        lemma_alignment_sorted(tp.drop_last(), d);
        lemma_seq_intersect(
            phrase_alignment(tp.drop_last(), d),
            shift_seq(positions_at(tp.last().1, d), tp.last().0 as int),
        );
    }
}

/// The phrase alignment at `d` depends only on the offsets and on each
/// term's positions within `d`: postings that agree there align alike.
pub proof fn lemma_alignment_congruence(
    tp1: Seq<(usize, SegmentPostings)>,
    tp2: Seq<(usize, SegmentPostings)>,
    d: DocId,
)
    requires
        tp1.len() == tp2.len(),
        forall|c: int| 0 <= c < tp1.len() ==> (#[trigger] tp1[c]).0 == tp2[c].0,
        forall|c: int| 0 <= c < tp1.len() ==> positions_at((#[trigger] tp1[c]).1, d)
            == positions_at(tp2[c].1, d),
    ensures
        phrase_alignment(tp1, d) == phrase_alignment(tp2, d),
    decreases tp1.len(),
{
    if tp1.len() > 1 {
        lemma_alignment_congruence(tp1.drop_last(), tp2.drop_last(), d);
        assert(tp1.last() == tp1[tp1.len() - 1]);
        assert(tp2.last() == tp2[tp2.len() - 1]);
    }
}

/// A well-formed posting's position list at one of its documents is
/// strictly sorted and non-empty.
pub proof fn lemma_positions_at_sorted(p: SegmentPostings, d: DocId)
    requires
        p.wf(),
        p.docs@.contains(d),
    ensures
        strictly_sorted(positions_at(p, d)),
        positions_at(p, d).len() >= 1,
{
    let w = choose|w: int| 0 <= w < p.docs@.len() && p.docs@[w] == d;
    lemma_index_unique(p.docs@, w, d);
}

/// Reference to the position list of `p` at document `d`.
fn position_row<'a>(p: &'a SegmentPostings, d: DocId) -> (row: &'a Vec<u32>)
    requires
        p.wf(),
        p.docs@.contains(d),
    ensures
        row@ == positions_at(*p, d),
{
    let i = crate::intersection::seek_from(&p.docs, 0, d);
    proof {
        let w = choose|w: int| 0 <= w < p.docs@.len() && p.docs@[w] == d;
        lemma_index_unique(p.docs@, w, d);
        assert(p.spec_positions()[i as int] == p.positions@[i as int]@);
    }
    &p.positions[i]
}

/// The positions of `row` at or past `off`, shifted left by `off`.
fn shift_positions(row: &Vec<u32>, off: usize) -> (out: Vec<u32>)
    ensures
        out@ == shift_seq(row@, off as int),
{
    let mut out: Vec<u32> = Vec::new();
    let mut k: usize = 0;
    proof {
        assert(row@.take(0) =~= Seq::<u32>::empty());
    }
    while k < row.len()
        invariant
            k <= row@.len(),
            out@ == shift_seq(row@.take(k as int), off as int),
        decreases row@.len() - k,
    {
        proof {
            assert(row@.take(k + 1).drop_last() =~= row@.take(k as int));
            assert(row@.take(k + 1).last() == row@[k as int]);
        }
        let p = row[k] as usize;
        if p >= off {
            out.push((p - off) as u32);
        }
        k = k + 1;
    }
    proof {
        assert(row@.take(row@.len() as int) =~= row@);
    }
    out
}

/// The phrase-occurrence count within document `d`: the number of
/// offset-adjusted positions common to every term's position list.
pub fn phrase_count_of(tp: &Vec<(usize, SegmentPostings)>, d: DocId) -> (count: u32)
    requires
        tp@.len() >= 1,
        forall|c: int| 0 <= c < tp@.len() ==> (#[trigger] tp@[c].1).wf()
            && tp@[c].1.docs@.contains(d),
    ensures
        count as nat == phrase_count_spec(tp@, d),
{
    let row0 = position_row(&tp[0].1, d);
    let mut acc = shift_positions(row0, tp[0].0);
    proof {
        assert(tp@.take(1)[0] == tp@[0]);
        assert(acc@ == phrase_alignment(tp@.take(1), d));
        lemma_alignment_sorted(tp@.take(1), d);
    }
    let mut c: usize = 1;
    while c < tp.len()
        invariant
            1 <= c <= tp@.len(),
            forall|k: int| 0 <= k < tp@.len() ==> (#[trigger] tp@[k].1).wf()
                && tp@[k].1.docs@.contains(d),
            acc@ == phrase_alignment(tp@.take(c as int), d),
            strictly_sorted(acc@),
        decreases tp@.len() - c,
    {
        let ghost oc = c as int;
        let rowc = position_row(&tp[c].1, d);
        let shifted = shift_positions(rowc, tp[c].0);
        proof {
            lemma_positions_at_sorted(tp@[oc].1, d);
            lemma_shift_seq(positions_at(tp@[oc].1, d), tp@[oc].0 as int);
        }
        let merged = crate::intersection::intersect_docs(&acc, &shifted);
        proof {
            assert(tp@.take(oc + 1).drop_last() =~= tp@.take(oc));
            assert(tp@.take(oc + 1).last() == tp@[oc]);
            assert(tp@.take(oc + 1).len() >= 2);
            let spec_val = seq_intersect(phrase_alignment(tp@.take(oc), d), shifted@);
            assert(phrase_alignment(tp@.take(oc + 1), d) == spec_val);
            lemma_seq_intersect(phrase_alignment(tp@.take(oc), d), shifted@);
            lemma_sorted_unique(merged@, spec_val);
        }
        acc = merged;
        c = c + 1;
    }
    proof {
        assert(tp@.take(tp@.len() as int) =~= tp@);
        lemma_strictly_sorted_len(acc@);
    }
    acc.len() as u32
}

/// A two-phase scorer verifying the exact positional adjacency of a phrase.
pub struct PhraseScorer {
    pub term_postings: Vec<(usize, SegmentPostings)>,
    pub candidates: Vec<DocId>,
    pub pos: usize,
    pub similarity: SimilarityWeight,
    pub fieldnorm_reader: FieldNormReader,
    pub score_needed: bool,
}

impl PhraseScorer {
    /// The score the phrase scorer reports at candidate document `d`.
    pub open spec fn spec_score_at(&self, d: DocId) -> Score {
        if self.score_needed {
            self.similarity.spec_score(
                self.fieldnorm_reader.spec_fieldnorm_id(d),
                phrase_count_spec(self.term_postings@, d) as u32,
            )
        } else {
            0
        }
    }

    /// Which candidate positions pass the positional verification: the
    /// eligibility mask of this scorer's pruning traces.
    pub open spec fn eligibility(&self) -> Seq<bool> {
        Seq::new(self.candidates@.len(), |k: int| self.matches_at(k))
    }

    pub open spec fn wf(&self) -> bool {
        &&& self.term_postings@.len() >= 1
        &&& forall|c: int| 0 <= c < self.term_postings@.len() ==> (
        #[trigger] self.term_postings@[c].1).wf()
        &&& strictly_sorted(self.candidates@)
        &&& forall|d: DocId| self.candidates@.contains(d) <==> (forall|c: int|
            0 <= c < self.term_postings@.len() ==> (
            #[trigger] self.term_postings@[c].1).docs@.contains(d))
        &&& self.pos <= self.candidates@.len()
    }

    /// Builds the scorer: the approximation (its document sequence) is the
    /// intersection of the terms' document sets, positioned on its first
    /// candidate.
    pub fn new(
        term_postings: Vec<(usize, SegmentPostings)>,
        similarity_weight: SimilarityWeight,
        fieldnorm_reader: FieldNormReader,
        score_needed: bool,
    ) -> (s: PhraseScorer)
        requires
            term_postings@.len() >= 1,
            forall|c: int| 0 <= c < term_postings@.len() ==> (#[trigger] term_postings@[c].1).wf(),
        ensures
            s.wf(),
            s.cursor() == 0,
            s.term_postings@ == term_postings@,
            s.similarity == similarity_weight,
            s.fieldnorm_reader == fieldnorm_reader,
            s.score_needed == score_needed,
            forall|d: DocId| s.candidates@.contains(d) <==> (forall|c: int|
                0 <= c < term_postings@.len() ==> (
                #[trigger] term_postings@[c].1).docs@.contains(d)),
    {
        let mut candidates = term_postings[0].1.docs.clone();
        proof {
            assert forall|d: DocId| candidates@.contains(d) <==> (forall|c: int|
                0 <= c < tp_take(term_postings@, 1).len() ==> (
                #[trigger] tp_take(term_postings@, 1)[c].1).docs@.contains(d)) by {
                if candidates@.contains(d) {
                    assert forall|c: int| 0 <= c < tp_take(term_postings@, 1).len() implies (
                    #[trigger] tp_take(term_postings@, 1)[c].1).docs@.contains(d) by {
                        assert(tp_take(term_postings@, 1)[c] == term_postings@[0]);
                    }
                } else {
                    assert(tp_take(term_postings@, 1)[0] == term_postings@[0]);
                }
            }
        }
        let mut c: usize = 1;
        while c < term_postings.len()
            invariant
                1 <= c <= term_postings@.len(),
                forall|k: int| 0 <= k < term_postings@.len() ==> (
                #[trigger] term_postings@[k].1).wf(),
                strictly_sorted(candidates@),
                forall|d: DocId| candidates@.contains(d) <==> (forall|k: int|
                    0 <= k < c ==> (#[trigger] term_postings@[k].1).docs@.contains(d)),
            decreases term_postings@.len() - c,
        {
            let ghost oc = c as int;
            let merged = crate::intersection::intersect_docs(
                &candidates,
                &term_postings[c].1.docs,
            );
            candidates = merged;
            c = c + 1;
        }
        PhraseScorer {
            term_postings,
            candidates,
            pos: 0,
            similarity: similarity_weight,
            fieldnorm_reader,
            score_needed,
        }
    }

    /// Drains the scorer from its current position to exhaustion, handing
    /// the callback every `(document, score)` pair that passes the
    /// two-phase check: candidates the positional verification rejects are
    /// skipped, never handed over.
    pub fn for_each<F: FnMut(DocId, Score)>(&mut self, callback: &mut F)
        requires
            old(self).inv(),
            forall|d: DocId, s: Score| call_requires(*old(callback), (d, s)),
        ensures
            final(self).inv(),
            final(self).same_but_cursor(old(self)),
            final(self).all_docs() == old(self).all_docs(),
            final(self).cursor() == old(self).all_docs().len(),
            forall|i: int| old(self).cursor() <= i < old(self).all_docs().len() && old(
                self,
            ).matches_at(i) ==> call_ensures(
                *old(callback),
                (old(self).all_docs()[i], old(self).all_scores()[i]),
                (),
            ),
    {
        let mut i = self.pos;
        while i < self.candidates.len()
            invariant
                self.wf(),
                old(self).pos <= i <= self.candidates@.len(),
                self == old(self),
                forall|d: DocId, s: Score| call_requires(*callback, (d, s)),
                *callback == *old(callback),
                forall|k: int| old(self).pos <= k < i && self.matches_at(k) ==> call_ensures(
                    *old(callback),
                    (self.all_docs()[k], self.all_scores()[k]),
                    (),
                ),
            decreases self.candidates@.len() - i,
        {
            let d = self.candidates[i];
            proof {
                assert(self.candidates@.contains(d));
            }
            let count = phrase_count_of(&self.term_postings, d);
            proof {
                assert(self.matches_at(i as int) == (count > 0));
            }
            if count > 0 {
                let s = if self.score_needed {
                    let fid = self.fieldnorm_reader.fieldnorm_id(d);
                    self.similarity.score(fid, count)
                } else {
                    0
                };
                proof {
                    assert(self.all_scores()[i as int] == self.spec_score_at(d));
                    assert(s == self.spec_score_at(d));
                }
                callback(d, s);
            }
            i = i + 1;
        }
        self.pos = i;
    }

    /// Drains the scorer, invoking the callback only at verified positions
    /// whose score exceeds the threshold; the callback returns the new
    /// threshold. The two-phase check is honored here exactly as in
    /// `for_each`: an unverified candidate is never handed over, whatever
    /// its score. The drain follows a pruning trace whose eligible
    /// positions are exactly the candidates the positional verification
    /// confirms.
    pub fn for_each_pruning<F: FnMut(DocId, Score) -> Score>(
        &mut self,
        threshold: Score,
        callback: &mut F,
    )
        requires
            old(self).inv(),
            forall|d: DocId, s: Score| call_requires(*old(callback), (d, s)),
        ensures
            final(self).inv(),
            final(self).same_but_cursor(old(self)),
            final(self).all_docs() == old(self).all_docs(),
            final(self).cursor() == old(self).all_docs().len(),
            exists|log: Seq<(int, Score)>, t_out: Score|
                {
                    &&& pruning_trace(
                        old(self).all_scores(),
                        old(self).eligibility(),
                        old(self).cursor(),
                        old(self).all_docs().len() as int,
                        threshold,
                        log,
                        t_out,
                    )
                    &&& (forall|k: int| 0 <= k < log.len() ==> 0 <= (#[trigger] log[k]).0 < old(
                        self,
                    ).all_docs().len() && call_ensures(
                        *old(callback),
                        (old(self).all_docs()[log[k].0], old(self).all_scores()[log[k].0]),
                        log[k].1,
                    ))
                },
    {
        let ghost eligible = self.eligibility();
        let ghost mut log: Seq<(int, Score)> = Seq::empty();
        let mut threshold = threshold;
        let ghost t0 = threshold;
        let mut i = self.pos;
        while i < self.candidates.len()
            invariant
                self.wf(),
                old(self).pos <= i <= self.candidates@.len(),
                self == old(self),
                eligible == self.eligibility(),
                forall|d: DocId, s: Score| call_requires(*callback, (d, s)),
                *callback == *old(callback),
                pruning_trace(
                    self.all_scores(),
                    eligible,
                    old(self).pos as int,
                    i as int,
                    t0,
                    log,
                    threshold,
                ),
                forall|k: int| 0 <= k < log.len() ==> 0 <= (#[trigger] log[k]).0
                    < self.candidates@.len() && call_ensures(
                    *old(callback),
                    (self.all_docs()[log[k].0], self.all_scores()[log[k].0]),
                    log[k].1,
                ),
            decreases self.candidates@.len() - i,
        {
            let ghost hi = i as int;
            let d = self.candidates[i];
            proof {
                assert(self.candidates@.contains(d));
            }
            let count = phrase_count_of(&self.term_postings, d);
            let mut handed = false;
            proof {
                assert(eligible[hi] == self.matches_at(hi));
                assert(self.matches_at(hi) == (count > 0));
            }
            if count > 0 {
                let s = if self.score_needed {
                    let fid = self.fieldnorm_reader.fieldnorm_id(d);
                    self.similarity.score(fid, count)
                } else {
                    0
                };
                proof {
                    assert(self.all_scores()[hi] == self.spec_score_at(d));
                    assert(s == self.spec_score_at(d));
                }
                if s > threshold {
                    let new_threshold = callback(d, s);
                    proof {
                        lemma_pruning_trace_call(
                            self.all_scores(), eligible, old(self).pos as int, hi, t0, log,
                            threshold, new_threshold,
                        );
                        log = log.push((hi, new_threshold));
                    }
                    threshold = new_threshold;
                    handed = true;
                }
            }
            if !handed {
                proof {
                    lemma_pruning_trace_skip(
                        self.all_scores(), eligible, old(self).pos as int, hi, t0, log, threshold,
                    );
                }
            }
            i = i + 1;
        }
        self.pos = i;
        proof {
            assert(pruning_trace(
                old(self).all_scores(),
                old(self).eligibility(),
                old(self).cursor(),
                old(self).all_docs().len() as int,
                t0,
                log,
                threshold,
            ));
        }
    }

    /// The number of positions at which the whole phrase matches within the
    /// current candidate document.
    pub fn phrase_count(&self) -> (count: u32)
        requires
            self.wf(),
            self.cursor() < self.all_docs().len(),
        ensures
            count as nat == phrase_count_spec(
                self.term_postings@,
                self.all_docs()[self.cursor()],
            ),
    {
        let d = self.candidates[self.pos];
        proof {
            assert(self.candidates@.contains(d));
        }
        phrase_count_of(&self.term_postings, d)
    }
}

/// Names `tp.take(n)` so quantified assertions can mention it.
spec fn tp_take(tp: Seq<(usize, SegmentPostings)>, n: int) -> Seq<(usize, SegmentPostings)> {
    tp.take(n)
}

impl DocSet for PhraseScorer {
    open spec fn all_docs(&self) -> Seq<DocId> {
        self.candidates@
    }

    open spec fn cursor(&self) -> int {
        self.pos as int
    }

    open spec fn inv(&self) -> bool {
        self.wf()
    }

    open spec fn same_but_cursor(&self, other: &Self) -> bool {
        &&& self.term_postings@ == other.term_postings@
        &&& self.candidates@ == other.candidates@
        &&& self.similarity == other.similarity
        &&& self.fieldnorm_reader.norms@ == other.fieldnorm_reader.norms@
        &&& self.score_needed == other.score_needed
    }

    proof fn same_but_cursor_refl(&self) {
    }

    proof fn inv_facts(&self) {
    }

    fn advance(&mut self) -> (d: DocId) {
        if self.pos < self.candidates.len() {
            self.pos = self.pos + 1;
        }
        self.doc()
    }

    fn seek(&mut self, target: DocId) -> (d: DocId) {
        let ghost start = self.pos as int;
        let i = crate::intersection::seek_from(&self.candidates, self.pos, target);
        self.pos = i;
        proof {
            lemma_seek_index_bounds(self.candidates@, start, target);
        }
        self.doc()
    }

    fn doc(&self) -> (d: DocId) {
        if self.pos < self.candidates.len() {
            self.candidates[self.pos]
        } else {
            TERMINATED
        }
    }

    fn size_hint(&self) -> (hint: u32) {
        proof {
            lemma_strictly_sorted_len(self.candidates@);
        }
        (self.candidates.len() - self.pos) as u32
    }
}

impl Scorer for PhraseScorer {
    open spec fn all_scores(&self) -> Seq<Score> {
        Seq::new(self.candidates@.len(), |i: int| self.spec_score_at(self.candidates@[i]))
    }

    proof fn scores_facts(&self) {
    }

    fn score(&mut self) -> (s: Score) {
        let d = self.candidates[self.pos];
        proof {
            assert(self.candidates@.contains(d));
            assert(self.all_scores()[self.cursor()] == self.spec_score_at(d));
        }
        if self.score_needed {
            let count = phrase_count_of(&self.term_postings, d);
            let fieldnorm_id = self.fieldnorm_reader.fieldnorm_id(d);
            self.similarity.score(fieldnorm_id, count)
        } else {
            0
        }
    }
}

impl TwoPhase for PhraseScorer {
    open spec fn matches_at(&self, cursor: int) -> bool {
        phrase_count_spec(self.term_postings@, self.all_docs()[cursor]) > 0
    }

    fn match_cost(&self) -> (cost: u64) {
        let n = self.term_postings.len() as u64;
        if n >= 0xffff_ffff {
            0xffff_ffff
        } else {
            n + 1
        }
    }

    fn matches(&mut self) -> (r: bool) {
        let d = self.candidates[self.pos];
        proof {
            assert(self.candidates@.contains(d));
        }
        let count = phrase_count_of(&self.term_postings, d);
        count > 0
    }
}

} // verus!
