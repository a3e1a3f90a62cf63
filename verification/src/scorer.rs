//! Scorers: docsets that also produce a relevance score for their current
//! position, and `VecScorer`, the segment-local scorer every combinator
//! builds its result in.

use vstd::prelude::*;
use crate::{DocId, Score};
use crate::docset::{DocSet, TERMINATED, strictly_sorted, seek_index, lemma_seek_index_bounds};

verus! {

/// Scored set of documents matching a query within a specific segment.
///
/// The ghost view extends the docset view with `all_scores`, the score of
/// each document of `all_docs`, aligned index by index. `score()` may
/// recompute its result on every call, and may cache internally, but never
/// moves the cursor or changes the emitted documents and scores.
pub trait Scorer: DocSet {
    /// Scores aligned with `all_docs()`: document `all_docs()[i]` scores
    /// `all_scores()[i]`.
    spec fn all_scores(&self) -> Seq<Score>;

    /// A well-formed scorer has exactly one score per document.
    proof fn scores_facts(&self)
        requires
            self.inv(),
        ensures
            self.all_scores().len() == self.all_docs().len(),
    ;

    /// Score of the current position. Valid only while positioned on a
    /// document.
    fn score(&mut self) -> (s: Score)
        requires
            old(self).inv(),
            old(self).cursor() < old(self).all_docs().len(),
        ensures
            final(self).inv(),
            final(self).all_docs() == old(self).all_docs(),
            final(self).all_scores() == old(self).all_scores(),
            final(self).same_but_cursor(old(self)),
            final(self).cursor() == old(self).cursor(),
            s == old(self).all_scores()[old(self).cursor()],
    ;
}

/// Every position is eligible: the mask of a scorer whose approximation is
/// exact.
pub open spec fn all_eligible(n: nat) -> Seq<bool> {
    Seq::new(n, |i: int| true)
}

/// The callback invocations a pruning drain makes over positions `lo..hi`
/// of a score sequence, starting from threshold `t_in` and ending at
/// `t_out`. Each log entry is the position handed over and the threshold
/// the callback returned for the following positions; a position is skipped
/// exactly when it is ineligible (fails its two-phase check) or its score
/// does not exceed the threshold in force there.
pub open spec fn pruning_trace(
    scores: Seq<Score>,
    eligible: Seq<bool>,
    lo: int,
    hi: int,
    t_in: Score,
    log: Seq<(int, Score)>,
    t_out: Score,
) -> bool
    decreases log.len(),
{
    if log.len() == 0 {
        &&& t_out == t_in
        &&& forall|i: int| lo <= i < hi ==> (!eligible[i] || scores[i] <= t_in)
    } else {
        let e = log[0];
        &&& lo <= e.0 < hi
        &&& eligible[e.0]
        &&& scores[e.0] > t_in
        &&& (forall|i: int| lo <= i < e.0 ==> (!eligible[i] || scores[i] <= t_in))
        &&& pruning_trace(scores, eligible, e.0 + 1, hi, e.1, log.drop_first(), t_out)
    }
}

/// A trace extends over a skipped position: one that is ineligible or does
/// not beat the threshold in force at the end of the trace.
pub proof fn lemma_pruning_trace_skip(
    scores: Seq<Score>,
    eligible: Seq<bool>,
    lo: int,
    hi: int,
    t_in: Score,
    log: Seq<(int, Score)>,
    t_out: Score,
)
    requires
        pruning_trace(scores, eligible, lo, hi, t_in, log, t_out),
        lo <= hi,
        !eligible[hi] || scores[hi] <= t_out,
    ensures
        pruning_trace(scores, eligible, lo, hi + 1, t_in, log, t_out),
    decreases log.len(),
{
    if log.len() > 0 {
        lemma_pruning_trace_skip(
            scores, eligible, log[0].0 + 1, hi, log[0].1, log.drop_first(), t_out,
        );
    }
}

/// A trace extends over a handed-over position: an eligible one beating the
/// threshold in force, after which the callback's returned threshold takes
/// effect.
pub proof fn lemma_pruning_trace_call(
    scores: Seq<Score>,
    eligible: Seq<bool>,
    lo: int,
    hi: int,
    t_in: Score,
    log: Seq<(int, Score)>,
    t_out: Score,
    t_new: Score,
)
    requires
        pruning_trace(scores, eligible, lo, hi, t_in, log, t_out),
        lo <= hi,
        eligible[hi],
        scores[hi] > t_out,
    ensures
        pruning_trace(scores, eligible, lo, hi + 1, t_in, log.push((hi, t_new)), t_new),
    decreases log.len(),
{
    if log.len() == 0 {
        assert(log.push((hi, t_new))[0] == (hi, t_new));
        assert(log.push((hi, t_new)).drop_first() =~= Seq::<(int, Score)>::empty());
        assert(pruning_trace(
            scores,
            eligible,
            hi + 1,
            hi + 1,
            t_new,
            log.push((hi, t_new)).drop_first(),
            t_new,
        ));
    } else {
        lemma_pruning_trace_call(
            scores, eligible, log[0].0 + 1, hi, log[0].1, log.drop_first(), t_out, t_new,
        );
        assert(log.push((hi, t_new))[0] == log[0]);
        assert(log.push((hi, t_new)).drop_first() =~= log.drop_first().push((hi, t_new)));
        assert(pruning_trace(
            scores,
            eligible,
            log[0].0 + 1,
            hi + 1,
            log[0].1,
            log.push((hi, t_new)).drop_first(),
            t_new,
        ));
    }
}

/// A scorer over an in-memory posting: a strictly increasing document list,
/// one score per document, and a cursor. Every merge combinator produces
/// its result as a `VecScorer`.
pub struct VecScorer {
    pub docs: Vec<DocId>,
    pub scores: Vec<Score>,
    pub pos: usize,
}

impl VecScorer {
    pub open spec fn wf(&self) -> bool {
        &&& strictly_sorted(self.docs@)
        &&& self.scores@.len() == self.docs@.len()
        &&& self.pos <= self.docs@.len()
    }

    /// Builds a scorer positioned on the first document of the posting.
    pub fn new(docs: Vec<DocId>, scores: Vec<Score>) -> (s: VecScorer)
        requires
            strictly_sorted(docs@),
            scores@.len() == docs@.len(),
        ensures
            s.inv(),
            s.all_docs() == docs@,
            s.all_scores() == scores@,
            s.cursor() == 0,
    {
        VecScorer { docs, scores, pos: 0 }
    }

    /// Drains the scorer from its current position to exhaustion, handing
    /// every remaining `(document, score)` pair to the callback — the bulk
    /// path a collector consumes; semantically identical to alternating
    /// `advance()` and `score()` by hand. A `VecScorer` has no two-phase
    /// companion: its approximation is exact, so every position is handed
    /// over unconditionally.
    pub fn for_each<F: FnMut(DocId, Score)>(&mut self, callback: &mut F)
        requires
            old(self).inv(),
            forall|d: DocId, s: Score| call_requires(*old(callback), (d, s)),
        ensures
            final(self).inv(),
            final(self).all_docs() == old(self).all_docs(),
            final(self).all_scores() == old(self).all_scores(),
            final(self).cursor() == old(self).all_docs().len(),
            forall|i: int| old(self).cursor() <= i < old(self).all_docs().len()
                ==> call_ensures(
                *old(callback),
                (old(self).all_docs()[i], old(self).all_scores()[i]),
                (),
            ),
    {
        while self.pos < self.docs.len()
            invariant
                self.wf(),
                self.docs@ == old(self).docs@,
                self.scores@ == old(self).scores@,
                old(self).pos <= self.pos,
                forall|d: DocId, s: Score| call_requires(*callback, (d, s)),
                *callback == *old(callback),
                forall|i: int| old(self).pos <= i < self.pos ==> call_ensures(
                    *old(callback),
                    (self.docs@[i], self.scores@[i]),
                    (),
                ),
            decreases self.docs@.len() - self.pos,
        {
            let d = self.docs[self.pos];
            let s = self.scores[self.pos];
            callback(d, s);
            self.pos = self.pos + 1;
        }
    }

    /// Drains the scorer, invoking the callback only at positions whose
    /// score exceeds the threshold; the callback returns the new threshold
    /// for the following positions, letting a top-k collector prune
    /// low-value postings dynamically. The drain follows a pruning trace:
    /// the callback is invoked at exactly the positions the threshold
    /// discipline admits, with each invocation's returned threshold in
    /// force afterwards.
    pub fn for_each_pruning<F: FnMut(DocId, Score) -> Score>(
        &mut self,
        threshold: Score,
        callback: &mut F,
    )
        requires
            old(self).inv(),
            forall|d: DocId, s: Score| call_requires(*old(callback), (d, s)),
        ensures
            final(self).inv(),
            final(self).all_docs() == old(self).all_docs(),
            final(self).all_scores() == old(self).all_scores(),
            final(self).cursor() == old(self).all_docs().len(),
            exists|log: Seq<(int, Score)>, t_out: Score|
                {
                    &&& pruning_trace(
                        old(self).all_scores(),
                        all_eligible(old(self).all_docs().len()),
                        old(self).cursor(),
                        old(self).all_docs().len() as int,
                        threshold,
                        log,
                        t_out,
                    )
                    &&& (forall|k: int| 0 <= k < log.len() ==> 0 <= (#[trigger] log[k]).0 < old(
                        self,
                    ).all_docs().len() && call_ensures(
                        *old(callback),
                        (old(self).all_docs()[log[k].0], old(self).all_scores()[log[k].0]),
                        log[k].1,
                    ))
                },
    {
        let ghost eligible = all_eligible(old(self).docs@.len());
        let ghost mut log: Seq<(int, Score)> = Seq::empty();
        let mut threshold = threshold;
        let ghost t0 = threshold;
        while self.pos < self.docs.len()
            invariant
                self.wf(),
                self.docs@ == old(self).docs@,
                self.scores@ == old(self).scores@,
                old(self).pos <= self.pos,
                eligible == all_eligible(self.docs@.len()),
                forall|d: DocId, s: Score| call_requires(*callback, (d, s)),
                *callback == *old(callback),
                pruning_trace(
                    self.scores@,
                    eligible,
                    old(self).pos as int,
                    self.pos as int,
                    t0,
                    log,
                    threshold,
                ),
                forall|k: int| 0 <= k < log.len() ==> 0 <= (#[trigger] log[k]).0
                    < self.docs@.len() && call_ensures(
                    *old(callback),
                    (self.docs@[log[k].0], self.scores@[log[k].0]),
                    log[k].1,
                ),
            decreases self.docs@.len() - self.pos,
        {
            let ghost hi = self.pos as int;
            let d = self.docs[self.pos];
            let s = self.scores[self.pos];
            if s > threshold {
                proof {
                    assert(eligible[hi]);
                }
                let new_threshold = callback(d, s);
                proof {
                    lemma_pruning_trace_call(
                        self.scores@, eligible, old(self).pos as int, hi, t0, log, threshold,
                        new_threshold,
                    );
                    log = log.push((hi, new_threshold));
                }
                threshold = new_threshold;
            } else {
                proof {
                    lemma_pruning_trace_skip(
                        self.scores@, eligible, old(self).pos as int, hi, t0, log, threshold,
                    );
                }
            }
            self.pos = self.pos + 1;
        }
        proof {
            assert(pruning_trace(
                old(self).all_scores(),
                all_eligible(old(self).all_docs().len()),
                old(self).cursor(),
                old(self).all_docs().len() as int,
                t0,
                log,
                threshold,
            ));
        }
    }

    /// A scorer over zero documents: immediately `TERMINATED`.
    pub fn empty() -> (s: VecScorer)
        ensures
            s.inv(),
            s.all_docs() == Seq::<DocId>::empty(),
            s.all_scores() == Seq::<Score>::empty(),
            s.cursor() == 0,
    {
        let s = VecScorer { docs: Vec::new(), scores: Vec::new(), pos: 0 };
        proof {
            assert(s.docs@ =~= Seq::<DocId>::empty());
            assert(s.scores@ =~= Seq::<Score>::empty());
        }
        s
    }
}

impl DocSet for VecScorer {
    open spec fn all_docs(&self) -> Seq<DocId> {
        self.docs@
    }

    open spec fn cursor(&self) -> int {
        self.pos as int
    }

    open spec fn inv(&self) -> bool {
        self.wf()
    }

    open spec fn same_but_cursor(&self, other: &Self) -> bool {
        self.docs@ == other.docs@ && self.scores@ == other.scores@
    }

    proof fn same_but_cursor_refl(&self) {
    }

    proof fn inv_facts(&self) {
    }

    fn advance(&mut self) -> (d: DocId) {
        if self.pos < self.docs.len() {
            self.pos = self.pos + 1;
        }
        self.doc()
    }

    fn seek(&mut self, target: DocId) -> (d: DocId) {
        while self.pos < self.docs.len() && self.docs[self.pos] < target
            invariant
                self.wf(),
                self.docs@ == old(self).docs@,
                self.scores@ == old(self).scores@,
                old(self).pos <= self.pos,
                seek_index(self.docs@, old(self).pos as int, target)
                    == seek_index(self.docs@, self.pos as int, target),
            decreases self.docs@.len() - self.pos,
        {
            self.pos = self.pos + 1;
        }
        proof {
            lemma_seek_index_bounds(self.docs@, self.pos as int, target);
        }
        self.doc()
    }

    fn doc(&self) -> (d: DocId) {
        if self.pos < self.docs.len() {
            self.docs[self.pos]
        } else {
            TERMINATED
        }
    }

    fn size_hint(&self) -> (hint: u32) {
        proof {
            crate::docset::lemma_strictly_sorted_len(self.docs@);
        }
        let remaining = self.docs.len() - self.pos;
        remaining as u32
    }
}

impl Scorer for VecScorer {
    open spec fn all_scores(&self) -> Seq<Score> {
        self.scores@
    }

    proof fn scores_facts(&self) {
    }

    fn score(&mut self) -> (s: Score) {
        self.scores[self.pos]
    }
}

/// Wraps a plain `DocSet` into a `Scorer` that reports the same constant
/// score at every position; useful where a docset is needed in a scoring
/// position.
pub struct ConstScorer<TDocSet: DocSet> {
    pub docset: TDocSet,
    pub score: Score,
}

impl<TDocSet: DocSet> ConstScorer<TDocSet> {
    /// Creates a new `ConstScorer`.
    pub fn new(docset: TDocSet, score: Score) -> (s: ConstScorer<TDocSet>)
        requires
            docset.inv(),
        ensures
            s.inv(),
            s.all_docs() == docset.all_docs(),
            s.cursor() == docset.cursor(),
            s.all_scores() == Seq::new(docset.all_docs().len(), |i: int| score),
    {
        ConstScorer { docset, score }
    }
}

impl<TDocSet: DocSet> From<TDocSet> for ConstScorer<TDocSet> {
    /// Wraps a docset as a scorer with the unit score.
    fn from(docset: TDocSet) -> (r: Self) {
        ConstScorer { docset, score: 1 }
    }
}

impl<TDocSet: DocSet> vstd::std_specs::convert::FromSpecImpl<TDocSet> for ConstScorer<TDocSet> {
    open spec fn obeys_from_spec() -> bool {
        true
    }

    open spec fn from_spec(docset: TDocSet) -> Self {
        ConstScorer { docset, score: 1 }
    }
}

impl<TDocSet: DocSet> DocSet for ConstScorer<TDocSet> {
    open spec fn all_docs(&self) -> Seq<DocId> {
        self.docset.all_docs()
    }

    open spec fn cursor(&self) -> int {
        self.docset.cursor()
    }

    open spec fn inv(&self) -> bool {
        self.docset.inv()
    }

    open spec fn same_but_cursor(&self, other: &Self) -> bool {
        self.docset.same_but_cursor(&other.docset) && self.score == other.score
    }

    proof fn same_but_cursor_refl(&self) {
        self.docset.same_but_cursor_refl();
    }

    proof fn inv_facts(&self) {
        self.docset.inv_facts();
    }

    fn advance(&mut self) -> (d: DocId) {
        self.docset.advance()
    }

    fn seek(&mut self, target: DocId) -> (d: DocId) {
        self.docset.seek(target)
    }

    fn doc(&self) -> (d: DocId) {
        self.docset.doc()
    }

    fn size_hint(&self) -> (hint: u32) {
        self.docset.size_hint()
    }
}

impl<TDocSet: DocSet> Scorer for ConstScorer<TDocSet> {
    open spec fn all_scores(&self) -> Seq<Score> {
        Seq::new(self.docset.all_docs().len(), |i: int| self.score)
    }

    proof fn scores_facts(&self) {
    }

    fn score(&mut self) -> (s: Score) {
        proof {
            self.docset.inv_facts();
            self.docset.same_but_cursor_refl();
            assert(self.all_scores()[self.cursor()] == self.score);
        }
        self.score
    }
}

} // verus!
