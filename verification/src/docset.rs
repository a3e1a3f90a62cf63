//! The `DocSet` protocol: a stateful cursor over a strictly increasing,
//! deduplicated sequence of document ids, ending at `TERMINATED`.

use vstd::prelude::*;
use crate::DocId;

verus! {

/// Sentinel document id marking an exhausted cursor.
pub const TERMINATED: DocId = 0xffff_ffff;

/// A sequence of document ids is a valid posting sequence when it is strictly
/// increasing and every id is a real document (below `TERMINATED`).
pub open spec fn strictly_sorted(docs: Seq<DocId>) -> bool {
    &&& forall|i: int, j: int| 0 <= i < j < docs.len() ==> docs[i] < docs[j]
    &&& forall|i: int| 0 <= i < docs.len() ==> docs[i] < TERMINATED
}

/// The document a cursor at index `i` of `docs` reports: the entry itself
/// while the cursor is on the sequence, `TERMINATED` once past its end.
pub open spec fn doc_at(docs: Seq<DocId>, i: int) -> DocId {
    if 0 <= i < docs.len() {
        docs[i]
    } else {
        TERMINATED
    }
}

/// Index the cursor reaches when seeking from `from` to the first document
/// `>= target`: the smallest index `>= from` whose document is `>= target`,
/// or the sequence length when no such document remains. Because the
/// sequence is strictly increasing this is also exactly the index repeated
/// `advance()` calls would stop at.
pub open spec fn seek_index(docs: Seq<DocId>, from: int, target: DocId) -> int
    decreases docs.len() - from,
{
    if from < 0 {
        seek_index(docs, 0, target)
    } else if from >= docs.len() {
        docs.len() as int
    } else if docs[from] >= target {
        from
    } else {
        seek_index(docs, from + 1, target)
    }
}

/// Seeking is semantically equivalent to repeated `advance()` calls: from
/// any cursor, one advance step either reaches the first document
/// `>= target` or lands where the remaining seek starts — so the index a
/// seek reaches and the index stepping one document at a time reaches are
/// the same.
pub proof fn lemma_seek_is_repeated_advance(docs: Seq<DocId>, from: int, target: DocId)
    requires
        0 <= from < docs.len(),
        docs[from] < target,
    ensures
        seek_index(docs, from, target) == seek_index(docs, from + 1, target),
{
}

pub proof fn lemma_seek_index_bounds(docs: Seq<DocId>, from: int, target: DocId)
    requires
        0 <= from <= docs.len(),
    ensures
        from <= seek_index(docs, from, target) <= docs.len(),
        seek_index(docs, from, target) < docs.len() ==> docs[seek_index(docs, from, target)] >= target,
        forall|k: int| from <= k < seek_index(docs, from, target) ==> docs[k] < target,
    decreases docs.len() - from,
{
    if from < docs.len() && docs[from] < target {
        lemma_seek_index_bounds(docs, from + 1, target);
    }
}

/// On a strictly sorted sequence, seeking from the start lands exactly on
/// `target` if and only if the sequence contains `target`.
pub proof fn lemma_seek_index_finds(docs: Seq<DocId>, target: DocId)
    requires
        strictly_sorted(docs),
        target < TERMINATED,
    ensures
        doc_at(docs, seek_index(docs, 0, target)) == target <==> docs.contains(target),
{
    lemma_seek_index_bounds(docs, 0, target);
    let i = seek_index(docs, 0, target);
    if docs.contains(target) {
        let w = choose|w: int| 0 <= w < docs.len() && docs[w] == target;
        assert(i <= w);
        if i < w {
            assert(docs[i] < docs[w]);
        }
        assert(doc_at(docs, i) == target);
    } else {
        if 0 <= i < docs.len() && docs[i] == target {
            assert(docs.contains(target));
        }
        if i == docs.len() {
            assert(doc_at(docs, i) == TERMINATED);
        }
    }
}

/// Appending one element extends membership by exactly that element.
pub proof fn lemma_push_contains<A>(s: Seq<A>, x: A, d: A)
    ensures
        s.push(x).contains(d) <==> (s.contains(d) || d == x),
{
    if s.contains(d) {
        let w = choose|w: int| 0 <= w < s.len() && s[w] == d;
        assert(s.push(x)[w] == d);
    }
    if d == x {
        assert(s.push(x)[s.len() as int] == d);
    }
    if s.push(x).contains(d) {
        let w = choose|w: int| 0 <= w < s.push(x).len() && s.push(x)[w] == d;
        if w < s.len() {
            assert(s[w] == d);
        }
    }
}

/// Appending an element above the last one keeps a sequence strictly sorted.
pub proof fn lemma_sorted_push(s: Seq<DocId>, x: DocId)
    requires
        strictly_sorted(s),
        x < TERMINATED,
        s.len() > 0 ==> s.last() < x,
    ensures
        strictly_sorted(s.push(x)),
{
    assert forall|i: int, j: int| 0 <= i < j < s.push(x).len() implies s.push(x)[i] < s.push(x)[j] by {
        if j < s.len() {
        } else {
            assert(s.push(x)[j] == x);
            if i < s.len() {
                assert(s[i] <= s.last());
            }
        }
    }
}

/// Entries below `docs[i]` of a strictly sorted sequence all sit before
/// index `i`.
pub proof fn lemma_sorted_take_contains(docs: Seq<DocId>, i: int, d: DocId)
    requires
        strictly_sorted(docs),
        0 <= i <= docs.len(),
        docs.contains(d),
        i < docs.len() ==> d < docs[i],
    ensures
        docs.take(i).contains(d),
{
    let w = choose|w: int| 0 <= w < docs.len() && docs[w] == d;
    if i < docs.len() {
        assert(w < i);
        assert(docs.take(i)[w] == d);
    } else {
        assert(docs.take(i) =~= docs);
    }
}

/// Skipping a prefix of entries below `target` does not change where a seek
/// lands.
pub proof fn lemma_seek_index_skip(docs: Seq<DocId>, j: int, target: DocId)
    requires
        0 <= j <= docs.len(),
        forall|k: int| 0 <= k < j ==> docs[k] < target,
    ensures
        seek_index(docs, 0, target) == seek_index(docs, j, target),
    decreases j,
{
    if j > 0 {
        lemma_seek_index_skip(docs, j - 1, target);
        lemma_seek_is_repeated_advance(docs, j - 1, target);
    }
}

/// In a strictly sorted sequence a document has one index, and a seek from
/// the start lands exactly there.
pub proof fn lemma_index_unique(docs: Seq<DocId>, idx: int, d: DocId)
    requires
        strictly_sorted(docs),
        0 <= idx < docs.len(),
        docs[idx] == d,
    ensures
        seek_index(docs, 0, d) == idx,
{
    lemma_seek_index_bounds(docs, 0, d);
    let i = seek_index(docs, 0, d);
    assert(idx >= i);
    if idx > i {
        assert(docs[i] < docs[idx]);
    }
}

/// In a strictly increasing sequence every entry is at least as large as its
/// index; a sequence of document ids below `TERMINATED` therefore has fewer
/// than `TERMINATED + 1` entries.
pub proof fn lemma_strictly_sorted_len(docs: Seq<DocId>)
    requires
        strictly_sorted(docs),
    ensures
        forall|i: int| 0 <= i < docs.len() ==> docs[i] >= i,
        docs.len() <= TERMINATED,
{
    assert forall|i: int| 0 <= i < docs.len() implies docs[i] >= i by {
        lemma_sorted_index_lower_bound(docs, i);
    }
    if docs.len() > TERMINATED {
        lemma_sorted_index_lower_bound(docs, TERMINATED as int);
    }
}

proof fn lemma_sorted_index_lower_bound(docs: Seq<DocId>, i: int)
    requires
        strictly_sorted(docs),
        0 <= i < docs.len(),
    ensures
        docs[i] >= i,
    decreases i,
{
    if i > 0 {
        lemma_sorted_index_lower_bound(docs, i - 1);
    }
}

/// Sorted, deduplicated cursor over document identifiers.
///
/// The ghost view is the full sequence of documents the set visits
/// (`all_docs`) together with the cursor position (`cursor`). A freshly
/// built docset is positioned on its first document (cursor `0`); a cursor
/// equal to `all_docs().len()` means the set is exhausted and `doc()`
/// reports `TERMINATED`. Implementations must tolerate being driven purely
/// through `advance()`, a `seek` to the current document (a no-op) and a
/// `seek` past the end (terminates and stays terminated).
pub trait DocSet: Sized {
    /// The full, strictly increasing document sequence this set visits.
    spec fn all_docs(&self) -> Seq<DocId>;

    /// Current cursor position into `all_docs()`.
    spec fn cursor(&self) -> int;

    /// Structural well-formedness of the docset.
    spec fn inv(&self) -> bool;

    /// The two values agree on everything but the cursor: same documents
    /// and, for each implementation, the same underlying data (scores,
    /// postings, similarity and the like). Cursor-moving calls preserve
    /// this, so a caller keeps its knowledge of a scorer's contents across
    /// them.
    spec fn same_but_cursor(&self, other: &Self) -> bool;

    /// Agreement on everything but the cursor is reflexive.
    proof fn same_but_cursor_refl(&self)
        ensures
            self.same_but_cursor(self),
    ;

    /// A well-formed docset has a strictly sorted document sequence and a
    /// cursor within bounds.
    proof fn inv_facts(&self)
        requires
            self.inv(),
        ensures
            strictly_sorted(self.all_docs()),
            0 <= self.cursor() <= self.all_docs().len(),
    ;

    /// Moves to the next document and returns it, or `TERMINATED` once the
    /// set is exhausted; calling `advance` on an exhausted set keeps
    /// returning `TERMINATED`.
    fn advance(&mut self) -> (d: DocId)
        requires
            old(self).inv(),
        ensures
            final(self).inv(),
            final(self).all_docs() == old(self).all_docs(),
            final(self).same_but_cursor(old(self)),
            final(self).cursor() == if old(self).cursor() + 1 <= old(self).all_docs().len() {
                old(self).cursor() + 1
            } else {
                old(self).all_docs().len() as int
            },
            d == doc_at(final(self).all_docs(), final(self).cursor()),
    ;

    /// Moves forward to the first document `>= target` (a no-op when the
    /// current document already is) and returns the landed document, or
    /// `TERMINATED` when none remains. Semantically equivalent to repeated
    /// `advance()` calls.
    fn seek(&mut self, target: DocId) -> (d: DocId)
        requires
            old(self).inv(),
        ensures
            final(self).inv(),
            final(self).all_docs() == old(self).all_docs(),
            final(self).same_but_cursor(old(self)),
            final(self).cursor() == seek_index(old(self).all_docs(), old(self).cursor(), target),
            d == doc_at(final(self).all_docs(), final(self).cursor()),
            d == TERMINATED || d >= target,
    ;

    /// The current document, `TERMINATED` when exhausted. Takes `&self`:
    /// repeated calls return the same value and never move the cursor.
    fn doc(&self) -> (d: DocId)
        requires
            self.inv(),
        ensures
            d == doc_at(self.all_docs(), self.cursor()),
    ;

    /// Upper-bound estimate of the remaining documents, for merge-ordering
    /// heuristics only. Takes `&self`: it never mutates the position.
    fn size_hint(&self) -> (hint: u32)
        requires
            self.inv(),
        ensures
            self.all_docs().len() - self.cursor() <= hint as int,
    ;
}

} // verus!
