//! In-memory model of a segment: per-term positional postings, field norms
//! and a deletion set. The postings provider applies deletions internally;
//! the scorer layer above never sees deleted documents.

use vstd::prelude::*;
use crate::DocId;
use crate::docset::{
    strictly_sorted, seek_index, lemma_seek_index_finds,
    lemma_push_contains, lemma_sorted_push, lemma_index_unique, TERMINATED,
};

verus! {

/// A term of a field: the token itself is an identifier handed out by the
/// (external) tokenizer.
#[derive(Clone, Copy, PartialEq, Eq, Structural)]
pub struct Term {
    pub field: u32,
    pub token: u64,
}

impl Term {
    pub fn from_field_token(field: u32, token: u64) -> (t: Term)
        ensures
            t == (Term { field, token }),
    {
        Term { field, token }
    }

    pub fn field(&self) -> (f: u32)
        ensures
            f == self.field,
    {
        self.field
    }
}

/// What a postings lookup is asked to decode.
#[derive(Clone, Copy, PartialEq, Eq, Structural)]
pub enum IndexRecordOption {
    Basic,
    WithFreqs,
    WithFreqsAndPositions,
}

/// The positional posting list of one term within one segment: the sorted
/// documents containing the term and, per document, the sorted positions at
/// which it occurs (at least one per listed document).
pub struct SegmentPostings {
    pub docs: Vec<DocId>,
    pub positions: Vec<Vec<u32>>,
}

impl SegmentPostings {
    pub open spec fn spec_docs(&self) -> Seq<DocId> {
        self.docs@
    }

    pub open spec fn spec_positions(&self) -> Seq<Seq<u32>> {
        self.positions@.map_values(|v: Vec<u32>| v@)
    }

    pub open spec fn wf(&self) -> bool {
        &&& strictly_sorted(self.docs@)
        &&& self.positions@.len() == self.docs@.len()
        &&& forall|i: int| 0 <= i < self.docs@.len() ==> strictly_sorted(
            #[trigger] self.spec_positions()[i],
        )
        &&& forall|i: int| 0 <= i < self.docs@.len() ==> (#[trigger] self.spec_positions()[i]).len()
            >= 1
    }

    pub fn new(docs: Vec<DocId>, positions: Vec<Vec<u32>>) -> (p: SegmentPostings)
        requires
            (SegmentPostings { docs: docs, positions: positions }).wf(),
        ensures
            p.wf(),
            p.docs@ == docs@,
            p.spec_positions() == (SegmentPostings { docs, positions }).spec_positions(),
    {
        SegmentPostings { docs, positions }
    }
}

/// The positions of the term within document `d` (meaningful when `d` is in
/// the posting's document list).
pub open spec fn positions_at(p: SegmentPostings, d: DocId) -> Seq<u32> {
    p.spec_positions()[seek_index(p.docs@, 0, d)]
}

/// Tests membership of `d` in a strictly sorted document list.
fn contains_doc(docs: &Vec<DocId>, d: DocId) -> (r: bool)
    requires
        strictly_sorted(docs@),
        d < TERMINATED,
    ensures
        r <==> docs@.contains(d),
{
    let i = crate::intersection::seek_from(docs, 0, d);
    proof {
        lemma_seek_index_finds(docs@, d);
    }
    i < docs.len() && docs[i] == d
}

/// Removes the documents of `deleted` from a posting list, keeping every
/// surviving document's position list.
fn filter_deleted(postings: &SegmentPostings, deleted: &Vec<DocId>) -> (out: SegmentPostings)
    requires
        postings.wf(),
        strictly_sorted(deleted@),
    ensures
        out.wf(),
        forall|d: DocId| out.spec_docs().contains(d) <==> (postings.spec_docs().contains(d)
            && !deleted@.contains(d)),
        forall|d: DocId| out.spec_docs().contains(d) ==> positions_at(out, d) == positions_at(
            *postings,
            d,
        ),
{
    let mut docs: Vec<DocId> = Vec::new();
    let mut positions: Vec<Vec<u32>> = Vec::new();
    let mut i: usize = 0;
    while i < postings.docs.len()
        invariant
            postings.wf(),
            strictly_sorted(deleted@),
            i <= postings.docs@.len(),
            strictly_sorted(docs@),
            positions@.len() == docs@.len(),
            forall|d: DocId| docs@.contains(d) <==> (postings.docs@.take(i as int).contains(d)
                && !deleted@.contains(d)),
            forall|k: int| 0 <= k < docs@.len() ==> #[trigger] positions@[k]@ == positions_at(
                *postings,
                docs@[k],
            ),
            forall|k: int| 0 <= k < docs@.len() ==> strictly_sorted(#[trigger] positions@[k]@)
                && positions@[k]@.len() >= 1,
            docs@.len() > 0 && i < postings.docs@.len() ==> docs@.last()
                < postings.docs@[i as int],
        decreases postings.docs@.len() - i,
    {
        let ghost old_docs = docs@;
        let ghost oi = i as int;
        let d = postings.docs[i];
        if !contains_doc(deleted, d) {
            proof {
                lemma_sorted_push(docs@, d);
                lemma_index_unique(postings.docs@, oi, d);
                assert(postings.spec_positions()[oi] == postings.positions@[oi]@);
            }
            docs.push(d);
            let row = postings.positions[i].clone();
            positions.push(row);
        }
        i = i + 1;
        proof {
            assert(postings.docs@.take(i as int) =~= postings.docs@.take(oi).push(d));
            assert forall|x: DocId| docs@.contains(x) <==> (postings.docs@.take(
                i as int,
            ).contains(x) && !deleted@.contains(x)) by {
                lemma_push_contains(postings.docs@.take(oi), d, x);
                if !deleted@.contains(d) {
                    lemma_push_contains(old_docs, d, x);
                }
            }
        }
    }
    proof {
        assert(postings.docs@.take(i as int) =~= postings.docs@);
    }
    let out = SegmentPostings { docs, positions };
    proof {
        assert forall|d: DocId| out.spec_docs().contains(d) implies positions_at(out, d)
            == positions_at(*postings, d) by {
            let w = choose|w: int| 0 <= w < out.docs@.len() && out.docs@[w] == d;
            lemma_index_unique(out.docs@, w, d);
            assert(out.spec_positions()[w] == out.positions@[w]@);
        }
    }
    out
}

/// Maps a document to its compact field-length identifier, consumed by the
/// similarity function.
pub struct FieldNormReader {
    pub norms: Vec<u8>,
}

/// The field-norm identifier `norms` assigns to `doc`; documents past the
/// table get the zero norm.
pub open spec fn spec_norm_id(norms: Seq<u8>, doc: DocId) -> u8 {
    if doc < norms.len() {
        norms[doc as int]
    } else {
        0
    }
}

impl FieldNormReader {
    pub open spec fn spec_fieldnorm_id(&self, doc: DocId) -> u8 {
        spec_norm_id(self.norms@, doc)
    }

    pub fn new(norms: Vec<u8>) -> (r: FieldNormReader)
        ensures
            r.norms@ == norms@,
    {
        FieldNormReader { norms }
    }

    pub fn fieldnorm_id(&self, doc: DocId) -> (id: u8)
        ensures
            id == self.spec_fieldnorm_id(doc),
    {
        if (doc as usize) < self.norms.len() {
            self.norms[doc as usize]
        } else {
            0
        }
    }
}

/// One segment's read-only view: per-term postings, per-field norms and the
/// segment's deletion set (applied by the postings lookups, never by the
/// scorer layer).
pub struct SegmentReader {
    pub postings: Vec<(Term, SegmentPostings)>,
    pub fieldnorms: Vec<(u32, FieldNormReader)>,
    pub deleted: Vec<DocId>,
}

/// The stored posting list of `term`: the first entry registered under it.
pub open spec fn stored_postings(entries: Seq<(Term, SegmentPostings)>, term: Term) -> Option<
    SegmentPostings,
>
    decreases entries.len(),
{
    if entries.len() == 0 {
        None
    } else if entries[0].0 == term {
        Some(entries[0].1)
    } else {
        stored_postings(entries.drop_first(), term)
    }
}

/// The stored norms of `field`: the first entry registered under it, empty
/// when the field has none.
pub open spec fn stored_norms(entries: Seq<(u32, FieldNormReader)>, field: u32) -> Seq<u8>
    decreases entries.len(),
{
    if entries.len() == 0 {
        Seq::empty()
    } else if entries[0].0 == field {
        entries[0].1.norms@
    } else {
        stored_norms(entries.drop_first(), field)
    }
}

impl SegmentReader {
    pub open spec fn wf(&self) -> bool {
        &&& forall|i: int| 0 <= i < self.postings@.len() ==> (#[trigger] self.postings@[i].1).wf()
        &&& strictly_sorted(self.deleted@)
    }

    pub fn new(
        postings: Vec<(Term, SegmentPostings)>,
        fieldnorms: Vec<(u32, FieldNormReader)>,
        deleted: Vec<DocId>,
    ) -> (r: SegmentReader)
        requires
            (SegmentReader { postings: postings, fieldnorms: fieldnorms, deleted: deleted }).wf(),
        ensures
            r.wf(),
            r == (SegmentReader { postings, fieldnorms, deleted }),
    {
        SegmentReader { postings, fieldnorms, deleted }
    }

    pub fn has_deletes(&self) -> (r: bool)
        ensures
            r <==> self.deleted@.len() > 0,
    {
        self.deleted.len() > 0
    }

    /// The norms reader of `field`.
    pub fn get_fieldnorms_reader(&self, field: u32) -> (r: FieldNormReader)
        ensures
            r.norms@ == stored_norms(self.fieldnorms@, field),
    {
        let mut i: usize = 0;
        proof {
            assert(self.fieldnorms@.skip(0) =~= self.fieldnorms@);
        }
        while i < self.fieldnorms.len()
            invariant
                i <= self.fieldnorms@.len(),
                stored_norms(self.fieldnorms@, field) == stored_norms(
                    self.fieldnorms@.skip(i as int),
                    field,
                ),
            decreases self.fieldnorms@.len() - i,
        {
            proof {
                assert(self.fieldnorms@.skip(i as int)[0] == self.fieldnorms@[i as int]);
                assert(self.fieldnorms@.skip(i as int).drop_first() =~= self.fieldnorms@.skip(
                    i + 1,
                ));
            }
            if self.fieldnorms[i].0 == field {
                return FieldNormReader { norms: self.fieldnorms[i].1.norms.clone() };
            }
            i = i + 1;
        }
        proof {
            assert(self.fieldnorms@.skip(i as int) =~= Seq::<(u32, FieldNormReader)>::empty());
        }
        FieldNormReader { norms: Vec::new() }
    }

    /// The posting list of `term` with the segment's deleted documents
    /// filtered out; `None` when the segment has no postings for the term.
    pub fn read_postings(&self, term: &Term, option: IndexRecordOption) -> (r: Option<
        SegmentPostings,
    >)
        requires
            self.wf(),
        ensures
            r.is_some() <==> stored_postings(self.postings@, *term).is_some(),
            r.is_some() ==> {
                let raw = stored_postings(self.postings@, *term).unwrap();
                let got = r.unwrap();
                &&& got.wf()
                &&& forall|d: DocId| got.spec_docs().contains(d) <==> (raw.spec_docs().contains(d)
                    && !self.deleted@.contains(d))
                &&& forall|d: DocId| got.spec_docs().contains(d) ==> positions_at(got, d)
                    == positions_at(raw, d)
            },
    {
        match self.lookup_postings(term) {
            None => None,
            Some(idx) => {
                let filtered = filter_deleted(&self.postings[idx].1, &self.deleted);
                Some(filtered)
            },
        }
    }

    /// The raw posting list of `term`, without deletion filtering.
    pub fn read_postings_no_deletes(&self, term: &Term, option: IndexRecordOption) -> (r: Option<
        SegmentPostings,
    >)
        requires
            self.wf(),
        ensures
            r.is_some() <==> stored_postings(self.postings@, *term).is_some(),
            r.is_some() ==> {
                let raw = stored_postings(self.postings@, *term).unwrap();
                let got = r.unwrap();
                &&& got.wf()
                &&& got.spec_docs() == raw.spec_docs()
                &&& got.spec_positions() == raw.spec_positions()
            },
    {
        match self.lookup_postings(term) {
            None => None,
            Some(idx) => {
                let entry = &self.postings[idx].1;
                let docs = entry.docs.clone();
                let positions = copy_rows(&entry.positions);
                let out = SegmentPostings { docs, positions };
                proof {
                    assert(out.spec_positions() =~= stored_postings(
                        self.postings@,
                        *term,
                    ).unwrap().spec_positions());
                }
                Some(out)
            },
        }
    }

    /// Index of the first posting entry registered under `term`.
    fn lookup_postings(&self, term: &Term) -> (r: Option<usize>)
        ensures
            r.is_some() <==> stored_postings(self.postings@, *term).is_some(),
            r.is_some() ==> {
                let idx = r.unwrap();
                &&& idx < self.postings@.len()
                &&& self.postings@[idx as int].0 == *term
                &&& stored_postings(self.postings@, *term) == Some(self.postings@[idx as int].1)
            },
    {
        let mut i: usize = 0;
        proof {
            assert(self.postings@.skip(0) =~= self.postings@);
        }
        while i < self.postings.len()
            invariant
                i <= self.postings@.len(),
                stored_postings(self.postings@, *term) == stored_postings(
                    self.postings@.skip(i as int),
                    *term,
                ),
            decreases self.postings@.len() - i,
        {
            proof {
                assert(self.postings@.skip(i as int)[0] == self.postings@[i as int]);
                assert(self.postings@.skip(i as int).drop_first() =~= self.postings@.skip(i + 1));
            }
            if self.postings[i].0 == *term {
                return Some(i);
            }
            i = i + 1;
        }
        proof {
            assert(self.postings@.skip(i as int) =~= Seq::<(Term, SegmentPostings)>::empty());
        }
        None
    }
}

/// Copies a list of position rows.
fn copy_rows(rows: &Vec<Vec<u32>>) -> (out: Vec<Vec<u32>>)
    ensures
        out@.len() == rows@.len(),
        forall|i: int| 0 <= i < rows@.len() ==> #[trigger] out@[i]@ == rows@[i]@,
{
    let mut out: Vec<Vec<u32>> = Vec::new();
    let mut i: usize = 0;
    while i < rows.len()
        invariant
            i <= rows@.len(),
            out@.len() == i,
            forall|k: int| 0 <= k < i ==> #[trigger] out@[k]@ == rows@[k]@,
        decreases rows@.len() - i,
    {
        out.push(rows[i].clone());
        i = i + 1;
    }
    out
}

} // verus!
