//! Two-phase matching: a cheap, possibly over-inclusive approximation
//! docset paired with an expensive exact verification. The host scorer's
//! positioning is the first phase; `matches()` is the second. A scorer with
//! no two-phase companion is implicitly "approximation is exact".

use vstd::prelude::*;
use crate::DocId;
use crate::docset::DocSet;

verus! {

/// The verification half of two-phase matching.
pub trait TwoPhase: DocSet {
    /// Whether the document the approximation is positioned on really
    /// matches.
    spec fn matches_at(&self, cursor: int) -> bool;

    /// An estimate of the cost of one `matches()` call, in simple
    /// operations; always positive. Callers verifying several two-phase
    /// candidates order the checks cheapest first.
    fn match_cost(&self) -> (cost: u64)
        requires
            self.inv(),
        ensures
            cost >= 1,
    ;

    /// Returns whether the current document of the approximation is a real
    /// match. Call only while positioned on a candidate: after at least one
    /// advance and before exhaustion.
    fn matches(&mut self) -> (r: bool)
        requires
            old(self).inv(),
            0 <= old(self).cursor() < old(self).all_docs().len(),
        ensures
            final(self).inv(),
            final(self).all_docs() == old(self).all_docs(),
            final(self).same_but_cursor(old(self)),
            final(self).cursor() == old(self).cursor(),
            r == old(self).matches_at(old(self).cursor()),
            final(self).matches_at(final(self).cursor()) == r,
    ;
}

/// Wraps the docset whose positioning serves as a two-phase approximation,
/// handing the underlying docset back when the pairing is dissolved.
pub struct TwoPhaseApproximation<TDocSet: DocSet> {
    pub approximation: TDocSet,
}

impl<TDocSet: DocSet> TwoPhaseApproximation<TDocSet> {
    pub fn new(approximation: TDocSet) -> (r: TwoPhaseApproximation<TDocSet>)
        ensures
            r.approximation == approximation,
    {
        TwoPhaseApproximation { approximation }
    }

    /// The underlying approximation docset.
    pub fn approximation(self) -> (r: TDocSet)
        ensures
            r == self.approximation,
    {
        self.approximation
    }
}

impl<TDocSet: DocSet> DocSet for TwoPhaseApproximation<TDocSet> {
    open spec fn all_docs(&self) -> Seq<DocId> {
        self.approximation.all_docs()
    }

    open spec fn cursor(&self) -> int {
        self.approximation.cursor()
    }

    open spec fn inv(&self) -> bool {
        self.approximation.inv()
    }

    open spec fn same_but_cursor(&self, other: &Self) -> bool {
        self.approximation.same_but_cursor(&other.approximation)
    }

    proof fn same_but_cursor_refl(&self) {
        self.approximation.same_but_cursor_refl();
    }

    proof fn inv_facts(&self) {
        self.approximation.inv_facts();
    }

    fn advance(&mut self) -> (d: DocId) {
        self.approximation.advance()
    }

    fn seek(&mut self, target: DocId) -> (d: DocId) {
        self.approximation.seek(target)
    }

    fn doc(&self) -> (d: DocId) {
        self.approximation.doc()
    }

    fn size_hint(&self) -> (hint: u32) {
        self.approximation.size_hint()
    }
}

} // verus!
