use vstd::prelude::*;

use crate::corpus_id::{opt_ix, CorpusId};
use crate::order::{first_of, increasing, last_of, next_in, position, prev_in};
use crate::testcase::Testcase;

verus! {

/// An ordered, indexed store of test cases: each entry gets an identifier
/// larger than any handed out before, and the store answers first, last,
/// next and previous in insertion order.
pub trait OrderedStore: Sized {
    /// The identifiers present, in insertion order.
    spec fn ids(&self) -> Seq<usize>;

    /// The test case stored under each identifier present.
    spec fn data(&self) -> Map<usize, Seq<u8>>;

    /// The identifier that the next insertion hands out.
    spec fn next_id(&self) -> usize;

    /// The store's internal invariant.
    spec fn wf(&self) -> bool;

    /// What a well-formed store guarantees of its model: identifiers in
    /// insertion order are increasing and below the next one to hand out, and
    /// exactly the identifiers present have a test case.
    proof fn lemma_wf(&self)
        requires
            self.wf(),
        ensures
            increasing(self.ids()),
            forall|i: int| 0 <= i < self.ids().len() ==> self.ids()[i] < self.next_id(),
            forall|k: usize| #[trigger] self.data().contains_key(k) <==> self.ids().contains(k),
    ;

    /// An empty store.
    fn new() -> (r: Self)
        ensures
            r.wf(),
            r.ids() == Seq::<usize>::empty(),
            r.next_id() == 0,
    ;

    /// Stores `testcase` as the new last entry under a fresh identifier,
    /// which it returns.
    fn insert(&mut self, testcase: Testcase) -> (r: CorpusId)
        requires
            old(self).wf(),
            old(self).next_id() < usize::MAX,
        ensures
            final(self).wf(),
            r.0 == old(self).next_id(),
            final(self).next_id() == old(self).next_id() + 1,
            final(self).ids() == old(self).ids().push(r.0),
            final(self).data() == old(self).data().insert(r.0, testcase@),
    ;

    /// Stores `testcase` as the new last entry under `idx`, which is no
    /// smaller than the identifier the store would hand out next.
    fn append(&mut self, idx: CorpusId, testcase: Testcase)
        requires
            old(self).wf(),
            old(self).next_id() <= idx.0 < usize::MAX,
        ensures
            final(self).wf(),
            final(self).next_id() == idx.0 + 1,
            final(self).ids() == old(self).ids().push(idx.0),
            final(self).data() == old(self).data().insert(idx.0, testcase@),
    ;

    /// Raises the identifier to hand out next to `next_id`.
    fn reserve_up_to(&mut self, next_id: usize)
        requires
            old(self).wf(),
            old(self).next_id() <= next_id,
        ensures
            final(self).wf(),
            final(self).next_id() == next_id,
            final(self).ids() == old(self).ids(),
            final(self).data() == old(self).data(),
    ;

    /// Removes the entry under `idx` and returns its test case; returns none
    /// if `idx` is absent.
    fn remove(&mut self, idx: CorpusId) -> (r: Option<Testcase>)
        requires
            old(self).wf(),
        ensures
            final(self).wf(),
            final(self).next_id() == old(self).next_id(),
            match r {
                Some(t) => {
                    &&& old(self).ids().contains(idx.0)
                    &&& t@ == old(self).data()[idx.0]
                    &&& final(self).ids() == old(self).ids().remove(position(old(self).ids(), idx.0))
                    &&& final(self).data() == old(self).data().remove(idx.0)
                },
                None => {
                    &&& !old(self).ids().contains(idx.0)
                    &&& final(self).ids() == old(self).ids()
                    &&& final(self).data() == old(self).data()
                },
            },
    ;

    /// Puts `testcase` in place of the one stored under `idx`, which it
    /// returns, leaving the order untouched; returns none if `idx` is absent.
    fn replace(&mut self, idx: CorpusId, testcase: Testcase) -> (r: Option<Testcase>)
        requires
            old(self).wf(),
        ensures
            final(self).wf(),
            final(self).ids() == old(self).ids(),
            final(self).next_id() == old(self).next_id(),
            match r {
                Some(t) => {
                    &&& old(self).ids().contains(idx.0)
                    &&& t@ == old(self).data()[idx.0]
                    &&& final(self).data() == old(self).data().insert(idx.0, testcase@)
                },
                None => {
                    &&& !old(self).ids().contains(idx.0)
                    &&& final(self).data() == old(self).data()
                },
            },
    ;

    /// The identifier that the next insertion hands out.
    fn peek_next_id(&self) -> (r: usize)
        ensures
            r == self.next_id(),
    ;

    /// The number of entries.
    fn count(&self) -> (r: usize)
        requires
            self.wf(),
        ensures
            r == self.ids().len(),
    ;

    /// The entry stored under `idx`, if any.
    fn get(&self, idx: CorpusId) -> (r: Option<&Testcase>)
        requires
            self.wf(),
        ensures
            match r {
                Some(t) => self.ids().contains(idx.0) && t@ == self.data()[idx.0],
                None => !self.ids().contains(idx.0),
            },
    ;

    /// The identifier after `idx` in insertion order; none if `idx` is the
    /// last one or is absent.
    fn next(&self, idx: CorpusId) -> (r: Option<CorpusId>)
        requires
            self.wf(),
        ensures
            opt_ix(r) == next_in(self.ids(), idx.0),
    ;

    /// The identifier before `idx` in insertion order; none if `idx` is the
    /// first one or is absent.
    fn prev(&self, idx: CorpusId) -> (r: Option<CorpusId>)
        requires
            self.wf(),
        ensures
            opt_ix(r) == prev_in(self.ids(), idx.0),
    ;

    /// The first identifier in insertion order, if any.
    fn first(&self) -> (r: Option<CorpusId>)
        requires
            self.wf(),
        ensures
            opt_ix(r) == first_of(self.ids()),
    ;

    /// The last identifier in insertion order, if any.
    fn last(&self) -> (r: Option<CorpusId>)
        requires
            self.wf(),
        ensures
            opt_ix(r) == last_of(self.ids()),
    ;
}

} // verus!
