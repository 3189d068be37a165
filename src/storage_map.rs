use vstd::prelude::*;

use crate::corpus_id::{opt_ix, CorpusId};
use crate::testcase::Testcase;

verus! {

/// One stored entry: the test case and its neighbours in insertion order.
pub struct TestcaseStorageItem {
    pub testcase: Testcase,
    pub prev: Option<CorpusId>,
    pub next: Option<CorpusId>,
}

impl View for TestcaseStorageItem {
    type V = (Seq<u8>, Option<usize>, Option<usize>);

    open spec fn view(&self) -> (Seq<u8>, Option<usize>, Option<usize>) {
        (self.testcase@, opt_ix(self.prev), opt_ix(self.next))
    }
}

/// The hash map that holds the entries, keyed by the integer of their identifier.
#[verifier::external_body]
pub struct TestcaseStorageMap {
    inner: hashbrown::HashMap<usize, TestcaseStorageItem>,
}

/// What a storage map holds: for each key, the view of its entry.
pub uninterp spec fn stored_items(m: TestcaseStorageMap) -> Map<usize, (Seq<u8>, Option<usize>, Option<usize>)>;

impl TestcaseStorageMap {
    /// Relies on hashbrown::HashMap::new: the new map holds no entry.
    #[verifier::external_body]
    pub(crate) fn new() -> (r: TestcaseStorageMap)
        ensures
            stored_items(r).dom() == Set::<usize>::empty(),
    {
        TestcaseStorageMap { inner: hashbrown::HashMap::new() }
    }

    /// Relies on hashbrown::HashMap::len: the number of entries in the map.
    #[verifier::external_body]
    pub(crate) fn len(&self) -> (r: usize)
        ensures
            r == stored_items(*self).len(),
    {
        self.inner.len()
    }

    /// Relies on hashbrown::HashMap::get: the entry under `k`, if there is one.
    #[verifier::external_body]
    pub(crate) fn get(&self, k: usize) -> (r: Option<&TestcaseStorageItem>)
        ensures
            match r {
                Some(v) => stored_items(*self).contains_key(k) && v@ == stored_items(*self)[k],
                None => !stored_items(*self).contains_key(k),
            },
    {
        self.inner.get(&k)
    }

    /// Relies on hashbrown::HashMap::insert: `v` is stored under `k`, and the
    /// entry it displaces, if any, is handed back.
    #[verifier::external_body]
    pub(crate) fn insert(&mut self, k: usize, v: TestcaseStorageItem) -> (r: Option<TestcaseStorageItem>)
        ensures
            stored_items(*final(self)) == stored_items(*old(self)).insert(k, v@),
            match r {
                Some(o) => stored_items(*old(self)).contains_key(k) && o@ == stored_items(*old(self))[k],
                None => !stored_items(*old(self)).contains_key(k),
            },
    {
        self.inner.insert(k, v)
    }

    /// Relies on hashbrown::HashMap::remove: the entry under `k` leaves the map
    /// and is handed back, if there was one.
    #[verifier::external_body]
    pub(crate) fn remove(&mut self, k: usize) -> (r: Option<TestcaseStorageItem>)
        ensures
            stored_items(*final(self)) == stored_items(*old(self)).remove(k),
            match r {
                Some(o) => stored_items(*old(self)).contains_key(k) && o@ == stored_items(*old(self))[k],
                None => !stored_items(*old(self)).contains_key(k),
            },
    {
        self.inner.remove(&k)
    }
}

} // verus!
