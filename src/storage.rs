use vstd::prelude::*;

use crate::corpus_id::{opt_ix, CorpusId};
use crate::order::{
    first_of, increasing, last_of, lemma_position, lemma_remove_increasing, next_at, position,
    prev_at,
};
use crate::storage_map::{stored_items, TestcaseStorageItem, TestcaseStorageMap};
use crate::store::OrderedStore;
use crate::testcase::Testcase;

verus! {

/// Storage for test cases: a map keyed by identifier whose entries link to
/// their neighbours in insertion order, with the first and last identifier and
/// the next identifier to hand out.
pub struct TestcaseStorage {
    map: TestcaseStorageMap,
    progressive_idx: usize,
    first_idx: Option<CorpusId>,
    last_idx: Option<CorpusId>,
    order: Ghost<Seq<usize>>,
}

/// The entry of the identifier at position `i` of `s` links to its neighbours there.
pub open spec fn links_at(s: Seq<usize>, m: Map<usize, (Seq<u8>, Option<usize>, Option<usize>)>, i: int) -> bool {
    m[s[i]].1 == prev_at(s, i) && m[s[i]].2 == next_at(s, i)
}

/// Re-stores the entry under `k` with `next` as its successor.
fn set_next(map: &mut TestcaseStorageMap, k: CorpusId, next: Option<CorpusId>)
    requires
        stored_items(*old(map)).contains_key(k.0),
    ensures
        stored_items(*final(map)) == stored_items(*old(map)).insert(
            k.0,
            (stored_items(*old(map))[k.0].0, stored_items(*old(map))[k.0].1, opt_ix(next)),
        ),
{
    match map.remove(k.0) {
        Some(item) => {
            let _ = map.insert(k.0, TestcaseStorageItem { testcase: item.testcase, prev: item.prev, next });
        },
        None => {},
    }
    proof {
        assert(stored_items(*map) =~= stored_items(*old(map)).insert(
            k.0,
            (stored_items(*old(map))[k.0].0, stored_items(*old(map))[k.0].1, opt_ix(next)),
        ));
    }
}

/// Re-stores the entry under `k` with `prev` as its predecessor.
fn set_prev(map: &mut TestcaseStorageMap, k: CorpusId, prev: Option<CorpusId>)
    requires
        stored_items(*old(map)).contains_key(k.0),
    ensures
        stored_items(*final(map)) == stored_items(*old(map)).insert(
            k.0,
            (stored_items(*old(map))[k.0].0, opt_ix(prev), stored_items(*old(map))[k.0].2),
        ),
{
    match map.remove(k.0) {
        Some(item) => {
            let _ = map.insert(k.0, TestcaseStorageItem { testcase: item.testcase, prev, next: item.next });
        },
        None => {},
    }
    proof {
        assert(stored_items(*map) =~= stored_items(*old(map)).insert(
            k.0,
            (stored_items(*old(map))[k.0].0, opt_ix(prev), stored_items(*old(map))[k.0].2),
        ));
    }
}

impl OrderedStore for TestcaseStorage {
    /// The identifiers present, in insertion order.
    closed spec fn ids(&self) -> Seq<usize> {
        self.order@
    }

    /// The test case stored under each identifier present.
    closed spec fn data(&self) -> Map<usize, Seq<u8>> {
        Map::new(|k: usize| stored_items(self.map).contains_key(k), |k: usize| stored_items(self.map)[k].0)
    }

    /// The identifier that the next insertion hands out.
    closed spec fn next_id(&self) -> usize {
        self.progressive_idx
    }

    /// The links, the sentinels and the counter agree with the insertion order.
    closed spec fn wf(&self) -> bool {
        let s = self.order@;
        let m = stored_items(self.map);
        &&& increasing(s)
        &&& forall|i: int| 0 <= i < s.len() ==> s[i] < self.progressive_idx
        &&& m.dom().finite()
        &&& m.len() == s.len()
        &&& forall|k: usize| m.contains_key(k) <==> s.contains(k)
        &&& opt_ix(self.first_idx) == first_of(s)
        &&& opt_ix(self.last_idx) == last_of(s)
        &&& forall|i: int| 0 <= i < s.len() ==> #[trigger] links_at(s, m, i)
    }

    /// What a well-formed storage guarantees of its model: identifiers in
    /// insertion order are increasing and below the next one to hand out, and
    /// exactly the identifiers present have a test case.
    proof fn lemma_wf(&self)
    {
    }

    /// An empty storage.
    fn new() -> (r: TestcaseStorage)
    {
        let map = TestcaseStorageMap::new();
        let r = TestcaseStorage {
            map,
            progressive_idx: 0,
            first_idx: None,
            last_idx: None,
            order: Ghost(Seq::empty()),
        };
        proof {
            assert(stored_items(r.map).dom() =~= Set::<usize>::empty());
            assert(stored_items(r.map).len() == 0);
        }
        r
    }


    /// Stores `testcase` as the new last entry under a fresh identifier,
    /// which it returns.
    fn insert(&mut self, testcase: Testcase) -> (r: CorpusId)
    {
        let idx = CorpusId(self.progressive_idx);
        self.append(idx, testcase);
        idx
    }

    /// Stores `testcase` as the new last entry under `idx`, which is no
    /// smaller than any identifier handed out so far.
    fn append(&mut self, idx: CorpusId, testcase: Testcase)
    {
        let ghost s = self.order@;
        let ghost m = stored_items(self.map);
        let ghost t = testcase@;
        self.progressive_idx = idx.0 + 1;
        proof {
            assert(!s.contains(idx.0)) by {
                if s.contains(idx.0) {
                    let j = choose|j: int| 0 <= j < s.len() && s[j] == idx.0;
                }
            }
        }
        let prev = match self.last_idx {
            Some(last_idx) => {
                proof {
                    assert(s[s.len() - 1] == last_idx.0);
                    assert(s.contains(last_idx.0));
                }
                set_next(&mut self.map, last_idx, Some(idx));
                Some(last_idx)
            },
            None => None,
        };
        if self.first_idx.is_none() {
            self.first_idx = Some(idx);
        }
        self.last_idx = Some(idx);
        let _ = self.map.insert(idx.0, TestcaseStorageItem { testcase, prev, next: None });
        self.order = Ghost(s.push(idx.0));
        proof {
            let s2 = self.order@;
            let m2 = stored_items(self.map);
            assert forall|k: usize| m2.contains_key(k) <==> s2.contains(k) by {
                if s.contains(k) {
                    let j = choose|j: int| 0 <= j < s.len() && s[j] == k;
                    assert(s2[j] == k);
                }
                if s2.contains(k) && k != idx.0 {
                    let j = choose|j: int| 0 <= j < s2.len() && s2[j] == k;
                    assert(s[j] == k);
                }
                assert(s2[s.len() as int] == idx.0);
            }
            assert forall|i: int| 0 <= i < s2.len() implies #[trigger] links_at(s2, m2, i) by {
                if i < s.len() {
                    assert(s2[i] == s[i]);
                    assert(links_at(s, m, i));
                    if i > 0 {
                        assert(s2[i - 1] == s[i - 1]);
                    }
                    if i + 1 < s.len() {
                        assert(s2[i + 1] == s[i + 1]);
                    }
                    assert(s[i] < idx.0);
                }
            }
            assert(m2.dom() =~= m.dom().insert(idx.0));
            assert(m.dom().len() == s.len());
            assert(self.data() =~= old(self).data().insert(idx.0, t));
        }
    }


    /// Removes the entry under `idx`, linking its neighbours to each other,
    /// and returns its test case; returns none if `idx` is absent.
    fn remove(&mut self, idx: CorpusId) -> (r: Option<Testcase>)
    {
        let ghost s = self.order@;
        let ghost m = stored_items(self.map);
        match self.map.remove(idx.0) {
            Some(item) => {
                let ghost i = position(s, idx.0);
                proof {
                    assert(s.contains(idx.0));
                    lemma_position(s, i);
                    assert(links_at(s, m, i));
                    if i > 0 {
                        assert(s.contains(s[i - 1]));
                        assert(s[i - 1] < s[i]);
                    }
                    if i + 1 < s.len() {
                        assert(s.contains(s[i + 1]));
                        assert(s[i] < s[i + 1]);
                    }
                }
                let ghost m1 = stored_items(self.map);
                match item.prev {
                    Some(prev) => {
                        set_next(&mut self.map, prev, item.next);
                    },
                    None => {
                        self.first_idx = item.next;
                    },
                }
                let ghost m2 = stored_items(self.map);
                match item.next {
                    Some(next) => {
                        set_prev(&mut self.map, next, item.prev);
                    },
                    None => {
                        self.last_idx = item.prev;
                    },
                }
                self.order = Ghost(s.remove(i));
                proof {
                    let s2 = self.order@;
                    let m3 = stored_items(self.map);
                    lemma_remove_increasing(s, i);
                    assert forall|k: usize| m3.contains_key(k) <==> s2.contains(k) by {
                        if s.contains(k) {
                            let j = choose|j: int| 0 <= j < s.len() && s[j] == k;
                        }
                    }
                    assert forall|j: int| 0 <= j < s2.len() implies #[trigger] links_at(s2, m3, j) by {
                        let j2 = if j < i { j } else { j + 1 };
                        assert(s2[j] == s[j2]);
                        assert(links_at(s, m, j2));
                        assert(s[j2] != s[i]);
                        if j > 0 {
                            let p2 = if j - 1 < i { j - 1 } else { j };
                            assert(s2[j - 1] == s[p2]);
                        }
                        if j + 1 < s2.len() {
                            let n2 = if j + 1 < i { j + 1 } else { j + 2 };
                            assert(s2[j + 1] == s[n2]);
                        }
                        if i > 0 && j2 != i - 1 {
                            assert(s[j2] != s[i - 1]);
                        }
                        if i + 1 < s.len() && j2 != i + 1 {
                            assert(s[j2] != s[i + 1]);
                        }
                    }
                    if s2.len() > 0 {
                        if i == 0 {
                            assert(s2[0] == s[1]);
                        } else {
                            assert(s2[0] == s[0]);
                        }
                        if i == s.len() - 1 {
                            assert(s2[s2.len() - 1] == s[i - 1]);
                        } else {
                            assert(s2[s2.len() - 1] == s[s.len() - 1]);
                        }
                    }
                    assert(m3.dom() =~= m.dom().remove(idx.0));
                    assert(self.data() =~= old(self).data().remove(idx.0));
                }
                Some(item.testcase)
            },
            None => {
                proof {
                    assert(!s.contains(idx.0));
                    assert(stored_items(self.map) =~= m);
                }
                None
            },
        }
    }


    /// Puts `testcase` in place of the one stored under `idx`, which it
    /// returns, leaving the order untouched; returns none if `idx` is absent.
    fn replace(&mut self, idx: CorpusId, testcase: Testcase) -> (r: Option<Testcase>)
    {
        let ghost s = self.order@;
        let ghost m = stored_items(self.map);
        let ghost t = testcase@;
        match self.map.remove(idx.0) {
            Some(item) => {
                let _ = self.map.insert(
                    idx.0,
                    TestcaseStorageItem { testcase, prev: item.prev, next: item.next },
                );
                proof {
                    let m2 = stored_items(self.map);
                    assert(m2 =~= m.insert(idx.0, (t, m[idx.0].1, m[idx.0].2)));
                    assert forall|i: int| 0 <= i < s.len() implies #[trigger] links_at(s, m2, i) by {
                        assert(links_at(s, m, i));
                    }
                    assert(m2.dom() =~= m.dom());
                    assert(self.data() =~= old(self).data().insert(idx.0, t));
                }
                Some(item.testcase)
            },
            None => {
                proof {
                    assert(stored_items(self.map) =~= m);
                }
                None
            },
        }
    }

    /// Raises the next identifier to hand out to `next_id`.
    fn reserve_up_to(&mut self, next_id: usize)
    {
        self.progressive_idx = next_id;
    }

    /// The identifier that the next insertion hands out.
    fn peek_next_id(&self) -> (r: usize)
    {
        self.progressive_idx
    }

    /// The number of entries.
    fn count(&self) -> (r: usize)
    {
        self.map.len()
    }

    /// The entry stored under `idx`, if any.
    fn get(&self, idx: CorpusId) -> (r: Option<&Testcase>)
    {
        match self.map.get(idx.0) {
            Some(item) => Some(&item.testcase),
            None => None,
        }
    }

    /// The identifier after `idx` in insertion order; none if `idx` is the
    /// last one or is absent.
    fn next(&self, idx: CorpusId) -> (r: Option<CorpusId>)
    {
        match self.map.get(idx.0) {
            Some(item) => {
                proof {
                    assert(stored_items(self.map).contains_key(idx.0));
                    assert(self.order@.contains(idx.0));
                    let i = choose|i: int| 0 <= i < self.order@.len() && self.order@[i] == idx.0;
                    lemma_position(self.order@, i);
                    assert(links_at(self.order@, stored_items(self.map), i));
                }
                item.next
            },
            None => None,
        }
    }

    /// The identifier before `idx` in insertion order; none if `idx` is the
    /// first one or is absent.
    fn prev(&self, idx: CorpusId) -> (r: Option<CorpusId>)
    {
        match self.map.get(idx.0) {
            Some(item) => {
                proof {
                    assert(stored_items(self.map).contains_key(idx.0));
                    assert(self.order@.contains(idx.0));
                    let i = choose|i: int| 0 <= i < self.order@.len() && self.order@[i] == idx.0;
                    lemma_position(self.order@, i);
                    assert(links_at(self.order@, stored_items(self.map), i));
                }
                item.prev
            },
            None => None,
        }
    }

    /// The first identifier in insertion order, if any.
    fn first(&self) -> (r: Option<CorpusId>)
    {
        self.first_idx
    }

    /// The last identifier in insertion order, if any.
    fn last(&self) -> (r: Option<CorpusId>)
    {
        self.last_idx
    }
}

} // verus!
