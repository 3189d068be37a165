use vstd::prelude::*;

use std::collections::BTreeMap;

use crate::corpus_id::CorpusId;
use crate::order::{increasing, lemma_position, lemma_remove_increasing, position};
use crate::store::OrderedStore;
use crate::testcase::Testcase;

verus! {

broadcast use vstd::std_specs::btree::group_btree_axioms, vstd::laws_cmp::group_laws_cmp;

/// Relies on BTreeMap::first_key_value: the pair with the smallest key.
#[verifier::external_body]
fn smallest_key(m: &BTreeMap<usize, Testcase>) -> (r: Option<usize>)
    ensures
        match r {
            Some(n) => m@.contains_key(n) && forall|j: usize| #[trigger] m@.contains_key(j) ==> n <= j,
            None => m@.dom().is_empty(),
        },
{
    m.first_key_value().map(|(n, _)| *n)
}

/// Relies on BTreeMap::last_key_value: the pair with the largest key.
#[verifier::external_body]
fn largest_key(m: &BTreeMap<usize, Testcase>) -> (r: Option<usize>)
    ensures
        match r {
            Some(n) => m@.contains_key(n) && forall|j: usize| #[trigger] m@.contains_key(j) ==> j <= n,
            None => m@.dom().is_empty(),
        },
{
    m.last_key_value().map(|(n, _)| *n)
}

/// Relies on BTreeMap::range, which walks keys in ascending order: the first
/// key above `k`.
#[verifier::external_body]
fn key_above(m: &BTreeMap<usize, Testcase>, k: usize) -> (r: Option<usize>)
    ensures
        match r {
            Some(n) => {
                &&& m@.contains_key(n)
                &&& k < n
                &&& forall|j: usize| #[trigger] m@.contains_key(j) && k < j ==> n <= j
            },
            None => forall|j: usize| #[trigger] m@.contains_key(j) ==> j <= k,
        },
{
    m.range((std::ops::Bound::Excluded(k), std::ops::Bound::Unbounded)).next().map(|(n, _)| *n)
}

/// Relies on BTreeMap::range, which walks keys in ascending order from either
/// end: the last key below `k`.
#[verifier::external_body]
fn key_below(m: &BTreeMap<usize, Testcase>, k: usize) -> (r: Option<usize>)
    ensures
        match r {
            Some(n) => {
                &&& m@.contains_key(n)
                &&& n < k
                &&& forall|j: usize| #[trigger] m@.contains_key(j) && j < k ==> j <= n
            },
            None => forall|j: usize| #[trigger] m@.contains_key(j) ==> k <= j,
        },
{
    m.range((std::ops::Bound::Unbounded, std::ops::Bound::Excluded(k))).next_back().map(|(n, _)| *n)
}

/// Storage for test cases in a map ordered by identifier: since identifiers
/// are handed out in increasing order, key order is insertion order and no
/// entry needs links to its neighbours.
pub struct SortedTestcaseStorage {
    map: BTreeMap<usize, Testcase>,
    progressive_idx: usize,
    order: Ghost<Seq<usize>>,
}

impl OrderedStore for SortedTestcaseStorage {
    /// The identifiers present, in insertion order.
    closed spec fn ids(&self) -> Seq<usize> {
        self.order@
    }

    /// The test case stored under each identifier present.
    closed spec fn data(&self) -> Map<usize, Seq<u8>> {
        Map::new(|k: usize| self.map@.contains_key(k), |k: usize| self.map@[k]@)
    }

    /// The identifier that the next insertion hands out.
    closed spec fn next_id(&self) -> usize {
        self.progressive_idx
    }

    /// The keys of the map are the identifiers, in increasing order, all
    /// below the next one to hand out.
    closed spec fn wf(&self) -> bool {
        let s = self.order@;
        &&& increasing(s)
        &&& forall|i: int| 0 <= i < s.len() ==> s[i] < self.progressive_idx
        &&& self.map@.len() == s.len()
        &&& forall|k: usize| self.map@.contains_key(k) <==> s.contains(k)
    }

    /// What a well-formed storage guarantees of its model: identifiers in
    /// insertion order are increasing and below the next one to hand out, and
    /// exactly the identifiers present have a test case.
    proof fn lemma_wf(&self)
    {
    }

    /// An empty storage.
    fn new() -> (r: SortedTestcaseStorage)
    {
        let r = SortedTestcaseStorage { map: BTreeMap::new(), progressive_idx: 0, order: Ghost(Seq::empty()) };
        proof {
            assert(r.map@.dom() =~= Set::<usize>::empty());
        }
        r
    }
    /// Stores `testcase` as the new last entry under a fresh identifier,
    /// which it returns.
    fn insert(&mut self, testcase: Testcase) -> (r: CorpusId)
    {
        let idx = CorpusId(self.progressive_idx);
        self.append(idx, testcase);
        idx
    }

    fn append(&mut self, idx: CorpusId, testcase: Testcase)
    {
        let ghost s = self.order@;
        let ghost t = testcase@;
        self.progressive_idx = idx.0 + 1;
        proof {
            assert(!s.contains(idx.0)) by {
                if s.contains(idx.0) {
                    let j = choose|j: int| 0 <= j < s.len() && s[j] == idx.0;
                }
            }
        }
        let _ = self.map.insert(idx.0, testcase);
        self.order = Ghost(s.push(idx.0));
        proof {
            let s2 = self.order@;
            assert forall|k: usize| self.map@.contains_key(k) <==> s2.contains(k) by {
                if s.contains(k) {
                    let j = choose|j: int| 0 <= j < s.len() && s[j] == k;
                    assert(s2[j] == k);
                }
                if s2.contains(k) && k != idx.0 {
                    let j = choose|j: int| 0 <= j < s2.len() && s2[j] == k;
                    assert(s[j] == k);
                }
                assert(s2[s.len() as int] == idx.0);
            }
            assert(self.data() =~= old(self).data().insert(idx.0, t));
        }
    }

    fn reserve_up_to(&mut self, next_id: usize)
    {
        self.progressive_idx = next_id;
    }

    fn peek_next_id(&self) -> (r: usize)
    {
        self.progressive_idx
    }

    /// Removes the entry under `idx` and returns its test case; returns none
    /// if `idx` is absent.
    fn remove(&mut self, idx: CorpusId) -> (r: Option<Testcase>)
    {
        let ghost s = self.order@;
        let r = self.map.remove(&idx.0);
        match r {
            Some(_) => {
                let ghost i = position(s, idx.0);
                proof {
                    assert(s.contains(idx.0));
                    lemma_position(s, i);
                    lemma_remove_increasing(s, i);
                }
                self.order = Ghost(s.remove(i));
                proof {
                    assert(self.map@ == old(self).map@.remove(idx.0));
                    assert(self.map@.dom() =~= old(self).map@.dom().remove(idx.0));
                    assert(self.map@.len() == self.order@.len());
                    assert forall|k: usize| self.map@.contains_key(k) <==> self.order@.contains(k) by {
                        assert(old(self).map@.contains_key(k) <==> s.contains(k));
                        assert(s.remove(i).contains(k) <==> (s.contains(k) && k != s[i]));
                    }
                    assert(self.data() =~= old(self).data().remove(idx.0));
                }
            },
            None => {
                proof {
                    assert(self.map@ =~= old(self).map@);
                }
            },
        }
        r
    }

    /// Puts `testcase` in place of the one stored under `idx`, which it
    /// returns, leaving the order untouched; returns none if `idx` is absent.
    fn replace(&mut self, idx: CorpusId, testcase: Testcase) -> (r: Option<Testcase>)
    {
        let ghost t = testcase@;
        if self.map.contains_key(&idx.0) {
            let r = self.map.insert(idx.0, testcase);
            proof {
                assert(self.map@.dom() =~= old(self).map@.dom());
                assert(self.data() =~= old(self).data().insert(idx.0, t));
            }
            r
        } else {
            None
        }
    }

    /// The number of entries.
    fn count(&self) -> (r: usize)
    {
        self.map.len()
    }

    /// The entry stored under `idx`, if any.
    fn get(&self, idx: CorpusId) -> (r: Option<&Testcase>)
    {
        self.map.get(&idx.0)
    }

    /// The identifier after `idx` in insertion order, found as the next
    /// larger key; none if `idx` is the last one or is absent.
    fn next(&self, idx: CorpusId) -> (r: Option<CorpusId>)
    {
        if !self.map.contains_key(&idx.0) {
            return None;
        }
        let r = key_above(&self.map, idx.0);
        proof {
            let s = self.order@;
            let i = position(s, idx.0);
            assert(s.contains(idx.0));
            lemma_position(s, i);
            if i + 1 < s.len() {
                assert(s[i] < s[i + 1]);
                lemma_position(s, i + 1);
                assert(self.map@.contains_key(s[i + 1]));
            }
            match r {
                Some(n) => {
                    assert(s.contains(n));
                    let j = choose|j: int| 0 <= j < s.len() && s[j] == n;
                    if j <= i {
                        assert(j == i || s[j] < s[i]);
                    }
                    if j > i + 1 {
                        assert(s[i + 1] < s[j]);
                    }
                },
                None => {},
            }
        }
        match r {
            Some(n) => Some(CorpusId(n)),
            None => None,
        }
    }

    /// The identifier before `idx` in insertion order, found as the next
    /// smaller key; none if `idx` is the first one or is absent.
    fn prev(&self, idx: CorpusId) -> (r: Option<CorpusId>)
    {
        if !self.map.contains_key(&idx.0) {
            return None;
        }
        let r = key_below(&self.map, idx.0);
        proof {
            let s = self.order@;
            let i = position(s, idx.0);
            assert(s.contains(idx.0));
            lemma_position(s, i);
            if i > 0 {
                assert(s[i - 1] < s[i]);
                lemma_position(s, i - 1);
                assert(self.map@.contains_key(s[i - 1]));
            }
            match r {
                Some(n) => {
                    assert(s.contains(n));
                    let j = choose|j: int| 0 <= j < s.len() && s[j] == n;
                    if j >= i {
                        assert(j == i || s[i] < s[j]);
                    }
                    if j < i - 1 {
                        assert(s[j] < s[i - 1]);
                    }
                },
                None => {},
            }
        }
        match r {
            Some(n) => Some(CorpusId(n)),
            None => None,
        }
    }

    /// The first identifier in insertion order: the smallest key.
    fn first(&self) -> (r: Option<CorpusId>)
    {
        let r = smallest_key(&self.map);
        proof {
            let s = self.order@;
            if s.len() > 0 {
                lemma_position(s, 0);
                assert(self.map@.contains_key(s[0]));
            }
            match r {
                Some(n) => {
                    assert(s.contains(n));
                    let j = choose|j: int| 0 <= j < s.len() && s[j] == n;
                    if j > 0 {
                        assert(s[0] < s[j]);
                    }
                },
                None => {
                    if s.len() > 0 {
                        assert(self.map@.dom().contains(s[0]));
                    }
                },
            }
        }
        match r {
            Some(n) => Some(CorpusId(n)),
            None => None,
        }
    }

    /// The last identifier in insertion order: the largest key.
    fn last(&self) -> (r: Option<CorpusId>)
    {
        let r = largest_key(&self.map);
        proof {
            let s = self.order@;
            if s.len() > 0 {
                lemma_position(s, s.len() - 1);
                assert(self.map@.contains_key(s[s.len() - 1]));
            }
            match r {
                Some(n) => {
                    assert(s.contains(n));
                    let j = choose|j: int| 0 <= j < s.len() && s[j] == n;
                    if j < s.len() - 1 {
                        assert(s[j] < s[s.len() - 1]);
                    }
                },
                None => {
                    if s.len() > 0 {
                        assert(self.map@.dom().contains(s[s.len() - 1]));
                    }
                },
            }
        }
        match r {
            Some(n) => Some(CorpusId(n)),
            None => None,
        }
    }
}

} // verus!
