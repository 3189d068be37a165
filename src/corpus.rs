use vstd::prelude::*;

use crate::corpus_id::{opt_ix, CorpusId};
use crate::order::{
    first_of, increasing, last_of, lemma_position, lemma_remove_increasing, next_in, position,
    prev_in,
};
use crate::storage::TestcaseStorage;
use crate::store::OrderedStore;
use crate::testcase::Testcase;

verus! {

/// What can go wrong in a corpus: the identifier names no live entry.
#[derive(Clone, Copy, Debug, PartialEq, Eq, Structural)]
pub enum Error {
    KeyNotFound(CorpusId),
}

/// A plain dump of a corpus: its entries in insertion order, the identifier
/// to hand out next and the cursor.
pub struct CorpusParts {
    pub entries: Vec<(CorpusId, Testcase)>,
    pub next_id: usize,
    pub current: Option<CorpusId>,
}

impl CorpusParts {
    /// The identifiers of the entries, in order.
    pub open spec fn ids(&self) -> Seq<usize> {
        self.entries@.map_values(|e: (CorpusId, Testcase)| e.0.0)
    }

    /// A dump that a corpus can be rebuilt from: identifiers increasing and
    /// all below the one to hand out next.
    pub open spec fn valid(&self) -> bool {
        &&& increasing(self.ids())
        &&& forall|i: int| 0 <= i < self.ids().len() ==> self.ids()[i] < self.next_id
    }
}

/// A corpus that keeps all its test cases in memory, with a cursor on the
/// entry under consideration.
pub struct InMemoryCorpus<S> {
    entries: S,
    current: Option<CorpusId>,
}

impl<S: OrderedStore> InMemoryCorpus<S> {
    /// The identifiers present, in insertion order.
    pub closed spec fn ids(&self) -> Seq<usize> {
        self.entries.ids()
    }

    /// The test case stored under each identifier present.
    pub closed spec fn data(&self) -> Map<usize, Seq<u8>> {
        self.entries.data()
    }

    /// The identifier that the next `add` hands out.
    pub closed spec fn next_id(&self) -> usize {
        self.entries.next_id()
    }

    /// The cursor.
    pub closed spec fn cursor(&self) -> Option<CorpusId> {
        self.current
    }

    /// The storage underneath is well formed.
    pub closed spec fn wf(&self) -> bool {
        self.entries.wf()
    }

    /// What a well-formed corpus guarantees of its model: identifiers in
    /// insertion order are increasing and below the next one to hand out, and
    /// exactly the identifiers present have a test case.
    pub proof fn lemma_wf(&self)
        requires
            self.wf(),
        ensures
            increasing(self.ids()),
            forall|i: int| 0 <= i < self.ids().len() ==> self.ids()[i] < self.next_id(),
            forall|k: usize| #[trigger] self.data().contains_key(k) <==> self.ids().contains(k),
    {
        self.entries.lemma_wf();
    }

    /// The corpus holds what `p` lists: the same identifiers in the same
    /// order with the same test cases, the same next identifier and cursor.
    pub open spec fn matches_parts(&self, p: &CorpusParts) -> bool {
        &&& self.ids() == p.ids()
        &&& forall|i: int| 0 <= i < p.entries@.len() ==> #[trigger] p.entries@[i].1@ == self.data()[p.ids()[i]]
        &&& self.next_id() == p.next_id
        &&& self.cursor() == p.current
    }

    /// An empty corpus with no cursor.
    pub fn empty() -> (r: Self)
        ensures
            r.wf(),
            r.ids() == Seq::<usize>::empty(),
            r.next_id() == 0,
            r.cursor() == None::<CorpusId>,
    {
        InMemoryCorpus { entries: S::new(), current: None }
    }

    /// The identifier that the next `add` hands out.
    pub fn peek_next_id(&self) -> (r: usize)
        requires
            self.wf(),
        ensures
            r == self.next_id(),
    {
        self.entries.peek_next_id()
    }

    /// The number of entries.
    pub fn count(&self) -> (r: usize)
        requires
            self.wf(),
        ensures
            r == self.ids().len(),
    {
        self.entries.count()
    }

    /// Adds `testcase` as the last entry and returns its fresh identifier.
    pub fn add(&mut self, testcase: Testcase) -> (r: CorpusId)
        requires
            old(self).wf(),
            old(self).next_id() < usize::MAX,
        ensures
            final(self).wf(),
            r.0 == old(self).next_id(),
            final(self).next_id() == old(self).next_id() + 1,
            final(self).ids() == old(self).ids().push(r.0),
            final(self).ids().len() == old(self).ids().len() + 1,
            final(self).data() == old(self).data().insert(r.0, testcase@),
            final(self).cursor() == old(self).cursor(),
    {
        self.entries.insert(testcase)
    }

    /// Puts `testcase` in place of the entry under `idx` and returns the one
    /// it displaces; the order is untouched.
    pub fn replace(&mut self, idx: CorpusId, testcase: Testcase) -> (r: Result<Testcase, Error>)
        requires
            old(self).wf(),
        ensures
            final(self).wf(),
            final(self).ids() == old(self).ids(),
            final(self).next_id() == old(self).next_id(),
            final(self).cursor() == old(self).cursor(),
            match r {
                Ok(t) => {
                    &&& old(self).ids().contains(idx.0)
                    &&& t@ == old(self).data()[idx.0]
                    &&& final(self).data() == old(self).data().insert(idx.0, testcase@)
                },
                Err(e) => {
                    &&& e == Error::KeyNotFound(idx)
                    &&& !old(self).ids().contains(idx.0)
                    &&& final(self).data() == old(self).data()
                },
            },
    {
        match self.entries.replace(idx, testcase) {
            Some(t) => Ok(t),
            None => Err(Error::KeyNotFound(idx)),
        }
    }

    /// Removes the entry under `idx` and returns its test case; an absent
    /// `idx` is no error and gives none.
    pub fn remove(&mut self, idx: CorpusId) -> (r: Result<Option<Testcase>, Error>)
        requires
            old(self).wf(),
        ensures
            final(self).wf(),
            final(self).next_id() == old(self).next_id(),
            final(self).cursor() == old(self).cursor(),
            match r {
                Ok(Some(t)) => {
                    &&& old(self).ids().contains(idx.0)
                    &&& t@ == old(self).data()[idx.0]
                    &&& final(self).ids() == old(self).ids().remove(position(old(self).ids(), idx.0))
                    &&& final(self).ids().len() == old(self).ids().len() - 1
                    &&& final(self).data() == old(self).data().remove(idx.0)
                },
                Ok(None) => {
                    &&& !old(self).ids().contains(idx.0)
                    &&& final(self).ids() == old(self).ids()
                    &&& final(self).data() == old(self).data()
                },
                Err(_) => false,
            },
    {
        Ok(self.entries.remove(idx))
    }

    /// The test case under `idx`.
    pub fn get(&self, idx: CorpusId) -> (r: Result<&Testcase, Error>)
        requires
            self.wf(),
        ensures
            match r {
                Ok(t) => self.ids().contains(idx.0) && t@ == self.data()[idx.0],
                Err(e) => e == Error::KeyNotFound(idx) && !self.ids().contains(idx.0),
            },
    {
        match self.entries.get(idx) {
            Some(t) => Ok(t),
            None => Err(Error::KeyNotFound(idx)),
        }
    }

    /// The cursor; nothing checks that it names a live entry.
    pub fn current(&self) -> (r: &Option<CorpusId>)
        ensures
            *r == self.cursor(),
    {
        &self.current
    }

    /// The cursor, to be overwritten by the caller.
    pub fn current_mut(&mut self) -> (r: &mut Option<CorpusId>)
        ensures
            *r == old(self).cursor(),
            final(self).cursor() == *final(r),
            final(self).ids() == old(self).ids(),
            final(self).data() == old(self).data(),
            final(self).next_id() == old(self).next_id(),
            final(self).wf() == old(self).wf(),
    {
        &mut self.current
    }

    /// The identifier after `idx` in insertion order; none if `idx` is the
    /// last one or is absent.
    pub fn next(&self, idx: CorpusId) -> (r: Option<CorpusId>)
        requires
            self.wf(),
        ensures
            opt_ix(r) == next_in(self.ids(), idx.0),
    {
        self.entries.next(idx)
    }

    /// The identifier before `idx` in insertion order; none if `idx` is the
    /// first one or is absent.
    pub fn prev(&self, idx: CorpusId) -> (r: Option<CorpusId>)
        requires
            self.wf(),
        ensures
            opt_ix(r) == prev_in(self.ids(), idx.0),
    {
        self.entries.prev(idx)
    }


    /// Every identifier present, gathered by starting at `first` and
    /// following `next` until none is left: insertion order, each once.
    pub fn ids_in_order(&self) -> (r: Vec<CorpusId>)
        requires
            self.wf(),
        ensures
            r@.len() == self.ids().len(),
            forall|i: int| 0 <= i < r@.len() ==> #[trigger] r@[i].0 == self.ids()[i],
    {
        let ghost s = self.ids();
        proof {
            self.lemma_wf();
        }
        let mut r: Vec<CorpusId> = Vec::new();
        let mut cur = self.first();
        while cur.is_some()
            invariant
                self.wf(),
                s == self.ids(),
                increasing(s),
                r@.len() <= s.len(),
                forall|i: int| 0 <= i < r@.len() ==> #[trigger] r@[i].0 == s[i],
                opt_ix(cur) == (if r@.len() < s.len() { Some(s[r@.len() as int]) } else { None::<usize> }),
            decreases s.len() - r@.len(),
        {
            let c = match cur {
                Some(c) => c,
                None => CorpusId(0),
            };
            proof {
                lemma_position(s, r@.len() as int);
            }
            r.push(c);
            cur = self.next(c);
        }
        r
    }

    /// Every identifier present, gathered by starting at `last` and
    /// following `prev` until none is left: reverse insertion order, each once.
    pub fn ids_in_reverse(&self) -> (r: Vec<CorpusId>)
        requires
            self.wf(),
        ensures
            r@.len() == self.ids().len(),
            forall|i: int| 0 <= i < r@.len() ==> #[trigger] r@[i].0 == self.ids()[self.ids().len() - 1 - i],
    {
        let ghost s = self.ids();
        proof {
            self.lemma_wf();
        }
        let mut r: Vec<CorpusId> = Vec::new();
        let mut cur = self.last();
        while cur.is_some()
            invariant
                self.wf(),
                s == self.ids(),
                increasing(s),
                r@.len() <= s.len(),
                forall|i: int| 0 <= i < r@.len() ==> #[trigger] r@[i].0 == s[s.len() - 1 - i],
                opt_ix(cur) == (if r@.len() < s.len() { Some(s[s.len() - 1 - r@.len()]) } else { None::<usize> }),
            decreases s.len() - r@.len(),
        {
            let c = match cur {
                Some(c) => c,
                None => CorpusId(0),
            };
            proof {
                lemma_position(s, s.len() - 1 - r@.len());
            }
            r.push(c);
            cur = self.prev(c);
        }
        r
    }

    /// The identifier that `add` hands out is larger than every identifier
    /// present, so it names no other entry, and the next one handed out will
    /// be larger still: no operation lowers the next identifier.
    pub proof fn lemma_add_fresh(before: Self, after: Self, r: CorpusId)
        requires
            before.wf(),
            after.wf(),
            r.0 == before.next_id(),
            after.next_id() == before.next_id() + 1,
            after.ids() == before.ids().push(r.0),
        ensures
            forall|i: int| 0 <= i < before.ids().len() ==> before.ids()[i] < r.0,
            !before.ids().contains(r.0),
            increasing(after.ids()),
            r.0 < after.next_id(),
    {
        before.lemma_wf();
        after.lemma_wf();
        if before.ids().contains(r.0) {
            let j = choose|j: int| 0 <= j < before.ids().len() && before.ids()[j] == r.0;
        }
    }

    /// Removing the entry `id` rewires the order around it: the head's
    /// successor becomes the first entry, the tail's predecessor becomes the
    /// last, the predecessor and successor of an interior entry become each
    /// other's neighbours, and removing the sole entry leaves neither a first
    /// nor a last.
    pub proof fn lemma_remove_rewiring(before: Self, after: Self, id: usize)
        requires
            before.wf(),
            before.ids().contains(id),
            after.ids() == before.ids().remove(position(before.ids(), id)),
        ensures
            first_of(before.ids()) == Some(id) ==> first_of(after.ids()) == next_in(before.ids(), id),
            last_of(before.ids()) == Some(id) ==> last_of(after.ids()) == prev_in(before.ids(), id),
            match prev_in(before.ids(), id) {
                Some(p) => next_in(after.ids(), p) == next_in(before.ids(), id),
                None => true,
            },
            match next_in(before.ids(), id) {
                Some(n) => prev_in(after.ids(), n) == prev_in(before.ids(), id),
                None => true,
            },
            before.ids().len() == 1 ==> first_of(after.ids()) == None::<usize> && last_of(after.ids()) == None::<usize>,
    {
        before.lemma_wf();
        let s = before.ids();
        let t = after.ids();
        let i = position(s, id);
        lemma_position(s, i);
        lemma_remove_increasing(s, i);
        if first_of(s) == Some(id) {
            lemma_position(s, 0);
        }
        if last_of(s) == Some(id) {
            lemma_position(s, s.len() - 1);
        }
        if i > 0 {
            assert(t[i - 1] == s[i - 1]);
            lemma_position(t, i - 1);
            if i + 1 < s.len() {
                assert(t[i] == s[i + 1]);
            }
        }
        if i + 1 < s.len() {
            assert(t[i] == s[i + 1]);
            lemma_position(t, i);
        }
    }


    /// A plain dump of the corpus, from which `from_parts` rebuilds it.
    pub fn to_parts(&self) -> (r: CorpusParts)
        requires
            self.wf(),
        ensures
            self.matches_parts(&r),
    {
        let ids = self.ids_in_order();
        let mut entries: Vec<(CorpusId, Testcase)> = Vec::new();
        let mut i: usize = 0;
        while i < ids.len()
            invariant
                self.wf(),
                ids@.len() == self.ids().len(),
                forall|j: int| 0 <= j < ids@.len() ==> #[trigger] ids@[j].0 == self.ids()[j],
                i <= ids@.len(),
                entries@.len() == i,
                forall|j: int| 0 <= j < i ==> #[trigger] entries@[j].0 == ids@[j],
                forall|j: int| 0 <= j < i ==> #[trigger] entries@[j].1@ == self.data()[self.ids()[j]],
            decreases ids@.len() - i,
        {
            let id = ids[i];
            proof {
                assert(self.ids()[i as int] == id.0);
                assert(self.ids().contains(id.0));
            }
            match self.get(id) {
                Ok(t) => {
                    entries.push((id, t.duplicate()));
                },
                Err(_) => {},
            }
            i = i + 1;
        }
        let r = CorpusParts { entries, next_id: self.entries.peek_next_id(), current: self.current };
        proof {
            assert(r.ids() =~= self.ids());
        }
        r
    }

    /// Rebuilds a corpus from a dump; none if the dump is not valid.
    pub fn from_parts(parts: CorpusParts) -> (r: Option<Self>)
        ensures
            r.is_some() <==> parts.valid(),
            match r {
                Some(c) => c.wf() && c.matches_parts(&parts),
                None => true,
            },
    {
        let ghost ps = parts.ids();
        let mut entries = S::new();
        let n = parts.entries.len();
        let mut i: usize = 0;
        while i < n
            invariant
                n == parts.entries@.len(),
                ps == parts.ids(),
                i <= n,
                entries.wf(),
                entries.ids() == ps.subrange(0, i as int),
                forall|j: int| 0 <= j < i ==> #[trigger] entries.data()[ps[j]] == parts.entries@[j].1@,
                forall|j: int| 0 <= j < i ==> ps[j] < parts.next_id,
                i > 0 ==> entries.next_id() == ps[i - 1] + 1,
                i == 0 ==> entries.next_id() == 0,
            decreases n - i,
        {
            let id = parts.entries[i].0;
            proof {
                assert(ps[i as int] == id.0);
            }
            if id.0 < entries.peek_next_id() || id.0 >= parts.next_id {
                proof {
                    assert(!parts.valid()) by {
                        if parts.valid() {
                            if id.0 < entries.next_id() {
                                assert(ps[i - 1] < ps[i as int]);
                            }
                            assert(ps[i as int] < parts.next_id);
                        }
                    }
                }
                return None;
            }
            proof {
                entries.lemma_wf();
            }
            let ghost before = entries;
            entries.append(id, parts.entries[i].1.duplicate());
            proof {
                assert(entries.ids() =~= ps.subrange(0, i + 1));
                assert forall|j: int| 0 <= j < i + 1 implies #[trigger] entries.data()[ps[j]] == parts.entries@[j].1@ by {
                    if j < i {
                        assert(before.ids()[j] == ps[j]);
                        assert(ps[j] < before.next_id());
                        assert(before.data()[ps[j]] == parts.entries@[j].1@);
                    } else {
                        assert(ps[j] == id.0);
                    }
                }
            }
            i = i + 1;
        }
        proof {
            entries.lemma_wf();
            assert(ps =~= ps.subrange(0, n as int));
        }
        entries.reserve_up_to(parts.next_id);
        let c = InMemoryCorpus { entries, current: parts.current };
        Some(c)
    }

    /// A corpus dumped by `to_parts` and rebuilt by `from_parts` is the same
    /// corpus: the dump is valid, so rebuilding succeeds, and the rebuilt
    /// corpus has the same order, test cases, next identifier and cursor.
    pub proof fn lemma_round_trip(c: Self, p: CorpusParts, d: Self)
        requires
            c.wf(),
            c.matches_parts(&p),
        ensures
            p.valid(),
            d.wf() && d.matches_parts(&p) ==> {
                &&& d.ids() == c.ids()
                &&& d.data() == c.data()
                &&& d.next_id() == c.next_id()
                &&& d.cursor() == c.cursor()
            },
    {
        c.lemma_wf();
        if d.wf() && d.matches_parts(&p) {
            d.lemma_wf();
            let s = c.ids();
            assert forall|k: usize| d.data().contains_key(k) implies d.data()[k] == c.data()[k] by {
                assert(s.contains(k));
                let j = choose|j: int| 0 <= j < s.len() && s[j] == k;
                assert(p.entries@[j].1@ == c.data()[p.ids()[j]]);
                assert(p.entries@[j].1@ == d.data()[p.ids()[j]]);
            }
            assert forall|k: usize| d.data().contains_key(k) <==> c.data().contains_key(k) by {}
            assert(d.data() =~= c.data());
        }
    }

    /// The first identifier in insertion order, if any.
    pub fn first(&self) -> (r: Option<CorpusId>)
        requires
            self.wf(),
        ensures
            opt_ix(r) == first_of(self.ids()),
    {
        self.entries.first()
    }

    /// The last identifier in insertion order, if any.
    pub fn last(&self) -> (r: Option<CorpusId>)
        requires
            self.wf(),
        ensures
            opt_ix(r) == last_of(self.ids()),
    {
        self.entries.last()
    }
}

impl InMemoryCorpus<TestcaseStorage> {
    /// An empty corpus with no cursor, kept in the linked storage.
    pub fn new() -> (r: Self)
        ensures
            r.wf(),
            r.ids() == Seq::<usize>::empty(),
            r.next_id() == 0,
            r.cursor() == None::<CorpusId>,
    {
        Self::empty()
    }
}

} // verus!
