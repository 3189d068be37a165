use inmemory_corpus::corpus::{CorpusParts, Error, InMemoryCorpus};
use inmemory_corpus::corpus_id::CorpusId;
use inmemory_corpus::sorted_storage::SortedTestcaseStorage;
use inmemory_corpus::storage::TestcaseStorage;
use inmemory_corpus::store::OrderedStore;
use inmemory_corpus::testcase::Testcase;

fn tc(bytes: &[u8]) -> Testcase {
    Testcase::new(bytes.to_vec())
}

fn three() -> InMemoryCorpus<TestcaseStorage> {
    let mut c = InMemoryCorpus::new();
    assert_eq!(c.add(tc(b"A")), CorpusId(0));
    assert_eq!(c.add(tc(b"B")), CorpusId(1));
    assert_eq!(c.add(tc(b"C")), CorpusId(2));
    c
}

#[test]
fn three_adds_traverse_in_order() {
    let c = three();
    assert_eq!(c.first(), Some(CorpusId(0)));
    assert_eq!(c.last(), Some(CorpusId(2)));
    assert_eq!(c.next(CorpusId(0)), Some(CorpusId(1)));
    assert_eq!(c.next(CorpusId(1)), Some(CorpusId(2)));
    assert_eq!(c.next(CorpusId(2)), None);
}

#[test]
fn remove_interior_splices_neighbours() {
    let mut c = three();
    let removed = c.remove(CorpusId(1)).unwrap().unwrap();
    assert_eq!(removed.input(), &b"B".to_vec());
    assert_eq!(c.next(CorpusId(0)), Some(CorpusId(2)));
    assert_eq!(c.prev(CorpusId(2)), Some(CorpusId(0)));
    assert_eq!(c.count(), 2);
}

#[test]
fn get_removed_is_key_not_found() {
    let mut c = three();
    c.remove(CorpusId(1)).unwrap();
    assert!(matches!(c.get(CorpusId(1)), Err(Error::KeyNotFound(CorpusId(1)))));
}

#[test]
fn empty_then_single_add() {
    let mut c = InMemoryCorpus::new();
    assert_eq!(c.first(), None);
    assert_eq!(c.last(), None);
    assert_eq!(c.add(tc(b"X")), CorpusId(0));
    assert_eq!(c.first(), Some(CorpusId(0)));
    assert_eq!(c.last(), Some(CorpusId(0)));
}

#[test]
fn replace_keeps_position() {
    let mut c = three();
    let old = c.replace(CorpusId(0), tc(b"X2")).unwrap();
    assert_eq!(old.input(), &b"A".to_vec());
    assert_eq!(c.get(CorpusId(0)).unwrap().input(), &b"X2".to_vec());
    assert_eq!(c.next(CorpusId(0)), Some(CorpusId(1)));
    assert_eq!(c.prev(CorpusId(0)), None);
}

#[test]
fn replace_absent_is_key_not_found() {
    let mut c = three();
    assert!(matches!(c.replace(CorpusId(7), tc(b"Z")), Err(Error::KeyNotFound(CorpusId(7)))));
    assert_eq!(c.count(), 3);
}

#[test]
fn ids_never_reused_after_removal() {
    let mut c = three();
    c.remove(CorpusId(2)).unwrap();
    c.remove(CorpusId(0)).unwrap();
    assert_eq!(c.add(tc(b"D")), CorpusId(3));
    assert_eq!(c.add(tc(b"E")), CorpusId(4));
    assert_eq!(c.ids_in_order(), vec![CorpusId(1), CorpusId(3), CorpusId(4)]);
}

#[test]
fn count_ignores_absent_removal() {
    let mut c = three();
    assert!(c.remove(CorpusId(9)).unwrap().is_none());
    assert_eq!(c.count(), 3);
    assert!(c.remove(CorpusId(0)).unwrap().is_some());
    assert!(c.remove(CorpusId(0)).unwrap().is_none());
    assert_eq!(c.count(), 2);
}

#[test]
fn traversal_both_ways() {
    let mut c = three();
    c.add(tc(b"D"));
    c.remove(CorpusId(1)).unwrap();
    assert_eq!(c.ids_in_order(), vec![CorpusId(0), CorpusId(2), CorpusId(3)]);
    assert_eq!(c.ids_in_reverse(), vec![CorpusId(3), CorpusId(2), CorpusId(0)]);
    assert_eq!(InMemoryCorpus::new().ids_in_order(), Vec::<CorpusId>::new());
}

#[test]
fn remove_head_and_tail() {
    let mut c = three();
    c.remove(CorpusId(0)).unwrap();
    assert_eq!(c.first(), Some(CorpusId(1)));
    assert_eq!(c.prev(CorpusId(1)), None);
    c.remove(CorpusId(2)).unwrap();
    assert_eq!(c.last(), Some(CorpusId(1)));
    assert_eq!(c.next(CorpusId(1)), None);
    c.remove(CorpusId(1)).unwrap();
    assert_eq!(c.first(), None);
    assert_eq!(c.last(), None);
    assert_eq!(c.count(), 0);
}

#[test]
fn next_prev_of_absent_id() {
    let mut c = three();
    c.remove(CorpusId(1)).unwrap();
    assert_eq!(c.next(CorpusId(1)), None);
    assert_eq!(c.prev(CorpusId(1)), None);
    assert_eq!(c.next(CorpusId(50)), None);
}

#[test]
fn cursor_is_free_state() {
    let mut c = three();
    assert_eq!(*c.current(), None);
    *c.current_mut() = Some(CorpusId(1));
    assert_eq!(*c.current(), Some(CorpusId(1)));
    c.remove(CorpusId(1)).unwrap();
    assert_eq!(*c.current(), Some(CorpusId(1)));
}

#[test]
fn round_trip_through_parts() {
    let mut c = three();
    c.remove(CorpusId(1)).unwrap();
    *c.current_mut() = Some(CorpusId(2));
    let parts = c.to_parts();
    assert_eq!(parts.next_id, 3);
    let mut d = InMemoryCorpus::<TestcaseStorage>::from_parts(parts).unwrap();
    assert_eq!(d.ids_in_order(), vec![CorpusId(0), CorpusId(2)]);
    assert_eq!(d.get(CorpusId(2)).unwrap().input(), &b"C".to_vec());
    assert_eq!(*d.current(), Some(CorpusId(2)));
    assert_eq!(d.add(tc(b"N")), CorpusId(3));
}

#[test]
fn from_parts_rejects_bad_dumps() {
    let unordered = CorpusParts {
        entries: vec![(CorpusId(2), tc(b"a")), (CorpusId(1), tc(b"b"))],
        next_id: 5,
        current: None,
    };
    assert!(InMemoryCorpus::<TestcaseStorage>::from_parts(unordered).is_none());
    let stale_counter = CorpusParts {
        entries: vec![(CorpusId(0), tc(b"a")), (CorpusId(4), tc(b"b"))],
        next_id: 4,
        current: None,
    };
    assert!(InMemoryCorpus::<TestcaseStorage>::from_parts(stale_counter).is_none());
    let gaps = CorpusParts {
        entries: vec![(CorpusId(3), tc(b"a")), (CorpusId(8), tc(b"b"))],
        next_id: 10,
        current: None,
    };
    let mut d = InMemoryCorpus::<TestcaseStorage>::from_parts(gaps).unwrap();
    assert_eq!(d.next(CorpusId(3)), Some(CorpusId(8)));
    assert_eq!(d.add(tc(b"c")), CorpusId(10));
}

#[test]
fn storage_direct_use() {
    let mut s = TestcaseStorage::new();
    assert_eq!(s.insert(tc(b"x")), CorpusId(0));
    assert_eq!(s.insert(tc(b"y")), CorpusId(1));
    assert_eq!(s.get(CorpusId(1)).unwrap().input(), &b"y".to_vec());
    assert!(s.get(CorpusId(5)).is_none());
    let old = s.replace(CorpusId(0), tc(b"z")).unwrap();
    assert_eq!(old.input(), &b"x".to_vec());
    assert_eq!(s.remove(CorpusId(0)).unwrap().input(), &b"z".to_vec());
    assert!(s.remove(CorpusId(0)).is_none());
    assert_eq!(s.first(), Some(CorpusId(1)));
    assert_eq!(s.count(), 1);
}

#[test]
fn duplicate_copies_bytes() {
    let t = tc(&[1, 2, 3]);
    let d = t.duplicate();
    assert_eq!(d.input(), &vec![1u8, 2, 3]);
}

fn three_in<S: OrderedStore>() -> InMemoryCorpus<S> {
    let mut c = InMemoryCorpus::<S>::empty();
    assert_eq!(c.add(tc(b"A")), CorpusId(0));
    assert_eq!(c.add(tc(b"B")), CorpusId(1));
    assert_eq!(c.add(tc(b"C")), CorpusId(2));
    c
}

#[test]
fn sorted_store_traversal_and_removal() {
    let mut c = three_in::<SortedTestcaseStorage>();
    assert_eq!(c.first(), Some(CorpusId(0)));
    assert_eq!(c.last(), Some(CorpusId(2)));
    assert_eq!(c.next(CorpusId(0)), Some(CorpusId(1)));
    assert_eq!(c.next(CorpusId(2)), None);
    assert_eq!(c.prev(CorpusId(0)), None);
    c.remove(CorpusId(1)).unwrap();
    assert_eq!(c.next(CorpusId(0)), Some(CorpusId(2)));
    assert_eq!(c.prev(CorpusId(2)), Some(CorpusId(0)));
    assert_eq!(c.count(), 2);
    assert!(matches!(c.get(CorpusId(1)), Err(Error::KeyNotFound(CorpusId(1)))));
    assert_eq!(c.next(CorpusId(1)), None);
    assert_eq!(c.prev(CorpusId(1)), None);
    let old = c.replace(CorpusId(0), tc(b"X2")).unwrap();
    assert_eq!(old.input(), &b"A".to_vec());
    assert_eq!(c.get(CorpusId(0)).unwrap().input(), &b"X2".to_vec());
    assert_eq!(c.next(CorpusId(0)), Some(CorpusId(2)));
    assert_eq!(c.add(tc(b"D")), CorpusId(3));
    assert_eq!(c.ids_in_order(), vec![CorpusId(0), CorpusId(2), CorpusId(3)]);
    assert_eq!(c.ids_in_reverse(), vec![CorpusId(3), CorpusId(2), CorpusId(0)]);
}

#[test]
fn sorted_store_empty_and_sole_entry() {
    let mut s = SortedTestcaseStorage::new();
    assert_eq!(s.first(), None);
    assert_eq!(s.last(), None);
    assert_eq!(s.insert(tc(b"X")), CorpusId(0));
    assert_eq!(s.first(), Some(CorpusId(0)));
    assert_eq!(s.last(), Some(CorpusId(0)));
    assert_eq!(s.remove(CorpusId(0)).unwrap().input(), &b"X".to_vec());
    assert_eq!(s.first(), None);
    assert_eq!(s.last(), None);
    assert_eq!(s.insert(tc(b"Y")), CorpusId(1));
}

#[test]
fn sorted_store_round_trip() {
    let mut c = three_in::<SortedTestcaseStorage>();
    c.remove(CorpusId(0)).unwrap();
    let mut d = InMemoryCorpus::<SortedTestcaseStorage>::from_parts(c.to_parts()).unwrap();
    assert_eq!(d.ids_in_order(), vec![CorpusId(1), CorpusId(2)]);
    assert_eq!(d.get(CorpusId(1)).unwrap().input(), &b"B".to_vec());
    assert_eq!(d.add(tc(b"N")), CorpusId(3));
}

#[test]
fn stores_agree_on_gapped_ids() {
    let parts = || CorpusParts {
        entries: vec![(CorpusId(2), tc(b"a")), (CorpusId(5), tc(b"b")), (CorpusId(9), tc(b"c"))],
        next_id: 12,
        current: Some(CorpusId(5)),
    };
    let l = InMemoryCorpus::<TestcaseStorage>::from_parts(parts()).unwrap();
    let s = InMemoryCorpus::<SortedTestcaseStorage>::from_parts(parts()).unwrap();
    for id in 0..13 {
        assert_eq!(l.next(CorpusId(id)), s.next(CorpusId(id)));
        assert_eq!(l.prev(CorpusId(id)), s.prev(CorpusId(id)));
    }
    assert_eq!(s.next(CorpusId(4)), None);
    assert_eq!(s.next(CorpusId(5)), Some(CorpusId(9)));
    assert_eq!(s.prev(CorpusId(9)), Some(CorpusId(5)));
    assert_eq!(*s.current(), Some(CorpusId(5)));
}
