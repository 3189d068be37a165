use vstd::prelude::*;

verus! {

/// Each identifier of `s` is smaller than every one that follows it.
pub open spec fn increasing(s: Seq<usize>) -> bool {
    forall|i: int, j: int| 0 <= i < j < s.len() ==> s[i] < s[j]
}

/// The first identifier of `s`, if any.
pub open spec fn first_of(s: Seq<usize>) -> Option<usize> {
    if s.len() == 0 {
        None
    } else {
        Some(s[0])
    }
}

/// The last identifier of `s`, if any.
pub open spec fn last_of(s: Seq<usize>) -> Option<usize> {
    if s.len() == 0 {
        None
    } else {
        Some(s[s.len() - 1])
    }
}

/// Where `id` stands in `s` (meaningful when `s` contains it).
pub open spec fn position(s: Seq<usize>, id: usize) -> int {
    choose|i: int| 0 <= i < s.len() && s[i] == id
}

/// The neighbour before position `i` of `s`.
pub open spec fn prev_at(s: Seq<usize>, i: int) -> Option<usize> {
    if i > 0 {
        Some(s[i - 1])
    } else {
        None
    }
}

/// The neighbour after position `i` of `s`.
pub open spec fn next_at(s: Seq<usize>, i: int) -> Option<usize> {
    if i + 1 < s.len() {
        Some(s[i + 1])
    } else {
        None
    }
}

/// The identifier that follows `id` in `s`; none if `id` is last or absent.
pub open spec fn next_in(s: Seq<usize>, id: usize) -> Option<usize> {
    if s.contains(id) {
        next_at(s, position(s, id))
    } else {
        None
    }
}

/// The identifier that precedes `id` in `s`; none if `id` is first or absent.
pub open spec fn prev_in(s: Seq<usize>, id: usize) -> Option<usize> {
    if s.contains(id) {
        prev_at(s, position(s, id))
    } else {
        None
    }
}

/// In an increasing sequence an identifier stands at one position only, so
/// its neighbours are those of that position.
pub proof fn lemma_position(s: Seq<usize>, i: int)
    requires
        increasing(s),
        0 <= i < s.len(),
    ensures
        s.contains(s[i]),
        position(s, s[i]) == i,
        next_in(s, s[i]) == next_at(s, i),
        prev_in(s, s[i]) == prev_at(s, i),
{
    assert(s[i] == s[i]);
    let j = position(s, s[i]);
    if j < i {
        assert(s[j] < s[i]);
    } else if i < j {
        assert(s[i] < s[j]);
    }
}

/// Removing one identifier from an increasing sequence leaves it increasing.
pub proof fn lemma_remove_increasing(s: Seq<usize>, i: int)
    requires
        increasing(s),
        0 <= i < s.len(),
    ensures
        increasing(s.remove(i)),
        forall|k: usize| s.remove(i).contains(k) <==> (s.contains(k) && k != s[i]),
{
    let t = s.remove(i);
    assert forall|a: int, b: int| 0 <= a < b < t.len() implies t[a] < t[b] by {
        let a2 = if a < i { a } else { a + 1 };
        let b2 = if b < i { b } else { b + 1 };
        assert(t[a] == s[a2] && t[b] == s[b2]);
    }
    assert forall|k: usize| t.contains(k) <==> (s.contains(k) && k != s[i]) by {
        if t.contains(k) {
            let a = choose|a: int| 0 <= a < t.len() && t[a] == k;
            let a2 = if a < i { a } else { a + 1 };
            assert(s[a2] == k);
            assert(a2 != i);
        }
        if s.contains(k) && k != s[i] {
            let a = choose|a: int| 0 <= a < s.len() && s[a] == k;
            if a < i {
                assert(t[a] == k);
            } else {
                assert(a != i);
                assert(t[a - 1] == k);
            }
        }
    }
}

} // verus!
