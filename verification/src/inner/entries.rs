use vstd::prelude::*;

verus! {

/// An entry of a children map: a child's node index and the slot that
/// holds the child.
pub type Entry = (u64, usize);

/// No key occurs twice in `s`.
pub open spec fn keys_distinct(s: Seq<Entry>) -> bool {
    forall|i: int, j: int| 0 <= i < j < s.len() ==> #[trigger] s[i].0 != #[trigger] s[j].0
}

/// The keys of `s` rise strictly from left to right.
pub open spec fn keys_increasing(s: Seq<Entry>) -> bool {
    forall|i: int, j: int| 0 <= i < j < s.len() ==> #[trigger] s[i].0 < #[trigger] s[j].0
}

/// `s` lists the entries of `m`, each once, in some order.
pub open spec fn lists(s: Seq<Entry>, m: Map<u64, usize>) -> bool {
    &&& keys_distinct(s)
    &&& forall|i: int| 0 <= i < s.len() ==> #[trigger] m.contains_key(s[i].0) && m[s[i].0] == s[i].1
    &&& forall|k: u64| #[trigger] m.contains_key(k) ==> exists|i: int| 0 <= i < s.len() && s[i].0 == k
}

/// A sequence lists at most one map.
pub proof fn lemma_lists_same(s: Seq<Entry>, m1: Map<u64, usize>, m2: Map<u64, usize>)
    requires
        lists(s, m1),
        lists(s, m2),
    ensures
        m1 == m2,
{
    assert forall|k: u64| m1.contains_key(k) <==> m2.contains_key(k) by {
        if m1.contains_key(k) {
            let i = choose|i: int| 0 <= i < s.len() && s[i].0 == k;
            assert(m2.contains_key(s[i].0));
        }
        if m2.contains_key(k) {
            let i = choose|i: int| 0 <= i < s.len() && s[i].0 == k;
            assert(m1.contains_key(s[i].0));
        }
    }
    assert forall|k: u64| m1.contains_key(k) implies m1[k] == m2[k] by {
        let i = choose|i: int| 0 <= i < s.len() && s[i].0 == k;
        assert(m1[s[i].0] == s[i].1);
    }
    assert(m1 =~= m2);
}

/// The number of entries of a map listed by `s` is the length of `s`.
pub proof fn lemma_lists_len(s: Seq<Entry>, m: Map<u64, usize>)
    requires
        lists(s, m),
    ensures
        m.dom().finite(),
        m.len() == s.len(),
    decreases s.len(),
{
    if s.len() == 0 {
        assert(m.dom() =~= Set::<u64>::empty());
    } else {
        let last = s.last();
        let rest = s.drop_last();
        let m2 = m.remove(last.0);
        assert forall|k: u64| #[trigger] m2.contains_key(k) implies exists|i: int|
            0 <= i < rest.len() && rest[i].0 == k by {
            let i = choose|i: int| 0 <= i < s.len() && s[i].0 == k;
            assert(i != s.len() - 1);
            assert(rest[i].0 == k);
        }
        assert forall|i: int| 0 <= i < rest.len() implies #[trigger] m2.contains_key(rest[i].0)
            && m2[rest[i].0] == rest[i].1 by {
            assert(s[i] == rest[i]);
            assert(s[i].0 != s[s.len() - 1].0);
        }
        assert(lists(rest, m2));
        lemma_lists_len(rest, m2);
        assert(m.contains_key(last.0));
        assert(m.dom() =~= m2.dom().insert(last.0));
    }
}

} // verus!

verus! {

/// Reordering the entries of a map by their keys lists the same map, with
/// keys rising strictly.
pub proof fn lemma_sorted_lists(before: Seq<Entry>, after: Seq<Entry>, m: Map<u64, usize>)
    requires
        lists(before, m),
        after.to_multiset() == before.to_multiset(),
        forall|i: int, j: int| 0 <= i < j < after.len() ==> #[trigger] after[i].0 <= #[trigger] after[j].0,
    ensures
        lists(after, m),
        keys_increasing(after),
{
    broadcast use vstd::seq_lib::group_to_multiset_ensures;

    assert(before.no_duplicates()) by {
        assert forall|i: int, j: int| 0 <= i < before.len() && 0 <= j < before.len() && i != j
            implies before[i] != before[j] by {
            if i < j {
                assert(before[i].0 != before[j].0);
            } else {
                assert(before[j].0 != before[i].0);
            }
        }
    }
    before.lemma_multiset_has_no_duplicates();
    after.lemma_multiset_has_no_duplicates_conv();
    assert forall|i: int| 0 <= i < after.len() implies #[trigger] m.contains_key(after[i].0)
        && m[after[i].0] == after[i].1 by {
        assert(after.contains(after[i]));
        assert(after.to_multiset().count(after[i]) > 0);
        assert(before.contains(after[i]));
        let j = choose|j: int| 0 <= j < before.len() && before[j] == after[i];
        assert(m.contains_key(before[j].0));
    }
    assert forall|k: u64| #[trigger] m.contains_key(k) implies exists|i: int|
        0 <= i < after.len() && after[i].0 == k by {
        let j = choose|j: int| 0 <= j < before.len() && before[j].0 == k;
        assert(before.contains(before[j]));
        assert(before.to_multiset().count(before[j]) > 0);
        assert(after.contains(before[j]));
    }
    assert forall|i: int, j: int| 0 <= i < j < after.len() implies #[trigger] after[i].0
        < #[trigger] after[j].0 by {
        assert(after[i].0 <= after[j].0);
        if after[i].0 == after[j].0 {
            assert(m.contains_key(after[i].0));
            assert(m.contains_key(after[j].0));
            assert(after[i] == after[j]);
        }
    }
}

} // verus!
