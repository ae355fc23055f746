//! Merging of maps and sets: the child's entries join the parent's, and a
//! key present on both sides keeps the parent's key and folds the
//! child's value into the parent's.
use std::collections::{BTreeMap, BTreeSet, HashMap, HashSet};
use std::hash::{BuildHasher, Hash};
use vstd::laws_cmp::obeys_cmp;
use vstd::laws_eq::obeys_concrete_eq;
use vstd::prelude::*;
use vstd::std_specs::hash::{builds_valid_hashers, obeys_key_model};

use crate::merge::Merge;

verus! {

broadcast use vstd::std_specs::hash::group_hash_axioms;

/// `s` lists the entries of `m`, each key once, in some order.
pub open spec fn pairs_list<K, V>(s: Seq<(K, V)>, m: Map<K, V>) -> bool {
    &&& forall|i: int, j: int| 0 <= i < j < s.len() ==> #[trigger] s[i].0 != #[trigger] s[j].0
    &&& forall|i: int| 0 <= i < s.len() ==> #[trigger] m.contains_key(s[i].0) && m[s[i].0] == s[i].1
    &&& forall|k: K| #[trigger] m.contains_key(k) ==> exists|i: int| 0 <= i < s.len() && s[i].0 == k
}

/// `merged` holds the keys of both maps. A key of one map only keeps its
/// value there; a key of both holds what merging the child's value into
/// the parent's leaves.
pub open spec fn maps_merge_to<K, V: Merge>(parent: Map<K, V>, child: Map<K, V>, merged: Map<K, V>) -> bool {
    &&& merged.dom() == parent.dom().union(child.dom())
    &&& forall|k: K| #[trigger]
        merged.contains_key(k) ==> if parent.contains_key(k) && child.contains_key(k) {
            V::merges_to(parent[k], child[k], merged[k])
        } else if parent.contains_key(k) {
            merged[k] == parent[k]
        } else {
            merged[k] == child[k]
        }
}

/// `HashMap::into_iter`, collected: every entry once, in the table's walk
/// order, of which nothing is stated.
#[verifier::external_body]
fn hash_map_into_vec<K, V, S>(m: HashMap<K, V, S>) -> (r: Vec<(K, V)>)
    ensures
        obeys_key_model::<K>() && builds_valid_hashers::<S>() ==> pairs_list(r@, m@),
{
    Vec::from_iter(m)
}

/// Some entry of `all` from position `n` on has the key `k`.
pub open spec fn keyed_from<K, V>(all: Seq<(K, V)>, n: int, k: K) -> bool {
    exists|j: int| n <= j < all.len() && all[j].0 == k
}

/// `out` is what merging `listed` and `based` leaves, `listed` being the
/// parent's value where `listed_first`, else the child's.
pub open spec fn merged_value<V: Merge>(listed_first: bool, listed: V, based: V, out: V) -> bool {
    if listed_first {
        V::merges_to(listed, based, out)
    } else {
        V::merges_to(based, listed, out)
    }
}

/// `cur` is `base` with the entries of `all` from position `n` on folded
/// in: their keys join, and a key of both holds the merged value.
pub open spec fn map_folded<K, V: Merge>(
    base: Map<K, V>,
    all: Seq<(K, V)>,
    n: int,
    cur: Map<K, V>,
    listed_first: bool,
) -> bool {
    &&& forall|k: K| #[trigger] cur.contains_key(k) <==> base.contains_key(k) || keyed_from(all, n, k)
    &&& forall|k: K| #[trigger] base.contains_key(k) && !keyed_from(all, n, k) ==> cur[k] == base[k]
    &&& forall|j: int|
        n <= j < all.len() ==> if base.contains_key(#[trigger] all[j].0) {
            merged_value(listed_first, all[j].1, base[all[j].0], cur[all[j].0])
        } else {
            cur[all[j].0] == all[j].1
        }
}

/// Before the entry at position `n` is folded in, the map holds its key
/// exactly where `base` does, with `base`'s value.
proof fn lemma_map_fold_peek<K, V: Merge>(
    base: Map<K, V>,
    all: Seq<(K, V)>,
    n: int,
    cur: Map<K, V>,
    listed_first: bool,
    listed: Map<K, V>,
)
    requires
        pairs_list(all, listed),
        0 <= n < all.len(),
        map_folded(base, all, n + 1, cur, listed_first),
    ensures
        cur.contains_key(all[n].0) == base.contains_key(all[n].0),
        base.contains_key(all[n].0) ==> cur[all[n].0] == base[all[n].0],
{
    assert(!keyed_from(all, n + 1, all[n].0)) by {
        assert forall|j: int| n + 1 <= j < all.len() implies all[j].0 != all[n].0 by {
            assert(all[n].0 != all[j].0);
        }
    }
}

/// Folding in the entry at position `n` extends the fold by one entry.
proof fn lemma_map_fold_step<K, V: Merge>(
    base: Map<K, V>,
    all: Seq<(K, V)>,
    n: int,
    before: Map<K, V>,
    after: Map<K, V>,
    out: V,
    listed_first: bool,
    listed: Map<K, V>,
)
    requires
        pairs_list(all, listed),
        0 <= n < all.len(),
        map_folded(base, all, n + 1, before, listed_first),
        after == before.insert(all[n].0, out),
        if base.contains_key(all[n].0) {
            merged_value(listed_first, all[n].1, base[all[n].0], out)
        } else {
            out == all[n].1
        },
    ensures
        map_folded(base, all, n, after, listed_first),
{
    let key = all[n].0;
    assert forall|j: int| n <= j < all.len() implies if base.contains_key(#[trigger] all[j].0) {
        merged_value(listed_first, all[j].1, base[all[j].0], after[all[j].0])
    } else {
        after[all[j].0] == all[j].1
    } by {
        if j > n {
            assert(all[j].0 != all[n].0);
        }
    }
    assert forall|k: K| #[trigger] base.contains_key(k) && !keyed_from(all, n, k) implies after[k]
        == base[k] by {
        assert(k != key);
        assert(!keyed_from(all, n + 1, k));
    }
    assert forall|k: K| #[trigger] after.contains_key(k) <==> base.contains_key(k) || keyed_from(
        all,
        n,
        k,
    ) by {
        if k == key {
            assert(all[n].0 == k);
        }
        if keyed_from(all, n, k) && k != key {
            let j = choose|j: int| n <= j < all.len() && all[j].0 == k;
            assert(j != n);
        }
    }
}

/// A fold of every entry of `all`, which lists `listed`, is the merge of
/// the parent and the child: `listed` is the parent where `listed_first`.
proof fn lemma_map_fold_done<K, V: Merge>(
    base: Map<K, V>,
    all: Seq<(K, V)>,
    cur: Map<K, V>,
    listed_first: bool,
    listed: Map<K, V>,
)
    requires
        pairs_list(all, listed),
        map_folded(base, all, 0, cur, listed_first),
    ensures
        listed_first ==> maps_merge_to(listed, base, cur),
        !listed_first ==> maps_merge_to(base, listed, cur),
{
    assert forall|k: K| #[trigger] listed.contains_key(k) implies keyed_from(all, 0, k) by {
        let j = choose|j: int| 0 <= j < all.len() && all[j].0 == k;
    }
    assert forall|k: K| keyed_from(all, 0, k) implies #[trigger] listed.contains_key(k) by {
        let j = choose|j: int| 0 <= j < all.len() && all[j].0 == k;
    }
    assert(cur.dom() =~= listed.dom().union(base.dom()));
    assert(cur.dom() =~= base.dom().union(listed.dom()));
    assert forall|k: K| #[trigger] cur.contains_key(k) && listed.contains_key(k) implies if base.contains_key(k) {
        merged_value(listed_first, listed[k], base[k], cur[k])
    } else {
        cur[k] == listed[k]
    } by {
        let j = choose|j: int| 0 <= j < all.len() && all[j].0 == k;
        assert(all[j].1 == listed[k]);
    }
}

/// `cur` is `base` with the elements of `all` from position `n` on added.
pub open spec fn set_folded<T>(base: Set<T>, all: Seq<T>, n: int, cur: Set<T>) -> bool {
    forall|x: T| #[trigger]
        cur.contains(x) <==> base.contains(x) || all.subrange(n, all.len() as int).contains(x)
}

/// Adding the element at position `n` extends the fold by one element.
proof fn lemma_set_fold_step<T>(base: Set<T>, all: Seq<T>, n: int, before: Set<T>, after: Set<T>)
    requires
        0 <= n < all.len(),
        set_folded(base, all, n + 1, before),
        after == before.insert(all[n]),
    ensures
        set_folded(base, all, n, after),
{
    assert forall|x: T| #[trigger]
        after.contains(x) <==> base.contains(x) || all.subrange(n, all.len() as int).contains(x) by {
        let later = all.subrange(n, all.len() as int);
        let prev = all.subrange(n + 1, all.len() as int);
        assert(later.contains(x) <==> x == all[n] || prev.contains(x)) by {
            assert(later[0] == all[n]);
            if prev.contains(x) {
                let j = choose|j: int| 0 <= j < prev.len() && prev[j] == x;
                assert(later[j + 1] == x);
            }
            if later.contains(x) {
                let j = choose|j: int| 0 <= j < later.len() && later[j] == x;
                if j > 0 {
                    assert(prev[j - 1] == x);
                }
            }
        }
    }
}

/// A fold of every element of `all` is `base` joined with them.
proof fn lemma_set_fold_done<T>(base: Set<T>, all: Seq<T>, cur: Set<T>)
    requires
        set_folded(base, all, 0, cur),
    ensures
        cur == base.union(all.to_set()),
{
    assert(all.subrange(0, all.len() as int) == all);
    assert(cur =~= base.union(all.to_set()));
}

impl<K: Eq + Hash, V: Merge, S: BuildHasher> Merge for HashMap<K, V, S> {
    open spec fn merges_to(parent: Self, child: Self, merged: Self) -> bool {
        obeys_key_model::<K>() && builds_valid_hashers::<S>() ==> maps_merge_to(parent@, child@, merged@)
    }

    fn merge(parent: &mut Self, child: Self) {
        let ghost model = obeys_key_model::<K>() && builds_valid_hashers::<S>();
        let ghost p0 = parent@;
        let ghost c0 = child@;
        if parent.len() < child.len() {
            // Folding the smaller side into the larger one is cheaper, but it
            // puts the parent's entries on the inserting side: a colliding
            // entry is removed first so that the parent's key stays.
            let mut child = child;
            std::mem::swap(parent, &mut child);
            let mut entries = hash_map_into_vec(child);
            let ghost all = entries@;
            while entries.len() > 0
                invariant
                    model == (obeys_key_model::<K>() && builds_valid_hashers::<S>()),
                    model ==> pairs_list(all, p0),
                    entries@ == all.subrange(0, entries@.len() as int),
                    entries@.len() <= all.len(),
                    model ==> map_folded(c0, all, entries@.len() as int, parent@, true),
                decreases entries.len(),
            {
                let (key, mut value) = entries.pop().unwrap();
                let ghost n = entries@.len() as int;
                let ghost before = parent@;
                proof {
                    assert(all[n] == (key, value));
                    if model {
                        lemma_map_fold_peek(c0, all, n, before, true, p0);
                    }
                }
                let removed = parent.remove(&key);
                match removed {
                    Some(existing) => {
                        Merge::merge(&mut value, existing);
                    },
                    None => {},
                }
                parent.insert(key, value);
                proof {
                    if model {
                        assert(parent@ =~= before.insert(key, value));
                        lemma_map_fold_step(c0, all, n, before, parent@, value, true, p0);
                    }
                }
            }
            proof {
                if model {
                    lemma_map_fold_done(c0, all, parent@, true, p0);
                }
            }
        } else {
            let mut entries = hash_map_into_vec(child);
            let ghost all = entries@;
            while entries.len() > 0
                invariant
                    model == (obeys_key_model::<K>() && builds_valid_hashers::<S>()),
                    model ==> pairs_list(all, c0),
                    entries@ == all.subrange(0, entries@.len() as int),
                    entries@.len() <= all.len(),
                    model ==> map_folded(p0, all, entries@.len() as int, parent@, false),
                decreases entries.len(),
            {
                let (key, value) = entries.pop().unwrap();
                let ghost n = entries@.len() as int;
                let ghost before = parent@;
                proof {
                    assert(all[n] == (key, value));
                    if model {
                        lemma_map_fold_peek(p0, all, n, before, false, c0);
                    }
                }
                match parent.entry(key) {
                    std::collections::hash_map::Entry::Occupied(e) => {
                        Merge::merge(e.into_mut(), value);
                    },
                    std::collections::hash_map::Entry::Vacant(e) => {
                        e.insert(value);
                    },
                }
                proof {
                    if model {
                        if p0.contains_key(key) {
                            assert(parent@.contains_key(key));
                            assert(V::merges_to(p0[key], value, parent@[key]));
                        } else {
                            assert(parent@[key] == value);
                        }
                        assert(forall|k: K| k != key ==> parent@.contains_key(k) == before.contains_key(k));
                        assert(forall|k: K| k != key && before.contains_key(k) ==> parent@[k] == before[k]);
                        assert(parent@ =~= before.insert(key, parent@[key]));
                        lemma_map_fold_step(p0, all, n, before, parent@, parent@[key], false, c0);
                    }
                }
            }
            proof {
                if model {
                    lemma_map_fold_done(p0, all, parent@, false, c0);
                }
            }
        }
    }
}

impl<K: Ord, V: Merge> Merge for BTreeMap<K, V> {
    open spec fn merges_to(parent: Self, child: Self, merged: Self) -> bool {
        btree_model::<K>() ==> maps_merge_to(parent@, child@, merged@)
    }

    fn merge(parent: &mut Self, child: Self) {
        let ghost model = btree_model::<K>();
        let ghost p0 = parent@;
        let ghost c0 = child@;
        if parent.len() < child.len() {
            // Folding the smaller side into the larger one is cheaper, but it
            // puts the parent's entries on the inserting side: a colliding
            // entry is removed first so that the parent's key stays.
            let mut child = child;
            std::mem::swap(parent, &mut child);
            let mut entries = btree_map_into_vec(child);
            let ghost all = entries@;
            while entries.len() > 0
                invariant
                    model == (btree_model::<K>()),
                    model ==> pairs_list(all, p0),
                    entries@ == all.subrange(0, entries@.len() as int),
                    entries@.len() <= all.len(),
                    model ==> map_folded(c0, all, entries@.len() as int, parent@, true),
                decreases entries.len(),
            {
                let (key, mut value) = entries.pop().unwrap();
                let ghost n = entries@.len() as int;
                let ghost before = parent@;
                proof {
                    assert(all[n] == (key, value));
                    if model {
                        lemma_map_fold_peek(c0, all, n, before, true, p0);
                    }
                }
                let removed = parent.remove(&key);
                match removed {
                    Some(existing) => {
                        Merge::merge(&mut value, existing);
                    },
                    None => {},
                }
                parent.insert(key, value);
                proof {
                    if model {
                        assert(parent@ =~= before.insert(key, value));
                        lemma_map_fold_step(c0, all, n, before, parent@, value, true, p0);
                    }
                }
            }
            proof {
                if model {
                    lemma_map_fold_done(c0, all, parent@, true, p0);
                }
            }
        } else {
            let mut entries = btree_map_into_vec(child);
            let ghost all = entries@;
            while entries.len() > 0
                invariant
                    model == (btree_model::<K>()),
                    model ==> pairs_list(all, c0),
                    entries@ == all.subrange(0, entries@.len() as int),
                    entries@.len() <= all.len(),
                    model ==> map_folded(p0, all, entries@.len() as int, parent@, false),
                decreases entries.len(),
            {
                let (key, value) = entries.pop().unwrap();
                let ghost n = entries@.len() as int;
                let ghost before = parent@;
                proof {
                    assert(all[n] == (key, value));
                    if model {
                        lemma_map_fold_peek(p0, all, n, before, false, c0);
                    }
                }
                match btree_map_remove_entry(parent, &key) {
                    Some((stored, mut existing)) => {
                        Merge::merge(&mut existing, value);
                        parent.insert(stored, existing);
                    },
                    None => {
                        parent.insert(key, value);
                    },
                }
                proof {
                    if model {
                        if p0.contains_key(key) {
                            assert(parent@.contains_key(key));
                            assert(V::merges_to(p0[key], value, parent@[key]));
                        } else {
                            assert(parent@[key] == value);
                        }
                        assert(forall|k: K| k != key ==> parent@.contains_key(k) == before.contains_key(k));
                        assert(forall|k: K| k != key && before.contains_key(k) ==> parent@[k] == before[k]);
                        assert(parent@ =~= before.insert(key, parent@[key]));
                        lemma_map_fold_step(p0, all, n, before, parent@, parent@[key], false, c0);
                    }
                }
            }
            proof {
                if model {
                    lemma_map_fold_done(p0, all, parent@, false, c0);
                }
            }
        }
    }
}

/// Keys are ordered consistently, and keys that compare equal are identical.
pub open spec fn btree_model<K: Ord>() -> bool {
    obeys_cmp::<K>() && obeys_concrete_eq::<K>()
}

/// `BTreeMap::into_iter`, collected: every entry once.
#[verifier::external_body]
fn btree_map_into_vec<K: Ord, V>(m: BTreeMap<K, V>) -> (r: Vec<(K, V)>)
    ensures
        btree_model::<K>() ==> pairs_list(r@, m@),
{
    Vec::from_iter(m)
}

/// `BTreeMap::remove_entry`: the key is gone afterwards; if it was there,
/// its stored key and value are returned.
#[verifier::external_body]
fn btree_map_remove_entry<K: Ord, V>(m: &mut BTreeMap<K, V>, key: &K) -> (r: Option<(K, V)>)
    ensures
        btree_model::<K>() ==> final(m)@ == old(m)@.remove(*key) && match r {
            Some(e) => old(m)@.contains_key(*key) && e.0 == *key && e.1 == old(m)@[*key],
            None => !old(m)@.contains_key(*key),
        },
{
    m.remove_entry(key)
}

/// `HashSet::into_iter`, collected: every element once, in the table's
/// walk order, of which nothing is stated.
#[verifier::external_body]
fn hash_set_into_vec<T, S>(s: HashSet<T, S>) -> (r: Vec<T>)
    ensures
        obeys_key_model::<T>() && builds_valid_hashers::<S>() ==> r@.no_duplicates() && r@.to_set()
            == s@,
{
    Vec::from_iter(s)
}

/// `HashSet::replace`: the value is in the set afterwards, in place of an
/// equal one if there was one, which is returned.
#[verifier::external_body]
fn hash_set_replace<T: Eq + Hash, S: BuildHasher>(s: &mut HashSet<T, S>, value: T) -> (r: Option<T>)
    ensures
        obeys_key_model::<T>() && builds_valid_hashers::<S>() ==> final(s)@ == old(s)@.insert(value)
            && (r is Some <==> old(s)@.contains(value)),
{
    s.replace(value)
}

/// `BTreeSet::into_iter`, collected: every element once.
#[verifier::external_body]
fn btree_set_into_vec<T: Ord>(s: BTreeSet<T>) -> (r: Vec<T>)
    ensures
        btree_model::<T>() ==> r@.no_duplicates() && r@.to_set() == s@,
{
    Vec::from_iter(s)
}

/// `BTreeSet::replace`: the value is in the set afterwards, in place of an
/// equal one if there was one, which is returned.
#[verifier::external_body]
fn btree_set_replace<T: Ord>(s: &mut BTreeSet<T>, value: T) -> (r: Option<T>)
    ensures
        btree_model::<T>() ==> final(s)@ == old(s)@.insert(value) && (r is Some <==> old(s)@.contains(
            value,
        )),
{
    s.replace(value)
}

impl<T: Eq + Hash, S: BuildHasher> Merge for HashSet<T, S> {
    open spec fn merges_to(parent: Self, child: Self, merged: Self) -> bool {
        obeys_key_model::<T>() && builds_valid_hashers::<S>() ==> merged@ == parent@.union(child@)
    }

    fn merge(parent: &mut Self, child: Self) {
        let ghost model = obeys_key_model::<T>() && builds_valid_hashers::<S>();
        let ghost p0 = parent@;
        let ghost c0 = child@;
        if parent.len() < child.len() {
            // `insert` keeps the element already there, so the parent's
            // elements are put in with `replace` to win collisions.
            let mut child = child;
            std::mem::swap(parent, &mut child);
            let mut items = hash_set_into_vec(child);
            let ghost all = items@;
            while items.len() > 0
                invariant
                    model == (obeys_key_model::<T>() && builds_valid_hashers::<S>()),
                    model ==> all.to_set() == p0,
                    items@ == all.subrange(0, items@.len() as int),
                    items@.len() <= all.len(),
                    model ==> set_folded(c0, all, items@.len() as int, parent@),
                decreases items.len(),
            {
                let ghost n = items@.len() - 1;
                let ghost before = parent@;
                let v = items.pop().unwrap();
                hash_set_replace(parent, v);
                proof {
                    if model {
                        lemma_set_fold_step(c0, all, n, before, parent@);
                    }
                }
            }
            proof {
                if model {
                    lemma_set_fold_done(c0, all, parent@);
                    assert(parent@ =~= p0.union(c0));
                }
            }
        } else {
            let mut items = hash_set_into_vec(child);
            let ghost all = items@;
            while items.len() > 0
                invariant
                    model == (obeys_key_model::<T>() && builds_valid_hashers::<S>()),
                    model ==> all.to_set() == c0,
                    items@ == all.subrange(0, items@.len() as int),
                    items@.len() <= all.len(),
                    model ==> set_folded(p0, all, items@.len() as int, parent@),
                decreases items.len(),
            {
                let ghost n = items@.len() - 1;
                let ghost before = parent@;
                let v = items.pop().unwrap();
                parent.insert(v);
                proof {
                    if model {
                        lemma_set_fold_step(p0, all, n, before, parent@);
                    }
                }
            }
            proof {
                if model {
                    lemma_set_fold_done(p0, all, parent@);
                }
            }
        }
    }
}

impl<T: Ord> Merge for BTreeSet<T> {
    open spec fn merges_to(parent: Self, child: Self, merged: Self) -> bool {
        btree_model::<T>() ==> merged@ == parent@.union(child@)
    }

    fn merge(parent: &mut Self, child: Self) {
        let ghost model = btree_model::<T>();
        let ghost p0 = parent@;
        let ghost c0 = child@;
        if parent.len() < child.len() {
            // `insert` keeps the element already there, so the parent's
            // elements are put in with `replace` to win collisions.
            let mut child = child;
            std::mem::swap(parent, &mut child);
            let mut items = btree_set_into_vec(child);
            let ghost all = items@;
            while items.len() > 0
                invariant
                    model == (btree_model::<T>()),
                    model ==> all.to_set() == p0,
                    items@ == all.subrange(0, items@.len() as int),
                    items@.len() <= all.len(),
                    model ==> set_folded(c0, all, items@.len() as int, parent@),
                decreases items.len(),
            {
                let ghost n = items@.len() - 1;
                let ghost before = parent@;
                let v = items.pop().unwrap();
                btree_set_replace(parent, v);
                proof {
                    if model {
                        lemma_set_fold_step(c0, all, n, before, parent@);
                    }
                }
            }
            proof {
                if model {
                    lemma_set_fold_done(c0, all, parent@);
                    assert(parent@ =~= p0.union(c0));
                }
            }
        } else {
            let mut items = btree_set_into_vec(child);
            let ghost all = items@;
            while items.len() > 0
                invariant
                    model == (btree_model::<T>()),
                    model ==> all.to_set() == c0,
                    items@ == all.subrange(0, items@.len() as int),
                    items@.len() <= all.len(),
                    model ==> set_folded(p0, all, items@.len() as int, parent@),
                decreases items.len(),
            {
                let ghost n = items@.len() - 1;
                let ghost before = parent@;
                let v = items.pop().unwrap();
                parent.insert(v);
                proof {
                    if model {
                        lemma_set_fold_step(p0, all, n, before, parent@);
                    }
                }
            }
            proof {
                if model {
                    lemma_set_fold_done(p0, all, parent@);
                }
            }
        }
    }
}


/// Merging hash maps, where keys hash and compare as their values do: the
/// result holds exactly the keys of both maps, whichever map is larger; a
/// key of one map only keeps its value there; a key of both holds the
/// child's value merged into the parent's.
pub proof fn lemma_hash_map_merge<K: Eq + Hash, V: Merge, S: BuildHasher>(
    parent: HashMap<K, V, S>,
    child: HashMap<K, V, S>,
    merged: HashMap<K, V, S>,
)
    requires
        obeys_key_model::<K>(),
        builds_valid_hashers::<S>(),
        Merge::merges_to(parent, child, merged),
    ensures
        forall|k: K| #[trigger]
            merged@.contains_key(k) <==> parent@.contains_key(k) || child@.contains_key(k),
        forall|k: K|
            #[trigger] parent@.contains_key(k) && !child@.contains_key(k) ==> merged@[k] == parent@[k],
        forall|k: K|
            !parent@.contains_key(k) && #[trigger] child@.contains_key(k) ==> merged@[k] == child@[k],
        forall|k: K|
            #[trigger] parent@.contains_key(k) && child@.contains_key(k) ==> V::merges_to(
                parent@[k],
                child@[k],
                merged@[k],
            ),
{
    assert forall|k: K| #[trigger]
        merged@.contains_key(k) <==> parent@.contains_key(k) || child@.contains_key(k) by {
        assert(merged@.dom().contains(k) == parent@.dom().union(child@.dom()).contains(k));
    }
    assert forall|k: K| parent@.contains_key(k) || child@.contains_key(k) implies if #[trigger] parent@.contains_key(k)
        && #[trigger] child@.contains_key(k) {
        V::merges_to(parent@[k], child@[k], merged@[k])
    } else if parent@.contains_key(k) {
        merged@[k] == parent@[k]
    } else {
        merged@[k] == child@[k]
    } by {
        assert(merged@.dom().contains(k) == parent@.dom().union(child@.dom()).contains(k));
        assert(merged@.contains_key(k));
    }
}

/// Merging ordered maps, where keys compare as their values do: the
/// result holds exactly the keys of both maps, whichever map is larger; a
/// key of one map only keeps its value there; a key of both holds the
/// child's value merged into the parent's.
pub proof fn lemma_btree_map_merge<K: Ord, V: Merge>(
    parent: BTreeMap<K, V>,
    child: BTreeMap<K, V>,
    merged: BTreeMap<K, V>,
)
    requires
        btree_model::<K>(),
        Merge::merges_to(parent, child, merged),
    ensures
        forall|k: K| #[trigger]
            merged@.contains_key(k) <==> parent@.contains_key(k) || child@.contains_key(k),
        forall|k: K|
            #[trigger] parent@.contains_key(k) && !child@.contains_key(k) ==> merged@[k] == parent@[k],
        forall|k: K|
            !parent@.contains_key(k) && #[trigger] child@.contains_key(k) ==> merged@[k] == child@[k],
        forall|k: K|
            #[trigger] parent@.contains_key(k) && child@.contains_key(k) ==> V::merges_to(
                parent@[k],
                child@[k],
                merged@[k],
            ),
{
    assert forall|k: K| #[trigger]
        merged@.contains_key(k) <==> parent@.contains_key(k) || child@.contains_key(k) by {
        assert(merged@.dom().contains(k) == parent@.dom().union(child@.dom()).contains(k));
    }
    assert forall|k: K| parent@.contains_key(k) || child@.contains_key(k) implies if #[trigger] parent@.contains_key(k)
        && #[trigger] child@.contains_key(k) {
        V::merges_to(parent@[k], child@[k], merged@[k])
    } else if parent@.contains_key(k) {
        merged@[k] == parent@[k]
    } else {
        merged@[k] == child@[k]
    } by {
        assert(merged@.dom().contains(k) == parent@.dom().union(child@.dom()).contains(k));
        assert(merged@.contains_key(k));
    }
}

/// Merging ordered maps of strings: a key of both maps holds the parent's
/// string followed by the child's.
pub proof fn lemma_btree_map_of_strings_merge<K: Ord>(
    parent: BTreeMap<K, String>,
    child: BTreeMap<K, String>,
    merged: BTreeMap<K, String>,
)
    requires
        btree_model::<K>(),
        Merge::merges_to(parent, child, merged),
    ensures
        forall|k: K|
            #[trigger] parent@.contains_key(k) && child@.contains_key(k) ==> merged@[k]@ == parent@[k]@
                + child@[k]@,
{
    lemma_btree_map_merge(parent, child, merged);
}

/// Merging hash sets, where elements hash and compare as their values do:
/// an element is in the result exactly when it is in the parent or in the
/// child, whichever set is larger.
pub proof fn lemma_hash_set_merge<T: Eq + Hash, S: BuildHasher>(
    parent: HashSet<T, S>,
    child: HashSet<T, S>,
    merged: HashSet<T, S>,
)
    requires
        obeys_key_model::<T>(),
        builds_valid_hashers::<S>(),
        Merge::merges_to(parent, child, merged),
    ensures
        forall|x: T| #[trigger] merged@.contains(x) <==> parent@.contains(x) || child@.contains(x),
        merged@.len() <= parent@.len() + child@.len() || !parent@.finite() || !child@.finite(),
{
    if parent@.finite() && child@.finite() {
        vstd::set_lib::lemma_len_union(parent@, child@);
    }
}

/// Merging ordered sets, where elements compare as their values do: an
/// element is in the result exactly when it is in the parent or in the
/// child, whichever set is larger.
pub proof fn lemma_btree_set_merge<T: Ord>(parent: BTreeSet<T>, child: BTreeSet<T>, merged: BTreeSet<T>)
    requires
        btree_model::<T>(),
        Merge::merges_to(parent, child, merged),
    ensures
        forall|x: T| #[trigger] merged@.contains(x) <==> parent@.contains(x) || child@.contains(x),
        merged@.len() <= parent@.len() + child@.len() || !parent@.finite() || !child@.finite(),
{
    if parent@.finite() && child@.finite() {
        vstd::set_lib::lemma_len_union(parent@, child@);
    }
}

} // verus!
