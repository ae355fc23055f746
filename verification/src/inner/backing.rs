//! The outside collections behind a children map, and what this crate
//! takes on trust about them.
use litemap::LiteMap;
use rustc_hash::FxBuildHasher;
use vstd::prelude::*;

use super::entries::{keys_increasing, lists, Entry};

verus! {

#[verifier::external_type_specification]
#[verifier::external_body]
#[verifier::reject_recursive_types(K)]
#[verifier::reject_recursive_types(V)]
#[verifier::reject_recursive_types(S)]
pub struct ExLiteMap<K: ?Sized, V: ?Sized, S>(LiteMap<K, V, S>);

/// The entries that a `LiteMap` holds.
pub uninterp spec fn lite_entries(m: LiteMap<u64, usize>) -> Map<u64, usize>;

/// Whether the store of a `LiteMap` holds its keys strictly rising, as
/// litemap's own constructors and methods keep it. litemap's lookups,
/// inserts and removals are binary searches that rely on this; a store
/// built otherwise through `from_sorted_store_unchecked` may not have it.
pub uninterp spec fn lite_sorted(m: LiteMap<u64, usize>) -> bool;

/// `LiteMap::with_capacity`: a map with an empty, and so sorted, store.
#[verifier::external_body]
pub(crate) fn lite_with_capacity(capacity: usize) -> (r: LiteMap<u64, usize>)
    ensures
        lite_sorted(r),
        lite_entries(r).dom() == Set::<u64>::empty(),
{
    LiteMap::with_capacity(capacity)
}

/// `LiteMap::insert` on a sorted store: the key maps to the value
/// afterwards, the store stays sorted, and the value the key had before,
/// if any, is returned.
#[verifier::external_body]
pub(crate) fn lite_insert(m: &mut LiteMap<u64, usize>, key: u64, value: usize) -> (r: Option<usize>)
    requires
        lite_sorted(*old(m)),
    ensures
        lite_sorted(*final(m)),
        lite_entries(*final(m)) == lite_entries(*old(m)).insert(key, value),
        r == (if lite_entries(*old(m)).contains_key(key) {
            Some(lite_entries(*old(m))[key])
        } else {
            None::<usize>
        }),
{
    m.insert(key, value)
}

/// `LiteMap::remove` on a sorted store: the key is gone afterwards, the
/// store stays sorted, and the key's value, if any, is returned.
#[verifier::external_body]
pub(crate) fn lite_remove(m: &mut LiteMap<u64, usize>, key: &u64) -> (r: Option<usize>)
    requires
        lite_sorted(*old(m)),
    ensures
        lite_sorted(*final(m)),
        lite_entries(*final(m)) == lite_entries(*old(m)).remove(*key),
        r == (if lite_entries(*old(m)).contains_key(*key) {
            Some(lite_entries(*old(m))[*key])
        } else {
            None::<usize>
        }),
{
    m.remove(key)
}

/// `LiteMap::len` on a sorted store: the number of entries.
#[verifier::external_body]
pub(crate) fn lite_len(m: &LiteMap<u64, usize>) -> (count: usize)
    requires
        lite_sorted(*m),
    ensures
        count == lite_entries(*m).len(),
{
    m.len()
}

/// `LiteMap::as_slice`, copied out, on a sorted store: the entries, keys
/// rising.
#[verifier::external_body]
pub(crate) fn lite_to_vec(m: &LiteMap<u64, usize>) -> (v: Vec<Entry>)
    requires
        lite_sorted(*m),
    ensures
        lists(v@, lite_entries(*m)),
        keys_increasing(v@),
{
    m.as_slice().to_vec()
}

/// `LiteMap::from_sorted_store_unchecked`: a map over a store whose keys
/// rise strictly, holding exactly the store's entries.
#[verifier::external_body]
pub(crate) fn lite_from_sorted(v: Vec<Entry>) -> (r: LiteMap<u64, usize>)
    requires
        keys_increasing(v@),
    ensures
        lite_sorted(r),
        lists(v@, lite_entries(r)),
{
    LiteMap::from_sorted_store_unchecked(v)
}

/// A `hashbrown::HashMap` with the `rustc_hash` hasher. Only the functions
/// below reach into it.
#[verifier::external_body]
pub struct HugeMap {
    map: hashbrown::HashMap<u64, usize, FxBuildHasher>,
}

/// The entries that a `HugeMap` holds.
pub uninterp spec fn huge_entries(m: HugeMap) -> Map<u64, usize>;

/// `hashbrown::HashMap::with_capacity_and_hasher`: a map with no entries.
#[verifier::external_body]
pub(crate) fn huge_with_capacity(capacity: usize) -> (r: HugeMap)
    ensures
        huge_entries(r).dom() == Set::<u64>::empty(),
{
    HugeMap { map: hashbrown::HashMap::with_capacity_and_hasher(capacity, FxBuildHasher) }
}

/// `hashbrown::HashMap::insert`: the key maps to the value afterwards, and
/// the value it had before, if any, is returned.
#[verifier::external_body]
pub(crate) fn huge_insert(m: &mut HugeMap, key: u64, value: usize) -> (r: Option<usize>)
    ensures
        huge_entries(*final(m)) == huge_entries(*old(m)).insert(key, value),
        r == (if huge_entries(*old(m)).contains_key(key) {
            Some(huge_entries(*old(m))[key])
        } else {
            None::<usize>
        }),
{
    m.map.insert(key, value)
}

/// `hashbrown::HashMap::remove`: the key is gone afterwards, and its value,
/// if any, is returned.
#[verifier::external_body]
pub(crate) fn huge_remove(m: &mut HugeMap, key: &u64) -> (r: Option<usize>)
    ensures
        huge_entries(*final(m)) == huge_entries(*old(m)).remove(*key),
        r == (if huge_entries(*old(m)).contains_key(*key) {
            Some(huge_entries(*old(m))[*key])
        } else {
            None::<usize>
        }),
{
    m.map.remove(key)
}

/// `hashbrown::HashMap::len`: the number of entries.
#[verifier::external_body]
pub(crate) fn huge_len(m: &HugeMap) -> (count: usize)
    ensures
        count == huge_entries(*m).len(),
{
    m.map.len()
}

/// `hashbrown::HashMap::iter`, copied out: every entry once. The order is
/// the table's walk order, of which nothing is stated.
#[verifier::external_body]
pub(crate) fn huge_to_vec(m: &HugeMap) -> (v: Vec<Entry>)
    ensures
        lists(v@, huge_entries(*m)),
{
    m.map.iter().map(|(k, v)| (*k, *v)).collect()
}

/// `slice::sort_unstable_by_key` on the entries' keys: a permutation of
/// the entries whose keys do not fall from left to right.
#[verifier::external_body]
pub(crate) fn sort_by_key(v: &mut Vec<Entry>)
    ensures
        final(v)@.to_multiset() == old(v)@.to_multiset(),
        forall|i: int, j: int|
            0 <= i < j < final(v)@.len() ==> #[trigger] final(v)@[i].0 <= #[trigger] final(v)@[j].0,
{
    v.sort_unstable_by_key(|e| e.0)
}

} // verus!
