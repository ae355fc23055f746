use litemap::LiteMap;
use vstd::prelude::*;

use super::backing::{
    huge_entries, huge_insert, huge_len, huge_remove, huge_to_vec, huge_with_capacity,
    lite_entries, lite_from_sorted, lite_insert, lite_len, lite_remove, lite_sorted, lite_to_vec,
    lite_with_capacity, sort_by_key, HugeMap,
};
use super::entries::{keys_increasing, lemma_lists_len, lemma_lists_same, lemma_sorted_lists, lists, Entry};

verus! {

/// `Many` becomes `Huge` once it holds more than this many entries after an
/// insert.
pub const PROMOTE_AT: usize = 32;

/// `Huge` becomes `Many` once it holds fewer than this many entries after a
/// remove. The gap with `PROMOTE_AT` keeps a node that oscillates around
/// the boundary from switching representation on every operation.
pub const DEMOTE_AT: usize = 16;

/// The children of a node, keyed by node index, each mapped to the slot
/// that holds the child. The representation follows the size: nothing,
/// one inline entry, a sorted vector map, or a hash map.
pub enum ChildrenMap {
    Empty,
    Single { index: u64, handle: usize },
    Many(LiteMap<u64, usize>),
    Huge(HugeMap),
}

impl View for ChildrenMap {
    type V = Map<u64, usize>;

    open spec fn view(&self) -> Map<u64, usize> {
        match self {
            ChildrenMap::Empty => Map::empty(),
            ChildrenMap::Single { index, handle } => Map::empty().insert(*index, *handle),
            ChildrenMap::Many(m) => lite_entries(*m),
            ChildrenMap::Huge(h) => huge_entries(*h),
        }
    }
}

impl ChildrenMap {
    /// Each representation holds the number of entries it stands for, and
    /// a sorted-vector map keeps its store sorted.
    pub open spec fn wf(&self) -> bool {
        match self {
            ChildrenMap::Empty => true,
            ChildrenMap::Single { .. } => true,
            ChildrenMap::Many(m) => {
                &&& lite_sorted(*m)
                &&& lite_entries(*m).dom().finite()
                &&& 2 <= lite_entries(*m).len() <= PROMOTE_AT
            },
            ChildrenMap::Huge(h) => {
                &&& huge_entries(*h).dom().finite()
                &&& DEMOTE_AT <= huge_entries(*h).len()
            },
        }
    }

    /// A well-formed map has finitely many entries, and its variant tells
    /// whether it has none, one, or more.
    pub proof fn lemma_shape(&self)
        requires
            self.wf(),
        ensures
            self@.dom().finite(),
            (self is Empty) == (self@.len() == 0),
            (self is Single) == (self@.len() == 1),
    {
        match self {
            ChildrenMap::Empty => {
                assert(self@.dom() =~= Set::<u64>::empty());
            },
            ChildrenMap::Single { index, handle } => {
                assert(self@.dom() =~= Set::<u64>::empty().insert(*index));
            },
            _ => {},
        }
    }

    /// An empty map.
    pub fn new() -> (r: Self)
        ensures
            r.wf(),
            r@ == Map::<u64, usize>::empty(),
    {
        ChildrenMap::Empty
    }

    /// Adds a child. The index must not be present yet.
    pub fn insert(&mut self, index: u64, handle: usize)
        requires
            old(self).wf(),
            !old(self)@.contains_key(index),
        ensures
            final(self).wf(),
            final(self)@ == old(self)@.insert(index, handle),
            *old(self) is Empty ==> *final(self) is Single,
            *old(self) is Single ==> *final(self) is Many,
            *old(self) is Many ==> if final(self)@.len() > PROMOTE_AT {
                *final(self) is Huge
            } else {
                *final(self) is Many
            },
            *old(self) is Huge ==> *final(self) is Huge,
    {
        let mut this = ChildrenMap::Empty;
        std::mem::swap(self, &mut this);
        match this {
            ChildrenMap::Empty => {
                *self = ChildrenMap::Single { index, handle };
                assert(self@ =~= old(self)@.insert(index, handle));
            },
            ChildrenMap::Single { index: o_index, handle: o_handle } => {
                let mut map = lite_with_capacity(2);
                lite_insert(&mut map, o_index, o_handle);
                lite_insert(&mut map, index, handle);
                proof {
                    assert(lite_entries(map) =~= old(self)@.insert(index, handle));
                    assert(lite_entries(map).dom() =~= Set::<u64>::empty().insert(o_index).insert(
                        index,
                    ));
                }
                *self = ChildrenMap::Many(map);
            },
            ChildrenMap::Many(mut map) => {
                lite_insert(&mut map, index, handle);
                if lite_len(&map) > PROMOTE_AT {
                    let entries = lite_to_vec(&map);
                    let mut huge = huge_with_capacity(entries.len());
                    let mut i: usize = 0;
                    while i < entries.len()
                        invariant
                            i <= entries.len(),
                            lists(entries@, lite_entries(map)),
                            forall|k: u64| #[trigger]
                                huge_entries(huge).contains_key(k) <==> exists|j: int|
                                    0 <= j < i && entries@[j].0 == k,
                            forall|j: int|
                                0 <= j < i ==> #[trigger] huge_entries(huge)[entries@[j].0]
                                    == entries@[j].1,
                        decreases entries.len() - i,
                    {
                        let (k, v) = entries[i];
                        huge_insert(&mut huge, k, v);
                        i += 1;
                        proof {
                            assert forall|j: int| 0 <= j < i implies #[trigger] huge_entries(
                                huge,
                            )[entries@[j].0] == entries@[j].1 by {
                                if j < i - 1 {
                                    assert(entries@[j].0 != entries@[i - 1].0);
                                }
                            }
                            assert forall|k2: u64| #[trigger]
                                huge_entries(huge).contains_key(k2) <==> exists|j: int|
                                    0 <= j < i && entries@[j].0 == k2 by {
                                if k2 == k {
                                    assert(entries@[i - 1].0 == k2);
                                }
                            }
                        }
                    }
                    proof {
                        assert(huge_entries(huge) =~= lite_entries(map));
                        lemma_lists_len(entries@, lite_entries(map));
                    }
                    *self = ChildrenMap::Huge(huge);
                } else {
                    *self = ChildrenMap::Many(map);
                }
            },
            ChildrenMap::Huge(mut map) => {
                huge_insert(&mut map, index, handle);
                *self = ChildrenMap::Huge(map);
            },
        }
    }

    /// Removes a child, returning its slot if it was present.
    pub fn remove(&mut self, index: &u64) -> (r: Option<usize>)
        requires
            old(self).wf(),
        ensures
            final(self).wf(),
            final(self)@ == old(self)@.remove(*index),
            r == (if old(self)@.contains_key(*index) {
                Some(old(self)@[*index])
            } else {
                None::<usize>
            }),
            *old(self) is Empty ==> *final(self) is Empty,
            *old(self) is Single ==> if old(self)@.contains_key(*index) {
                *final(self) is Empty
            } else {
                *final(self) is Single
            },
            *old(self) is Many ==> if old(self)@.contains_key(*index) && final(self)@.len() == 1 {
                *final(self) is Single
            } else {
                *final(self) is Many
            },
            *old(self) is Huge ==> if old(self)@.contains_key(*index) && final(self)@.len() < DEMOTE_AT {
                *final(self) is Many
            } else {
                *final(self) is Huge
            },
    {
        let mut this = ChildrenMap::Empty;
        std::mem::swap(self, &mut this);
        match this {
            ChildrenMap::Empty => {
                assert(old(self)@.remove(*index) =~= old(self)@);
                None
            },
            ChildrenMap::Single { index: o_index, handle } => {
                if *index != o_index {
                    *self = ChildrenMap::Single { index: o_index, handle };
                    assert(old(self)@.remove(*index) =~= old(self)@);
                    None
                } else {
                    assert(old(self)@.remove(*index) =~= Map::<u64, usize>::empty());
                    Some(handle)
                }
            },
            ChildrenMap::Many(mut map) => {
                let res = lite_remove(&mut map, index);
                if res.is_some() && lite_len(&map) == 1 {
                    let entries = lite_to_vec(&map);
                    proof {
                        lemma_lists_len(entries@, lite_entries(map));
                    }
                    let (i, h) = entries[0];
                    proof {
                        assert(lite_entries(map).contains_key(i));
                        assert forall|k: u64| #[trigger] lite_entries(map).contains_key(k)
                            implies k == i by {
                            let j = choose|j: int| 0 <= j < entries@.len() && entries@[j].0 == k;
                            assert(j == 0);
                        }
                        assert(lite_entries(map) =~= Map::<u64, usize>::empty().insert(i, h));
                    }
                    *self = ChildrenMap::Single { index: i, handle: h };
                } else {
                    *self = ChildrenMap::Many(map);
                }
                res
            },
            ChildrenMap::Huge(mut map) => {
                let res = huge_remove(&mut map, index);
                if res.is_some() && huge_len(&map) < DEMOTE_AT {
                    let mut entries = huge_to_vec(&map);
                    let ghost unsorted = entries@;
                    sort_by_key(&mut entries);
                    proof {
                        lemma_sorted_lists(unsorted, entries@, huge_entries(map));
                    }
                    let ghost sorted = entries@;
                    let lite = lite_from_sorted(entries);
                    proof {
                        lemma_lists_same(sorted, lite_entries(lite), huge_entries(map));
                        lemma_lists_len(entries@, lite_entries(lite));
                    }
                    *self = ChildrenMap::Many(lite);
                } else {
                    *self = ChildrenMap::Huge(map);
                }
                res
            },
        }
    }

    /// Every entry once. A `Many` map lists them by rising index.
    pub fn entries(&self) -> (r: Vec<Entry>)
        requires
            self.wf(),
        ensures
            lists(r@, self@),
            self is Many ==> keys_increasing(r@),
    {
        match self {
            ChildrenMap::Empty => {
                let r: Vec<Entry> = Vec::new();
                assert(self@ =~= Map::<u64, usize>::empty());
                r
            },
            ChildrenMap::Single { index, handle } => {
                let mut r: Vec<Entry> = Vec::new();
                r.push((*index, *handle));
                assert(r@[0].0 == *index);
                r
            },
            ChildrenMap::Many(m) => lite_to_vec(m),
            ChildrenMap::Huge(h) => huge_to_vec(h),
        }
    }
}

} // verus!
