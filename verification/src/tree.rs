use vstd::prelude::*;

use crate::data::NodeData;
use crate::inner::common::Common;
use crate::inner::entries::{lemma_lists_len, lists, Entry};
use crate::inner::map::ChildrenMap;
use crate::inner::multiplicity::Multiplicity;
use crate::inner::NodeInner;
use crate::merge::{Merge, MergeInv};

verus! {

/// A tree of nodes held in slots, addressed by slot number.
///
/// A node is alive while a handle refers to it. Dropping a handle marks
/// the node dead; a dead node with at most one child leaves the tree: a
/// leaf is discarded, and a node with one child is folded into that child
/// with [`MergeInv::merge_inv`]. Freed slots are reused.
pub struct Tree<T> {
    slots: Vec<Option<NodeInner<T>>>,
    free: Vec<usize>,
    common: Common,
}

impl<T: NodeData> Tree<T> {
    /// Slot `s` holds a node of the tree.
    pub closed spec fn present(&self, s: usize) -> bool {
        s < self.slots@.len() && self.slots@[s as int] is Some
    }

    /// The node in slot `s`.
    pub closed spec fn node(&self, s: usize) -> NodeInner<T> {
        self.slots@[s as int]->0
    }

    /// The slot of the parent of the node in slot `s`.
    pub open spec fn parent_of(&self, s: usize) -> Option<usize> {
        self.node(s).parent
    }

    /// The children of the node in slot `s`: child index to child slot.
    pub open spec fn children_of(&self, s: usize) -> Map<u64, usize> {
        self.node(s).children@
    }

    /// Whether a handle still refers to the node in slot `s`.
    pub open spec fn alive(&self, s: usize) -> bool {
        self.node(s).alive
    }

    /// The index of the node in slot `s`.
    pub open spec fn index_of(&self, s: usize) -> u64 {
        self.node(s).index
    }

    /// The data of the node in slot `s`.
    pub open spec fn data_of(&self, s: usize) -> T {
        self.node(s).data
    }

    /// The index that the next new node gets.
    pub closed spec fn next_index(&self) -> u64 {
        self.common.next()
    }

    /// Parents and children agree, indices are unique and fall towards the
    /// root, there is at most one root, and the free slots are empty.
    pub closed spec fn links_ok(&self) -> bool {
        &&& forall|s: usize| #[trigger] self.present(s) ==> self.node(s).children.wf()
        &&& forall|s: usize| #[trigger] self.present(s) && self.parent_of(s) is Some ==> {
            let p = self.parent_of(s)->0;
            &&& self.present(p)
            &&& self.children_of(p).contains_key(self.index_of(s))
            &&& self.children_of(p)[self.index_of(s)] == s
            &&& self.index_of(p) < self.index_of(s)
        }
        &&& forall|s: usize, k: u64| #[trigger] self.children_of(s).contains_key(k) && self.present(s)
            ==> {
            let c = self.children_of(s)[k];
            &&& self.present(c)
            &&& self.parent_of(c) == Some(s)
            &&& self.index_of(c) == k
        }
        &&& forall|s: usize, t: usize|
            #![trigger self.present(s), self.present(t)]
            self.present(s) && self.present(t) && self.index_of(s) == self.index_of(t) ==> s == t
        &&& forall|s: usize| #[trigger] self.present(s) ==> self.index_of(s) < self.next_index()
        &&& forall|s: usize, t: usize|
            #![trigger self.present(s), self.present(t)]
            self.present(s) && self.present(t) && self.parent_of(s) is None && self.parent_of(t) is None
                ==> s == t
        &&& self.free_ok()
    }

    /// The free list names empty slots, each once.
    pub closed spec fn free_ok(&self) -> bool {
        &&& self.free@.no_duplicates()
        &&& forall|j: int|
            #![trigger self.free@[j]]
            0 <= j < self.free@.len() ==> self.free@[j] < self.slots@.len() && !self.present(
                self.free@[j],
            )
    }

    /// Outside the slots in `ex`, `self` and `other` hold the same nodes.
    pub open spec fn same_except(&self, other: Self, ex: Set<usize>) -> bool {
        forall|t: usize|
            #![trigger self.present(t)]
            #![trigger other.present(t)]
            !ex.contains(t) ==> {
                &&& self.present(t) == other.present(t)
                &&& self.present(t) ==> self.node(t) == other.node(t)
            }
    }

    /// Every dead node but `x` has at least two children.
    pub closed spec fn compact_except(&self, x: Option<usize>) -> bool {
        forall|s: usize| #[trigger] self.present(s) && !self.alive(s) && Some(s) != x
            ==> self.children_of(s).len() >= 2
    }

    /// The tree is well formed and no dead node is left with fewer than two
    /// children.
    pub closed spec fn wf(&self) -> bool {
        &&& self.links_ok()
        &&& self.compact_except(None)
    }

    /// Takes the node out of slot `s`, leaving the slot empty.
    fn take_node(&mut self, s: usize) -> (r: NodeInner<T>)
        requires
            old(self).present(s),
        ensures
            r == old(self).node(s),
            final(self).slots@ == old(self).slots@.update(s as int, None),
            final(self).free == old(self).free,
            final(self).common == old(self).common,
    {
        let mut tmp: Option<NodeInner<T>> = None;
        self.slots.set_and_swap(s, &mut tmp);
        tmp.unwrap()
    }

    /// Puts a new node into a free slot, or a slot added at the end.
    fn alloc_slot(&mut self, n: NodeInner<T>) -> (s: usize)
        requires
            old(self).free_ok(),
        ensures
            !old(self).present(s),
            final(self).present(s),
            final(self).node(s) == n,
            final(self).same_except(*old(self), set![s]),
            final(self).free_ok(),
            final(self).common == old(self).common,
    {
        match self.free.pop() {
            Some(s) => {
                proof {
                    let last = old(self).free@.len() - 1;
                    assert(old(self).free@[last] == s);
                    assert(!old(self).present(old(self).free@[last]));
                }
                self.put_node(s, n);
                proof {
                    assert(self.free@ =~= old(self).free@.drop_last());
                    assert(self.free@.no_duplicates()) by {
                        assert forall|i: int, j: int|
                            0 <= i < self.free@.len() && 0 <= j < self.free@.len() && i != j
                            implies self.free@[i] != self.free@[j] by {
                            assert(old(self).free@[i] != old(self).free@[j]);
                        }
                    }
                    assert forall|j: int| 0 <= j < self.free@.len() implies self.free@[j]
                        < self.slots@.len() && !self.present(self.free@[j]) by {
                        assert(old(self).free@[j] == self.free@[j]);
                        assert(!old(self).present(old(self).free@[j]));
                        assert(old(self).free@[j] != old(self).free@[old(self).free@.len() - 1]);
                    }

                }
                s
            },
            None => {
                let s = self.slots.len();
                self.slots.push(Some(n));
                proof {
                    assert forall|j: int| 0 <= j < self.free@.len() implies self.free@[j]
                        < self.slots@.len() && !self.present(self.free@[j]) by {
                        assert(!old(self).present(old(self).free@[j]));
                    }
                }
                s
            },
        }
    }

    /// Adding a fresh leaf under a present node keeps the tree well formed.
    proof fn lemma_fork_wf(pre: Self, post: Self, parent: usize, child: usize)
        requires
            pre.wf(),
            pre.present(parent),
            !pre.present(child),
            post.same_except(pre, set![parent, child]),
            post.free_ok(),
            post.next_index() == pre.next_index() + 1,
            post.present(parent),
            post.node(parent).children.wf(),
            post.parent_of(parent) == pre.parent_of(parent),
            post.alive(parent) == pre.alive(parent),
            post.index_of(parent) == pre.index_of(parent),
            post.children_of(parent) == pre.children_of(parent).insert(pre.next_index(), child),
            post.present(child),
            post.node(child).children.wf(),
            post.children_of(child).dom().is_empty(),
            post.parent_of(child) == Some(parent),
            post.alive(child),
            post.index_of(child) == pre.next_index(),
        ensures
            post.wf(),
    {
        let index = pre.next_index();
        assert(!pre.children_of(parent).contains_key(index)) by {
            if pre.children_of(parent).contains_key(index) {
                assert(pre.present(pre.children_of(parent)[index]));
            }
        }
        assert forall|x: usize| #[trigger] post.present(x) implies post.node(x).children.wf() by {
            if x != parent && x != child {
                assert(pre.present(x));
            }
        }
        assert forall|x: usize| #[trigger] post.present(x) && post.parent_of(x) is Some implies {
            let q = post.parent_of(x)->0;
            &&& post.present(q)
            &&& post.children_of(q).contains_key(post.index_of(x))
            &&& post.children_of(q)[post.index_of(x)] == x
            &&& post.index_of(q) < post.index_of(x)
        } by {
            if x != child {
                if x != parent {
                    assert(pre.present(x));
                }
                let q = pre.parent_of(x)->0;
                assert(pre.present(q));
                assert(pre.index_of(x) < pre.next_index());
                if q != parent {
                    assert(q != child);
                    assert(post.present(q));
                }
            } else {
                assert(pre.index_of(parent) < pre.next_index());
            }
        }
        assert forall|x: usize, k: u64| #[trigger] post.children_of(x).contains_key(k) && post.present(x)
            implies {
            let c = post.children_of(x)[k];
            &&& post.present(c)
            &&& post.parent_of(c) == Some(x)
            &&& post.index_of(c) == k
        } by {
            if x == parent && k == index {
            } else {
                if x == child {
                    assert(post.children_of(child).dom().contains(k));
                }
                if x != parent {
                    assert(pre.present(x));
                }
                assert(pre.children_of(x).contains_key(k));
                let c = pre.children_of(x)[k];
                assert(pre.present(c));
                assert(c != child);
                if c != parent {
                    assert(post.present(c));
                }
            }
        }
        assert forall|x: usize, y: usize|
            #![trigger post.present(x), post.present(y)]
            post.present(x) && post.present(y) && post.index_of(x) == post.index_of(y)
            implies x == y by {
            if x != child {
                if x != parent {
                    assert(pre.present(x));
                }
                assert(pre.index_of(x) < pre.next_index());
            }
            if y != child {
                if y != parent {
                    assert(pre.present(y));
                }
                assert(pre.index_of(y) < pre.next_index());
            }
            if x != child && y != child {
                assert(pre.present(x) && pre.present(y));
            }
        }
        assert forall|x: usize| #[trigger] post.present(x) implies post.index_of(x) < post.next_index() by {
            if x != child && x != parent {
                assert(pre.present(x));
            }
        }
        assert forall|x: usize, y: usize|
            #![trigger post.present(x), post.present(y)]
            post.present(x) && post.present(y) && post.parent_of(x) is None
                && post.parent_of(y) is None implies x == y by {
            if x != parent && x != child {
                assert(pre.present(x));
            }
            if y != parent && y != child {
                assert(pre.present(y));
            }
        }
        assert forall|x: usize| #[trigger] post.present(x) && !post.alive(x) && Some(x) != None::<usize>
            implies post.children_of(x).len() >= 2 by {
            if x != parent {
                assert(pre.present(x));
            } else {
                assert(pre.children_of(parent).dom().finite());
            }
        }
    }

    /// Puts a node into slot `s`.
    fn put_node(&mut self, s: usize, n: NodeInner<T>)
        requires
            s < old(self).slots@.len(),
        ensures
            final(self).slots@ == old(self).slots@.update(s as int, Some(n)),
            final(self).free == old(self).free,
            final(self).common == old(self).common,
    {
        self.slots.set(s, Some(n));
    }

    /// A tree holding one node, its root, in the returned slot.
    pub fn root(data: T) -> (r: (Self, usize))
        ensures
            r.0.wf(),
            r.0.present(r.1),
            forall|s: usize| r.0.present(s) ==> s == r.1,
            r.0.parent_of(r.1) is None,
            r.0.children_of(r.1).dom().is_empty(),
            r.0.alive(r.1),
            r.0.data_of(r.1) == data,
            r.0.index_of(r.1) == 0,
            r.0.next_index() == 1,
    {
        let mut common = Common::new();
        let node = NodeInner::root(&mut common, data);
        let mut slots: Vec<Option<NodeInner<T>>> = Vec::new();
        slots.push(Some(node));
        let tree = Tree { slots, free: Vec::new(), common };
        proof {
            assert(tree.present(0));
            assert(tree.children_of(0) =~= Map::<u64, usize>::empty());
        }
        (tree, 0)
    }

    /// `post` is `pre` with a new live leaf in slot `child`, holding `data`,
    /// under the node in slot `parent`, with the next index.
    pub open spec fn forked(pre: Self, post: Self, parent: usize, child: usize, data: T) -> bool {
        &&& !pre.present(child)
        &&& post.present(child)
        &&& post.parent_of(child) == Some(parent)
        &&& post.children_of(child).dom().is_empty()
        &&& post.alive(child)
        &&& post.data_of(child) == data
        &&& post.index_of(child) == pre.next_index()
        &&& post.next_index() == pre.next_index() + 1
        &&& post.children_of(parent) == pre.children_of(parent).insert(pre.next_index(), child)
        &&& Self::same_but_children(pre, post, parent)
        &&& post.same_except(pre, set![parent, child])
    }

    /// Adds a live child with `data` under the node in slot `parent`, and
    /// returns the child's slot.
    pub fn fork(&mut self, parent: usize, data: T) -> (child: usize)
        requires
            old(self).wf(),
            old(self).present(parent),
            old(self).next_index() < u64::MAX,
        ensures
            final(self).wf(),
            Self::forked(*old(self), *final(self), parent, child, data),
    {
        let node = NodeInner::child(parent, &mut self.common, data);
        let index = node.index;
        proof {
            assert(!old(self).children_of(parent).contains_key(index)) by {
                if old(self).children_of(parent).contains_key(index) {
                    let c = old(self).children_of(parent)[index];
                    assert(old(self).present(c));
                }
            }
            assert(old(self).node(parent).children.wf());
        }
        let child = self.alloc_slot(node);
        proof {
            assert(self.present(parent) == old(self).present(parent));
            assert(self.node(parent) == old(self).node(parent));
        }
        let ghost mid = *self;
        let mut p = self.take_node(parent);
        p.insert_child(index, child);
        self.put_node(parent, p);
        proof {
            assert forall|t: usize| !set![parent, child].contains(t) implies {
                &&& #[trigger] self.present(t) == old(self).present(t)
                &&& self.present(t) ==> self.node(t) == old(self).node(t)
            } by {
                assert(mid.present(t) == old(self).present(t));
                if t < self.slots@.len() {
                    assert(self.slots@[t as int] == mid.slots@[t as int]);
                }
            }
            assert(self.same_except(*old(self), set![parent, child]));
            assert(self.free_ok()) by {
                assert forall|j: int| #![trigger self.free@[j]] 0 <= j < self.free@.len()
                    implies self.free@[j] < self.slots@.len() && !self.present(self.free@[j]) by {
                    assert(!mid.present(mid.free@[j]));
                }
            }
            assert(self.children_of(child).dom() =~= Set::<u64>::empty());
            Self::lemma_fork_wf(*old(self), *self, parent, child);
        }
        child
    }

    /// How many more nodes the tree can create: each gets an index of its
    /// own.
    pub fn indices_left(&self) -> (r: u64)
        ensures
            r == u64::MAX - self.next_index(),
    {
        self.common.indices_left()
    }

    /// Whether slot `s` holds a node of the tree.
    pub fn contains(&self, s: usize) -> (r: bool)
        ensures
            r == self.present(s),
    {
        s < self.slots.len() && self.slots[s].is_some()
    }

    /// Whether a handle still refers to the node in slot `s`.
    pub fn is_alive(&self, s: usize) -> (r: bool)
        requires
            self.present(s),
        ensures
            r == self.alive(s),
    {
        self.slots[s].as_ref().unwrap().alive
    }

    /// The data of the node in slot `s`.
    pub fn data(&self, s: usize) -> (r: &T)
        requires
            self.present(s),
        ensures
            *r == self.data_of(s),
    {
        &self.slots[s].as_ref().unwrap().data
    }

    /// The slot of the parent of the node in slot `s`, if it has one.
    pub fn parent(&self, s: usize) -> (r: Option<usize>)
        requires
            self.present(s),
        ensures
            r == self.parent_of(s),
    {
        self.slots[s].as_ref().unwrap().parent
    }

    /// Mutable access to the data of the node in slot `s`. Nothing else in
    /// the tree changes.
    pub fn data_mut(&mut self, s: usize) -> (r: &mut T)
        requires
            old(self).wf(),
            old(self).present(s),
        ensures
            *r == old(self).data_of(s),
            final(self).wf(),
            final(self).present(s),
            final(self).data_of(s) == *final(r),
            final(self).parent_of(s) == old(self).parent_of(s),
            final(self).children_of(s) == old(self).children_of(s),
            final(self).alive(s) == old(self).alive(s),
            final(self).index_of(s) == old(self).index_of(s),
            final(self).next_index() == old(self).next_index(),
            final(self).same_except(*old(self), set![s]),
    {
        proof {
            Self::lemma_data_change_keeps_wf(*old(self), s);
        }
        let slot = &mut self.slots[s];
        let n = slot.as_mut().unwrap();
        &mut n.data
    }

    /// `self` differs from `pre` only in the data of the node in slot `s`.
    closed spec fn only_data_differs(&self, pre: Self, s: usize) -> bool {
        &&& self.free == pre.free
        &&& self.common == pre.common
        &&& self.slots@.len() == pre.slots@.len()
        &&& forall|t: int| 0 <= t < pre.slots@.len() && t != s ==> self.slots@[t] == pre.slots@[t]
        &&& self.slots@[s as int] is Some
        &&& self.node(s).parent == pre.node(s).parent
        &&& self.node(s).children == pre.node(s).children
        &&& self.node(s).alive == pre.node(s).alive
        &&& self.node(s).index == pre.node(s).index
    }

    /// A tree that differs from a well-formed one only in the data of one
    /// node is well formed.
    proof fn lemma_data_change_keeps_wf(pre: Self, s: usize)
        requires
            pre.wf(),
            pre.present(s),
        ensures
            forall|post: Self|
                #![trigger post.wf()]
                post.only_data_differs(pre, s) ==> post.wf(),
    {
        assert forall|post: Self|
            post.only_data_differs(pre, s) implies post.wf() by {
            assert forall|t: usize| #[trigger] post.present(t) == pre.present(t) by {
                if t < pre.slots@.len() && t != s {
                    assert(post.slots@[t as int] == pre.slots@[t as int]);
                }
            }
            assert forall|t: usize| #[trigger] post.present(t) implies post.parent_of(t)
                == pre.parent_of(t) && post.children_of(t) == pre.children_of(t)
                && post.node(t).children == pre.node(t).children
                && post.alive(t) == pre.alive(t) && post.index_of(t) == pre.index_of(t) by {
                if t != s {
                    assert(post.slots@[t as int] == pre.slots@[t as int]);
                }
            }
        }
    }

    /// The slots from `s` up to the root: `s` first, each next one the
    /// parent of the one before, the root last.
    pub closed spec fn path(&self, s: usize) -> Seq<usize>
        decreases self.index_of(s),
        when self.present(s) && (self.parent_of(s) is Some ==> self.index_of(self.parent_of(s)->0)
            < self.index_of(s))
    {
        match self.parent_of(s) {
            None => seq![s],
            Some(p) => seq![s] + self.path(p),
        }
    }

    /// In a well-formed tree, the path from a node starts at the node,
    /// steps from each node to its parent, and ends at the root.
    pub proof fn lemma_path(&self, s: usize)
        requires
            self.wf(),
            self.present(s),
        ensures
            self.path(s).len() >= 1,
            self.path(s)[0] == s,
            self.parent_of(s) matches Some(p) ==> self.present(p) && self.index_of(p)
                < self.index_of(s),
            self.path(s) == (match self.parent_of(s) {
                None => seq![s],
                Some(p) => seq![s] + self.path(p),
            }),
            forall|i: int| 0 <= i < self.path(s).len() ==> #[trigger] self.present(self.path(s)[i]),
            forall|i: int|
                0 <= i < self.path(s).len() - 1 ==> #[trigger] self.parent_of(self.path(s)[i])
                    == Some(self.path(s)[i + 1]),
            self.parent_of(self.path(s).last()) is None,
        decreases self.index_of(s),
    {
        match self.parent_of(s) {
            None => {},
            Some(p) => {
                self.lemma_path(p);
                let ps = self.path(p);
                assert(self.path(s) == seq![s] + ps);
                assert forall|i: int| 0 <= i < self.path(s).len() implies #[trigger] self.present(
                    self.path(s)[i],
                ) by {
                    if i > 0 {
                        assert(self.path(s)[i] == ps[i - 1]);
                    }
                }
                assert forall|i: int| 0 <= i < self.path(s).len() - 1 implies #[trigger] self.parent_of(
                    self.path(s)[i],
                ) == Some(self.path(s)[i + 1]) by {
                    if i > 0 {
                        assert(self.path(s)[i] == ps[i - 1]);
                        assert(self.path(s)[i + 1] == ps[i]);
                    }
                }
                assert(self.path(s).last() == ps.last());
            },
        }
    }

    /// The node in slot `x` is the same in `pre` and `post` but for its
    /// children.
    pub open spec fn same_but_children(pre: Self, post: Self, x: usize) -> bool {
        &&& post.present(x)
        &&& post.parent_of(x) == pre.parent_of(x)
        &&& post.alive(x) == pre.alive(x)
        &&& post.index_of(x) == pre.index_of(x)
        &&& post.data_of(x) == pre.data_of(x)
    }

    /// `post` is `pre` with the node in slot `x` marked dead.
    pub open spec fn marked_dead(pre: Self, post: Self, x: usize) -> bool {
        &&& post.same_except(pre, set![x])
        &&& post.present(x)
        &&& post.parent_of(x) == pre.parent_of(x)
        &&& post.children_of(x) == pre.children_of(x)
        &&& post.index_of(x) == pre.index_of(x)
        &&& post.data_of(x) == pre.data_of(x)
        &&& !post.alive(x)
        &&& post.next_index() == pre.next_index()
    }

    /// `post` is `pre` with the leaf in slot `x` taken out of the tree.
    pub open spec fn leaf_removed(pre: Self, post: Self, x: usize) -> bool {
        &&& !post.present(x)
        &&& post.next_index() == pre.next_index()
        &&& match pre.parent_of(x) {
            None => post.same_except(pre, set![x]),
            Some(p) => {
                &&& post.same_except(pre, set![x, p])
                &&& Self::same_but_children(pre, post, p)
                &&& post.children_of(p) == pre.children_of(p).remove(pre.index_of(x))
            },
        }
    }

    /// The slot of the only child of the node in slot `x`.
    pub open spec fn only_child(&self, x: usize) -> usize {
        only_entry(self.children_of(x))
    }

    /// The slot of the other child of the parent of the node in slot `s`,
    /// where that parent has two children.
    pub open spec fn sibling(&self, s: usize) -> usize {
        only_entry(self.children_of(self.parent_of(s)->0).remove(self.index_of(s)))
    }

    /// `post` is `pre` with the leaf in slot `s` taken out and its dead
    /// parent, left with one child, folded into that child: the child takes
    /// the parent's place under the grandparent, and its data becomes what
    /// merging its old data into the parent's data leaves.
    pub open spec fn cascaded(pre: Self, post: Self, s: usize) -> bool {
        let p = pre.parent_of(s)->0;
        let c = pre.sibling(s);
        &&& !post.present(s)
        &&& !post.present(p)
        &&& post.present(c)
        &&& post.parent_of(c) == pre.parent_of(p)
        &&& post.children_of(c) == pre.children_of(c)
        &&& post.alive(c) == pre.alive(c)
        &&& post.index_of(c) == pre.index_of(c)
        &&& T::merges_to(pre.data_of(p), pre.data_of(c), post.data_of(c))
        &&& post.next_index() == pre.next_index()
        &&& match pre.parent_of(p) {
            None => post.same_except(pre, set![s, p, c]),
            Some(q) => {
                &&& post.same_except(pre, set![s, p, c, q])
                &&& Self::same_but_children(pre, post, q)
                &&& post.children_of(q) == pre.children_of(q).remove(pre.index_of(p)).insert(
                    pre.index_of(c),
                    c,
                )
            },
        }
    }

    /// `post` is `pre` with the node in slot `x`, which has one child,
    /// folded into that child: the child takes the node's place under the
    /// node's parent, and its data becomes what merging its old data into
    /// the node's data leaves.
    pub open spec fn collapsed(pre: Self, post: Self, x: usize) -> bool {
        let c = pre.only_child(x);
        &&& !post.present(x)
        &&& post.present(c)
        &&& post.parent_of(c) == pre.parent_of(x)
        &&& post.children_of(c) == pre.children_of(c)
        &&& post.alive(c) == pre.alive(c)
        &&& post.index_of(c) == pre.index_of(c)
        &&& T::merges_to(pre.data_of(x), pre.data_of(c), post.data_of(c))
        &&& post.next_index() == pre.next_index()
        &&& match pre.parent_of(x) {
            None => post.same_except(pre, set![x, c]),
            Some(p) => {
                &&& post.same_except(pre, set![x, c, p])
                &&& Self::same_but_children(pre, post, p)
                &&& post.children_of(p) == pre.children_of(p).remove(pre.index_of(x)).insert(
                    pre.index_of(c),
                    c,
                )
            },
        }
    }

    /// Takes the leaf in slot `x` out of the tree and frees its slot.
    fn remove_leaf(&mut self, x: usize)
        requires
            old(self).links_ok(),
            old(self).present(x),
            old(self).children_of(x).dom().is_empty(),
        ensures
            final(self).links_ok(),
            Self::leaf_removed(*old(self), *final(self), x),
            old(self).compact_except(None) ==> final(self).compact_except(old(self).parent_of(x)),
    {
        let node = self.take_node(x);
        let ghost mid = *self;
        match node.parent {
            Some(p) => {
                proof {
                    assert(self.present(p) && self.node(p) == old(self).node(p));
                }
                let mut pn = self.take_node(p);
                pn.children.remove(&node.index);
                self.put_node(p, pn);
            },
            None => {},
        }
        proof {
            assert(!old(self).free@.contains(x)) by {
                if old(self).free@.contains(x) {
                    let j = choose|j: int| 0 <= j < old(self).free@.len() && old(self).free@[j] == x;
                    assert(!old(self).present(old(self).free@[j]));
                }
            }
        }
        self.free.push(x);
        proof {
            Self::lemma_remove_leaf(*old(self), *self, x);
        }
    }

    /// Taking a leaf out keeps the links right, and leaves at most its
    /// parent short of children.
    proof fn lemma_remove_leaf(pre: Self, post: Self, x: usize)
        requires
            pre.links_ok(),
            pre.present(x),
            pre.children_of(x).dom().is_empty(),
            post.common == pre.common,
            post.free@ == pre.free@.push(x),
            post.slots@.len() == pre.slots@.len(),
            post.slots@[x as int] is None,
            forall|t: int|
                0 <= t < pre.slots@.len() && t != x && Some(t as usize) != pre.parent_of(x)
                    ==> post.slots@[t] == pre.slots@[t],
            pre.parent_of(x) matches Some(p) ==> post.slots@[p as int] matches Some(n) && n.parent
                == pre.node(p).parent && n.alive == pre.node(p).alive && n.index
                == pre.node(p).index && n.data == pre.node(p).data && n.children.wf()
                && n.children@ == pre.node(p).children@.remove(pre.index_of(x)),
        ensures
            post.links_ok(),
            Self::leaf_removed(pre, post, x),
            pre.compact_except(None) ==> post.compact_except(pre.parent_of(x)),
    {
        let px = pre.parent_of(x);
        assert forall|t: usize| t != x implies #[trigger] post.present(t) == pre.present(t) by {
            if t < pre.slots@.len() && Some(t) != px {
                assert(post.slots@[t as int] == pre.slots@[t as int]);
            }
        }
        assert forall|t: usize| #[trigger] post.present(t) && Some(t) != px implies post.node(t)
            == pre.node(t) by {
            assert(post.slots@[t as int] == pre.slots@[t as int]);
        }
        assert forall|t: usize| #[trigger] post.present(t) implies post.parent_of(t)
            == pre.parent_of(t) && post.alive(t) == pre.alive(t) && post.index_of(t)
            == pre.index_of(t) && post.data_of(t) == pre.data_of(t) && post.node(t).children.wf()
            && pre.present(t) && t != x by {
            if Some(t) != px {
                assert(post.node(t) == pre.node(t));
            }
        }
        assert forall|t: usize| #[trigger] post.present(t) && Some(t) != px implies post.children_of(t)
            == pre.children_of(t) by {
            assert(post.node(t) == pre.node(t));
        }
        assert forall|t: usize| #[trigger] post.present(t) && post.parent_of(t) is Some implies {
            let q = post.parent_of(t)->0;
            &&& post.present(q)
            &&& post.children_of(q).contains_key(post.index_of(t))
            &&& post.children_of(q)[post.index_of(t)] == t
            &&& post.index_of(q) < post.index_of(t)
        } by {
            let q = pre.parent_of(t)->0;
            assert(pre.present(q));
            assert(pre.children_of(q).contains_key(pre.index_of(t)));
            if q == x {
                assert(pre.children_of(x).dom().contains(pre.index_of(t)));
            }
            assert(post.present(q));
            if Some(q) == px {
                assert(pre.index_of(t) != pre.index_of(x));
            } else {
                assert(post.children_of(q) == pre.children_of(q));
            }
        }
        assert forall|t: usize, k: u64| #[trigger] post.children_of(t).contains_key(k) && post.present(t)
            implies {
            let c = post.children_of(t)[k];
            &&& post.present(c)
            &&& post.parent_of(c) == Some(t)
            &&& post.index_of(c) == k
        } by {
            if Some(t) != px {
                assert(post.children_of(t) == pre.children_of(t));
            }
            assert(pre.children_of(t).contains_key(k));
            let c = pre.children_of(t)[k];
            assert(post.children_of(t)[k] == c);
            assert(pre.present(c));
            assert(pre.parent_of(c) == Some(t));
            if c == x {
                assert(Some(t) == px);
                assert(k == pre.index_of(x));
            }
            assert(post.present(c));
        }
        assert forall|s1: usize, s2: usize|
            #![trigger post.present(s1), post.present(s2)]
            post.present(s1) && post.present(s2) && post.index_of(s1) == post.index_of(s2)
            implies s1 == s2 by {
            assert(pre.present(s1) && pre.present(s2));
        }
        assert forall|s1: usize| #[trigger] post.present(s1) implies post.index_of(s1)
            < post.next_index() by {
            assert(pre.present(s1));
        }
        assert forall|s1: usize, s2: usize|
            #![trigger post.present(s1), post.present(s2)]
            post.present(s1) && post.present(s2) && post.parent_of(s1) is None
                && post.parent_of(s2) is None implies s1 == s2 by {
            assert(pre.present(s1) && pre.present(s2));
        }
        assert(!pre.free@.contains(x)) by {
            if pre.free@.contains(x) {
                let j = choose|j: int| 0 <= j < pre.free@.len() && pre.free@[j] == x;
                assert(!pre.present(pre.free@[j]));
            }
        }
        assert(post.free_ok()) by {
            assert forall|i: int, j: int|
                0 <= i < post.free@.len() && 0 <= j < post.free@.len() && i != j implies post.free@[i]
                != post.free@[j] by {
                if i < pre.free@.len() && j < pre.free@.len() {
                    assert(pre.free@[i] != pre.free@[j]);
                } else if i < pre.free@.len() {
                    assert(pre.free@.contains(pre.free@[i]));
                } else if j < pre.free@.len() {
                    assert(pre.free@.contains(pre.free@[j]));
                }
            }
            assert forall|j: int|
                #![trigger post.free@[j]]
                0 <= j < post.free@.len() implies post.free@[j] < post.slots@.len() && !post.present(
                post.free@[j],
            ) by {
                if j < pre.free@.len() {
                    assert(post.free@[j] == pre.free@[j]);
                    assert(!pre.present(pre.free@[j]));
                    assert(pre.free@[j] != x);
                }
            }
        }
        match px {
            None => {},
            Some(p) => {
                assert(post.children_of(p) =~= pre.children_of(p).remove(pre.index_of(x)));
            },
        }
        if pre.compact_except(None) {
            assert forall|t: usize| #[trigger] post.present(t) && !post.alive(t) && Some(t) != px
                implies post.children_of(t).len() >= 2 by {
                assert(pre.present(t));
            }
        }
    }

    /// Folds the node in slot `x`, which has one child, into that child:
    /// the child takes the node's place under the node's parent and
    /// absorbs the node's data with `merge_inv`. The node's slot is freed.
    fn collapse(&mut self, x: usize)
        requires
            old(self).links_ok(),
            old(self).present(x),
            old(self).children_of(x).len() == 1,
        ensures
            final(self).links_ok(),
            Self::collapsed(*old(self), *final(self), x),
            old(self).compact_except(Some(x)) ==> final(self).compact_except(None),
    {
        let node = self.take_node(x);
        let entries = node.children.entries();
        proof {
            lemma_lists_len(entries@, node.children@);
        }
        let (ci, c) = entries[0];
        proof {
            let pre = *old(self);
            assert(pre.children_of(x).contains_key(ci));
            assert forall|k: u64| #[trigger] pre.children_of(x).contains_key(k) implies k == ci by {
                let j = choose|j: int| 0 <= j < entries@.len() && entries@[j].0 == k;
                assert(j == 0);
            }
            assert(pre.only_child(x) == c);
            assert(pre.present(c) && pre.parent_of(c) == Some(x) && pre.index_of(c) == ci);
            assert(pre.index_of(x) < pre.index_of(c));
        }
        let NodeInner { parent, children: _, alive: _, index, data } = node;
        match parent {
            Some(p) => {
                proof {
                    let pre = *old(self);
                    assert(pre.present(p));
                    assert(pre.index_of(p) < pre.index_of(x));
                    assert(self.node(p) == pre.node(p));
                    assert(!pre.children_of(p).contains_key(ci)) by {
                        if pre.children_of(p).contains_key(ci) {
                            let d = pre.children_of(p)[ci];
                            assert(pre.present(d) && pre.index_of(d) == ci);
                            assert(pre.present(c));
                        }
                    }
                }
                let mut pn = self.take_node(p);
                pn.children.remove(&index);
                pn.children.insert(ci, c);
                self.put_node(p, pn);
            },
            None => {},
        }
        proof {
            assert(self.present(c));
        }
        let mut child = self.take_node(c);
        child.parent = parent;
        MergeInv::merge_inv(&mut child.data, data);
        self.put_node(c, child);
        proof {
            assert(!old(self).free@.contains(x)) by {
                if old(self).free@.contains(x) {
                    let j = choose|j: int| 0 <= j < old(self).free@.len() && old(self).free@[j] == x;
                    assert(!old(self).present(old(self).free@[j]));
                }
            }
        }
        self.free.push(x);
        proof {
            Self::lemma_collapse(*old(self), *self, x, c);
        }
    }

    /// Folding a single-child node into its child keeps the links right,
    /// and leaves no dead node short of children if only the folded node
    /// was.
    proof fn lemma_collapse(pre: Self, post: Self, x: usize, c: usize)
        requires
            pre.links_ok(),
            pre.present(x),
            pre.children_of(x).len() == 1,
            pre.only_child(x) == c,
            pre.present(c),
            pre.parent_of(c) == Some(x),
            forall|k: u64| #[trigger] pre.children_of(x).contains_key(k) ==> k == pre.index_of(c),
            post.common == pre.common,
            post.free@ == pre.free@.push(x),
            !pre.free@.contains(x),
            post.slots@.len() == pre.slots@.len(),
            post.slots@[x as int] is None,
            forall|t: int|
                0 <= t < pre.slots@.len() && t != x && t != c && Some(t as usize) != pre.parent_of(x)
                    ==> post.slots@[t] == pre.slots@[t],
            post.slots@[c as int] matches Some(n) && n.parent == pre.node(x).parent && n.alive
                == pre.node(c).alive && n.index == pre.node(c).index && n.children
                == pre.node(c).children && T::merges_to(pre.node(x).data, pre.node(c).data, n.data),
            pre.parent_of(x) matches Some(p) ==> post.slots@[p as int] matches Some(n) && n.parent
                == pre.node(p).parent && n.alive == pre.node(p).alive && n.index
                == pre.node(p).index && n.data == pre.node(p).data && n.children.wf()
                && n.children@ == pre.node(p).children@.remove(pre.index_of(x)).insert(
                pre.index_of(c),
                c,
            ),
        ensures
            post.links_ok(),
            Self::collapsed(pre, post, x),
            pre.compact_except(Some(x)) ==> post.compact_except(None),
    {
        let px = pre.parent_of(x);
        let ci = pre.index_of(c);
        assert(pre.index_of(x) < ci);
        assert(c != x);
        if let Some(p) = px {
            assert(pre.present(p));
            assert(pre.index_of(p) < pre.index_of(x));
            assert(pre.children_of(p).contains_key(pre.index_of(x)));
        }
        assert forall|t: usize| t != x implies #[trigger] post.present(t) == pre.present(t) by {
            if t < pre.slots@.len() && t != c && Some(t) != px {
                assert(post.slots@[t as int] == pre.slots@[t as int]);
            }
        }
        assert forall|t: usize|
            #[trigger] post.present(t) && t != c && Some(t) != px implies post.node(t) == pre.node(
                t,
            ) by {
            assert(post.slots@[t as int] == pre.slots@[t as int]);
        }
        assert forall|t: usize| #[trigger] post.present(t) && t != c implies post.parent_of(t)
            == pre.parent_of(t) && post.alive(t) == pre.alive(t) && post.index_of(t)
            == pre.index_of(t) && post.node(t).children.wf() && pre.present(t) && t != x by {
            if Some(t) != px {
                assert(post.node(t) == pre.node(t));
            }
        }
        assert(post.index_of(c) == ci && post.node(c).children.wf() && post.children_of(c)
            == pre.children_of(c));
        assert forall|t: usize|
            #[trigger] post.present(t) && Some(t) != px implies post.children_of(t)
            == pre.children_of(t) by {
            if t != c {
                assert(post.node(t) == pre.node(t));
            }
        }
        // Parent links.
        assert forall|t: usize| #[trigger] post.present(t) && post.parent_of(t) is Some implies {
            let q = post.parent_of(t)->0;
            &&& post.present(q)
            &&& post.children_of(q).contains_key(post.index_of(t))
            &&& post.children_of(q)[post.index_of(t)] == t
            &&& post.index_of(q) < post.index_of(t)
        } by {
            if t == c {
                let p = px->0;
                assert(post.present(p));
            } else {
                let q = pre.parent_of(t)->0;
                assert(pre.present(q));
                assert(pre.children_of(q).contains_key(pre.index_of(t)));
                assert(pre.children_of(q)[pre.index_of(t)] == t);
                if q == x {
                    assert(pre.index_of(t) == ci);
                    assert(pre.present(t) && pre.present(c));
                }
                assert(post.present(q));
                if Some(q) == px {
                    assert(pre.index_of(t) != pre.index_of(x));
                    assert(pre.index_of(t) != ci) by {
                        assert(pre.present(t) && pre.present(c));
                    }
                }
            }
        }
        // Child links.
        assert forall|t: usize, k: u64| #[trigger] post.children_of(t).contains_key(k) && post.present(t)
            implies {
            let d = post.children_of(t)[k];
            &&& post.present(d)
            &&& post.parent_of(d) == Some(t)
            &&& post.index_of(d) == k
        } by {
            if Some(t) == px && k == ci {
            } else {
                assert(pre.children_of(t).contains_key(k));
                let d = pre.children_of(t)[k];
                assert(post.children_of(t)[k] == d);
                assert(pre.present(d) && pre.parent_of(d) == Some(t) && pre.index_of(d) == k);
                if d == x {
                    assert(Some(t) == px);
                }
                if d == c {
                    assert(t == x);
                }
                assert(post.present(d));
            }
        }
        assert forall|s1: usize, s2: usize|
            #![trigger post.present(s1), post.present(s2)]
            post.present(s1) && post.present(s2) && post.index_of(s1) == post.index_of(s2)
            implies s1 == s2 by {
            assert(pre.present(s1) && pre.present(s2));
        }
        assert forall|s1: usize| #[trigger] post.present(s1) implies post.index_of(s1)
            < post.next_index() by {
            assert(pre.present(s1));
        }
        assert forall|s1: usize, s2: usize|
            #![trigger post.present(s1), post.present(s2)]
            post.present(s1) && post.present(s2) && post.parent_of(s1) is None
                && post.parent_of(s2) is None implies s1 == s2 by {
            assert(pre.present(s1) && pre.present(s2));
            if s1 == c {
                assert(pre.present(x));
            }
            if s2 == c {
                assert(pre.present(x));
            }
        }
        assert(post.free_ok()) by {
            assert forall|i: int, j: int|
                0 <= i < post.free@.len() && 0 <= j < post.free@.len() && i != j implies post.free@[i]
                != post.free@[j] by {
                if i < pre.free@.len() && j < pre.free@.len() {
                    assert(pre.free@[i] != pre.free@[j]);
                } else if i < pre.free@.len() {
                    assert(pre.free@.contains(pre.free@[i]));
                } else if j < pre.free@.len() {
                    assert(pre.free@.contains(pre.free@[j]));
                }
            }
            assert forall|j: int|
                #![trigger post.free@[j]]
                0 <= j < post.free@.len() implies post.free@[j] < post.slots@.len() && !post.present(
                post.free@[j],
            ) by {
                if j < pre.free@.len() {
                    assert(post.free@[j] == pre.free@[j]);
                    assert(!pre.present(pre.free@[j]));
                    assert(pre.free@[j] != x);
                }
            }
        }
        if let Some(p) = px {
            assert(post.children_of(p) =~= pre.children_of(p).remove(pre.index_of(x)).insert(ci, c));
        }
        if pre.compact_except(Some(x)) {
            assert forall|t: usize| #[trigger] post.present(t) && !post.alive(t) && Some(t) != None::<usize>
                implies post.children_of(t).len() >= 2 by {
                assert(pre.present(t));
                if Some(t) == px {
                    let m = pre.children_of(t);
                    assert(m.dom().finite());
                    assert(m.remove(pre.index_of(x)).len() == m.len() - 1);
                    assert(!m.remove(pre.index_of(x)).contains_key(ci)) by {
                        if m.contains_key(ci) {
                            let d = m[ci];
                            assert(pre.present(d) && pre.index_of(d) == ci);
                        }
                    }
                }
            }
        }
    }

    /// The entries of the children of the node in slot `s`.
    fn child_entries(&self, s: usize) -> (r: Vec<Entry>)
        requires
            self.links_ok(),
            self.present(s),
        ensures
            lists(r@, self.children_of(s)),
            r@.len() == self.children_of(s).len(),
    {
        let r = self.slots[s].as_ref().unwrap().children.entries();
        proof {
            lemma_lists_len(r@, self.children_of(s));
        }
        r
    }

    /// Marks the node in slot `s` dead.
    fn mark_dead(&mut self, s: usize)
        requires
            old(self).wf(),
            old(self).present(s),
            old(self).children_of(s).len() >= 2,
        ensures
            final(self).wf(),
            Self::marked_dead(*old(self), *final(self), s),
    {
        let mut n = self.take_node(s);
        n.alive = false;
        self.put_node(s, n);
        proof {
            let pre = *old(self);
            let post = *self;
            assert forall|t: usize| #[trigger] post.present(t) == pre.present(t) by {
                if t < pre.slots@.len() && t != s {
                    assert(post.slots@[t as int] == pre.slots@[t as int]);
                }
            }
            assert forall|t: usize| #[trigger] post.present(t) implies post.parent_of(t)
                == pre.parent_of(t) && post.children_of(t) == pre.children_of(t)
                && post.node(t).children == pre.node(t).children && post.index_of(t)
                == pre.index_of(t) && (t != s ==> post.node(t) == pre.node(t)) by {
                if t != s {
                    assert(post.slots@[t as int] == pre.slots@[t as int]);
                }
            }
            assert(post.free_ok()) by {
                assert forall|j: int|
                    #![trigger post.free@[j]]
                    0 <= j < post.free@.len() implies post.free@[j] < post.slots@.len()
                        && !post.present(post.free@[j]) by {
                    assert(!pre.present(pre.free@[j]));
                }
            }
            assert(post.links_ok());
            assert(post.compact_except(None));
            assert forall|t: usize| !set![s].contains(t) implies {
                &&& #[trigger] post.present(t) == pre.present(t)
                &&& post.present(t) ==> post.node(t) == pre.node(t)
            } by {}
            assert(post.data_of(s) == pre.data_of(s));
            assert(post.same_except(pre, set![s]));
            assert(post.children_of(s) == pre.children_of(s));
            assert(!post.alive(s));
            assert(post.next_index() == pre.next_index());
        }
    }

    /// The drop of a leaf in slot `s` goes on to fold its parent: the parent
    /// is dead and has `s` and one other child.
    pub open spec fn cascades(&self, s: usize) -> bool {
        &&& self.parent_of(s) is Some
        &&& !self.alive(self.parent_of(s)->0)
        &&& self.children_of(self.parent_of(s)->0).len() == 2
    }

    /// Drops the handle of the live node in slot `s`. With two children or
    /// more the node stays, dead. With one child it is folded into that
    /// child. A leaf is taken out, and if that leaves its dead parent with
    /// a single child, the parent is folded into that child in turn.
    pub fn drop_node(&mut self, s: usize)
        requires
            old(self).wf(),
            old(self).present(s),
            old(self).alive(s),
        ensures
            final(self).wf(),
            Self::dropped(*old(self), *final(self), s),
            forall|t: usize| #[trigger] final(self).present(t) ==> old(self).present(t),
            forall|t: usize|
                #[trigger] old(self).present(t) && old(self).alive(t) && t != s ==> final(self).present(t)
                    && final(self).alive(t),
            final(self).present(s) ==> !final(self).alive(s),
            forall|t: usize|
                #[trigger] old(self).present(t) && !final(self).present(t) ==> t == s || (
                old(self).parent_of(s) == Some(t) && !old(self).alive(t)),
            old(self).children_of(s).len() < 2 <==> !final(self).present(s),
            old(self).children_of(s).len() == 0 ==> if old(self).cascades(s) {
                Self::cascaded(*old(self), *final(self), s)
            } else {
                Self::leaf_removed(*old(self), *final(self), s)
            },
    {
        let entries = self.child_entries(s);
        match Multiplicity::from_iter(entries) {
            Multiplicity::Multiple => {
                self.mark_dead(s);
            },
            Multiplicity::Single(_) => {
                self.collapse(s);
            },
            Multiplicity::Empty => {
                proof {
                    assert(old(self).children_of(s).dom().finite());
                    assert(old(self).children_of(s).dom() =~= Set::<u64>::empty());
                }
                let parent = self.parent(s);
                self.remove_leaf(s);
                let ghost mid = *self;
                match parent {
                    Some(p) => {
                        proof {
                            let pre = *old(self);
                            assert(pre.present(p));
                            assert(pre.children_of(p).contains_key(pre.index_of(s)));
                            assert(pre.children_of(p).dom().finite());
                        }
                        if !self.is_alive(p) {
                            let pe = self.child_entries(p);
                            match Multiplicity::from_iter(pe) {
                                Multiplicity::Single(_) => {
                                    self.collapse(p);
                                },
                                _ => {},
                            }
                        }
                    },
                    None => {},
                }
                proof {
                    assert(mid.links_ok());
                    assert(Self::leaf_removed(*old(self), mid, s));
                }
            },
        }
        proof {
            Self::lemma_drop_effects(*old(self), *self, s);
            if old(self).children_of(s).len() == 0 {
                Self::lemma_leaf_drop(*old(self), *self, s);
            }
        }
    }

    /// Dropping a node with two or more children only marks it dead: it
    /// stays with its data, its children and its parent, and every other
    /// node stays as it was.
    pub proof fn lemma_drop_marks_dead(pre: Self, post: Self, s: usize)
        requires
            pre.wf(),
            pre.present(s),
            pre.alive(s),
            pre.children_of(s).len() >= 2,
            Self::dropped(pre, post, s),
        ensures
            post.present(s),
            !post.alive(s),
            post.data_of(s) == pre.data_of(s),
            post.children_of(s) == pre.children_of(s),
            post.parent_of(s) == pre.parent_of(s),
            forall|t: usize|
                t != s && #[trigger] pre.present(t) ==> {
                    &&& post.present(t)
                    &&& post.data_of(t) == pre.data_of(t)
                    &&& post.parent_of(t) == pre.parent_of(t)
                    &&& post.children_of(t) == pre.children_of(t)
                    &&& post.alive(t) == pre.alive(t)
                },
    {
        assert forall|t: usize| t != s && #[trigger] pre.present(t) implies post.present(t) by {
            assert(!set![s].contains(t));
        }
    }

    /// Dropping a node with one child takes it out of the tree and folds it
    /// into that child: the child takes its place under its parent, keeps
    /// its own children, and holds the child's data merged into the
    /// node's. Every other node but the node's parent stays as it was.
    pub proof fn lemma_drop_folds_into_only_child(pre: Self, post: Self, s: usize, k: u64)
        requires
            pre.wf(),
            pre.present(s),
            pre.alive(s),
            pre.children_of(s).len() == 1,
            pre.children_of(s).contains_key(k),
            Self::dropped(pre, post, s),
        ensures
            !post.present(s),
            post.present(pre.children_of(s)[k]),
            post.parent_of(pre.children_of(s)[k]) == pre.parent_of(s),
            post.children_of(pre.children_of(s)[k]) == pre.children_of(pre.children_of(s)[k]),
            post.alive(pre.children_of(s)[k]) == pre.alive(pre.children_of(s)[k]),
            T::merges_to(
                pre.data_of(s),
                pre.data_of(pre.children_of(s)[k]),
                post.data_of(pre.children_of(s)[k]),
            ),
            pre.parent_of(s) matches Some(q) ==> post.children_of(q) == pre.children_of(q).remove(
                pre.index_of(s),
            ).insert(k, pre.children_of(s)[k]),
            forall|t: usize|
                t != s && t != pre.children_of(s)[k] && #[trigger] pre.present(t) ==> {
                    &&& post.present(t)
                    &&& post.data_of(t) == pre.data_of(t)
                    &&& post.parent_of(t) == pre.parent_of(t)
                    &&& post.alive(t) == pre.alive(t)
                },
    {
        let c = pre.children_of(s)[k];
        assert(pre.node(s).children.wf());
        pre.node(s).children.lemma_shape();
        lemma_only_entry(pre.children_of(s), k);
        assert(pre.only_child(s) == c);
        assert(pre.index_of(c) == k);
        assert forall|t: usize|
            t != s && t != c && #[trigger] pre.present(t) implies post.present(t) by {
            match pre.parent_of(s) {
                Some(q) => {
                    if t != q {
                        assert(!set![s, c, q].contains(t));
                    }
                },
                None => {
                    assert(!set![s, c].contains(t));
                },
            }
        }
    }

    /// Dropping a leaf whose parent is live, or has other than two
    /// children, or that has no parent, takes the leaf out and nothing
    /// else: every other node keeps its data, parent and state, and the
    /// parent loses the leaf from its children.
    pub proof fn lemma_drop_leaf(pre: Self, post: Self, s: usize)
        requires
            pre.wf(),
            pre.present(s),
            pre.alive(s),
            pre.children_of(s).len() == 0,
            !pre.cascades(s),
            Self::dropped(pre, post, s),
        ensures
            !post.present(s),
            pre.parent_of(s) matches Some(q) ==> post.children_of(q) == pre.children_of(q).remove(
                pre.index_of(s),
            ),
            forall|t: usize|
                t != s && #[trigger] pre.present(t) ==> {
                    &&& post.present(t)
                    &&& post.data_of(t) == pre.data_of(t)
                    &&& post.parent_of(t) == pre.parent_of(t)
                    &&& post.alive(t) == pre.alive(t)
                },
    {
        Self::lemma_leaf_drop(pre, post, s);
        assert forall|t: usize| t != s && #[trigger] pre.present(t) implies post.present(t) by {
            match pre.parent_of(s) {
                Some(q) => {
                    if t != q {
                        assert(!set![s, q].contains(t));
                    }
                },
                None => {
                    assert(!set![s].contains(t));
                },
            }
        }
    }

    /// Dropping a leaf whose dead parent has two children takes out the
    /// leaf and folds the parent into its other child: that child takes
    /// the parent's place under the grandparent and holds its own data
    /// merged into the parent's. Every node but the leaf, the parent, the
    /// other child and the grandparent stays as it was.
    pub proof fn lemma_drop_leaf_folds_parent(pre: Self, post: Self, s: usize, k: u64)
        requires
            pre.wf(),
            pre.present(s),
            pre.alive(s),
            pre.children_of(s).len() == 0,
            pre.cascades(s),
            pre.children_of(pre.parent_of(s)->0).contains_key(k),
            k != pre.index_of(s),
            Self::dropped(pre, post, s),
        ensures
            !post.present(s),
            !post.present(pre.parent_of(s)->0),
            post.present(pre.children_of(pre.parent_of(s)->0)[k]),
            post.parent_of(pre.children_of(pre.parent_of(s)->0)[k]) == pre.parent_of(
                pre.parent_of(s)->0,
            ),
            T::merges_to(
                pre.data_of(pre.parent_of(s)->0),
                pre.data_of(pre.children_of(pre.parent_of(s)->0)[k]),
                post.data_of(pre.children_of(pre.parent_of(s)->0)[k]),
            ),
            forall|t: usize|
                t != s && t != pre.parent_of(s)->0 && t != pre.children_of(pre.parent_of(s)->0)[k]
                    && #[trigger] pre.present(t) ==> {
                    &&& post.present(t)
                    &&& post.data_of(t) == pre.data_of(t)
                    &&& post.alive(t) == pre.alive(t)
                },
    {
        let p = pre.parent_of(s)->0;
        let c = pre.children_of(p)[k];
        Self::lemma_leaf_drop(pre, post, s);
        assert(pre.present(p));
        assert(pre.node(p).children.wf());
        pre.node(p).children.lemma_shape();
        let m = pre.children_of(p).remove(pre.index_of(s));
        assert(pre.children_of(p).contains_key(pre.index_of(s)));
        assert(m.dom() =~= pre.children_of(p).dom().remove(pre.index_of(s)));
        assert(m.len() == 1);
        lemma_only_entry(m, k);
        assert(pre.sibling(s) == c);
        assert forall|t: usize|
            t != s && t != p && t != c && #[trigger] pre.present(t) implies post.present(t) by {
            match pre.parent_of(p) {
                Some(q) => {
                    if t != q {
                        assert(!set![s, p, c, q].contains(t));
                    }
                },
                None => {
                    assert(!set![s, p, c].contains(t));
                },
            }
        }
    }

    /// A drop of a leaf takes it out, and where its dead parent is left
    /// with one child, folds that parent into its other child.
    #[verifier::spinoff_prover]
    proof fn lemma_leaf_drop(pre: Self, post: Self, s: usize)
        requires
            pre.wf(),
            pre.present(s),
            pre.alive(s),
            pre.children_of(s).len() == 0,
            Self::dropped(pre, post, s),
        ensures
            if pre.cascades(s) {
                Self::cascaded(pre, post, s)
            } else {
                Self::leaf_removed(pre, post, s)
            },
    {
        let mid = choose|mid: Self|
            mid.links_ok() && Self::leaf_removed(pre, mid, s) && if pre.cascades(s) {
                Self::collapsed(mid, post, pre.parent_of(s)->0)
            } else {
                post == mid
            };
        if pre.cascades(s) {
            let p = pre.parent_of(s)->0;
            assert(pre.present(p));
            assert(mid.children_of(p) == pre.children_of(p).remove(pre.index_of(s)));
            let c = mid.only_child(p);
            assert(c == pre.sibling(s));
            assert(mid.children_of(p).contains_key(choose|k: u64| mid.children_of(p).contains_key(k)))
                by {
                assert(pre.children_of(p).dom().finite());
                assert(mid.children_of(p).dom().finite());
                let k0 = mid.children_of(p).dom().choose();
                assert(mid.children_of(p).contains_key(k0));
            }
            let k = choose|k: u64| mid.children_of(p).contains_key(k);
            assert(pre.children_of(p).contains_key(k));
            assert(pre.present(c));
            assert(pre.parent_of(c) == Some(p));
            assert(c != s);
            assert(c != p);
            assert(mid.present(c));
            assert(mid.node(c) == pre.node(c));
            assert(!mid.present(s));
            let pq = pre.parent_of(p);
            match pq {
                Some(q) => {
                    assert(pre.present(q));
                    assert(q != s);
                    assert(q != p);
                    assert(q != c) by {
                        assert(pre.index_of(q) < pre.index_of(p));
                        assert(pre.index_of(p) < pre.index_of(c));
                    }
                    assert(mid.present(q));
                    assert(mid.node(q) == pre.node(q));
                    assert(!set![p, c, q].contains(s));
                    assert(post.present(s) == mid.present(s));
                    assert forall|t: usize|
                        #![trigger post.present(t)]
                        #![trigger pre.present(t)]
                        !set![s, p, c, q].contains(t) implies {
                        &&& post.present(t) == pre.present(t)
                        &&& post.present(t) ==> post.node(t) == pre.node(t)
                    } by {
                        assert(!set![p, c, q].contains(t));
                        assert(!set![s, p].contains(t));
                        assert(post.present(t) == mid.present(t));
                        assert(mid.present(t) == pre.present(t));
                    }
                },
                None => {
                    assert(!set![p, c].contains(s));
                    assert(post.present(s) == mid.present(s));
                    assert forall|t: usize|
                        #![trigger post.present(t)]
                        #![trigger pre.present(t)]
                        !set![s, p, c].contains(t) implies {
                        &&& post.present(t) == pre.present(t)
                        &&& post.present(t) ==> post.node(t) == pre.node(t)
                    } by {
                        assert(!set![p, c].contains(t));
                        assert(!set![s, p].contains(t));
                        assert(post.present(t) == mid.present(t));
                        assert(mid.present(t) == pre.present(t));
                    }
                },
            }
        }
    }

    /// What a drop of the live node in slot `s` does, by the number of its
    /// children.
    pub open spec fn dropped(pre: Self, post: Self, s: usize) -> bool {
        if pre.children_of(s).len() >= 2 {
            Self::marked_dead(pre, post, s)
        } else if pre.children_of(s).len() == 1 {
            Self::collapsed(pre, post, s)
        } else {
            exists|mid: Self|
                mid.links_ok() && Self::leaf_removed(pre, mid, s) && if pre.cascades(s) {
                    Self::collapsed(mid, post, pre.parent_of(s)->0)
                } else {
                    post == mid
                }
        }
    }

    /// A drop adds no node, keeps every other live node live, leaves the
    /// dropped node dead if it stays, and takes out at most the dropped
    /// node and its dead parent.
    #[verifier::spinoff_prover]
    #[verifier::rlimit(40)]
    proof fn lemma_drop_effects(pre: Self, post: Self, s: usize)
        requires
            pre.wf(),
            pre.present(s),
            pre.alive(s),
            Self::dropped(pre, post, s),
        ensures
            forall|t: usize| #[trigger] post.present(t) ==> pre.present(t),
            forall|t: usize|
                #[trigger] pre.present(t) && pre.alive(t) && t != s ==> post.present(t) && post.alive(t),
            post.present(s) ==> !post.alive(s),
            forall|t: usize|
                #[trigger] pre.present(t) && !post.present(t) ==> t == s || (pre.parent_of(s) == Some(
                    t,
                ) && !pre.alive(t)),
    {
        if pre.children_of(s).len() >= 2 {
        } else if pre.children_of(s).len() == 1 {
            let c = pre.only_child(s);
            assert(pre.children_of(s).contains_key(choose|k: u64| pre.children_of(s).contains_key(k)))
                by {
                assert(pre.children_of(s).dom().finite());
                let k0 = pre.children_of(s).dom().choose();
                assert(pre.children_of(s).contains_key(k0));
            }
            assert(pre.present(c));
            assert forall|t: usize| #[trigger] pre.present(t) && pre.alive(t) && t != s implies post.present(t)
                && post.alive(t) by {
                if t != c && Some(t) != pre.parent_of(s) {
                    assert(post.present(t) == pre.present(t));
                }
            }
        } else {
            let mid = choose|mid: Self|
                mid.links_ok() && Self::leaf_removed(pre, mid, s) && if pre.cascades(s) {
                    Self::collapsed(mid, post, pre.parent_of(s)->0)
                } else {
                    post == mid
                };
            if pre.cascades(s) {
                let p = pre.parent_of(s)->0;
                assert(pre.present(p));
                let c = mid.only_child(p);
                assert(mid.children_of(p).contains_key(choose|k: u64| mid.children_of(p).contains_key(k)))
                    by {
                    assert(pre.children_of(p).dom().finite());
                    assert(mid.children_of(p).dom().finite());
                    let k0 = mid.children_of(p).dom().choose();
                    assert(mid.children_of(p).contains_key(k0));
                }
                assert(mid.present(p));
                let k = choose|k: u64| mid.children_of(p).contains_key(k);
                assert(pre.children_of(p).contains_key(k));
                assert(pre.present(c));
                assert(pre.parent_of(c) == Some(p));
                assert(c != s);
                assert(c != p);
                assert(mid.present(c));
                assert forall|t: usize| #[trigger] pre.present(t) && pre.alive(t) && t != s implies post.present(t)
                    && post.alive(t) by {
                    assert(t != p);
                    assert(pre.parent_of(s) == Some(p));
                    assert(!set![s, p].contains(t));
                    assert(mid.same_except(pre, set![s, p]));
                    assert(mid.present(t) == pre.present(t));
                    assert(mid.present(t) && mid.alive(t));
                    if t != c && Some(t) != mid.parent_of(p) {
                        assert(post.present(t) == mid.present(t));
                    }
                }
            }
        }
    }

    /// The live nodes among the slots from `s` up to the root, nearest
    /// first: the live ancestors that a walk from `s` meets.
    pub closed spec fn live_path(&self, s: usize) -> Seq<usize>
        decreases self.index_of(s),
        when self.present(s) && (self.parent_of(s) is Some ==> self.index_of(self.parent_of(s)->0)
            < self.index_of(s))
    {
        let rest = match self.parent_of(s) {
            None => Seq::empty(),
            Some(p) => self.live_path(p),
        };
        if self.alive(s) {
            seq![s] + rest
        } else {
            rest
        }
    }

    /// Unfolds `live_path` once in a tree whose links are right.
    proof fn lemma_live_path_unfold(&self, s: usize)
        requires
            self.links_ok(),
            self.present(s),
        ensures
            self.live_path(s) == ({
                let rest = match self.parent_of(s) {
                    None => Seq::empty(),
                    Some(p) => self.live_path(p),
                };
                if self.alive(s) {
                    seq![s] + rest
                } else {
                    rest
                }
            }),
            self.parent_of(s) matches Some(p) ==> self.present(p) && self.index_of(p) < self.index_of(s),
    {
    }

    /// The live path of `s` holds exactly the live nodes on the path from
    /// `s` to the root.
    pub proof fn lemma_live_path_in_path(&self, s: usize)
        requires
            self.wf(),
            self.present(s),
        ensures
            forall|u: usize| #[trigger] self.live_path(s).contains(u) <==> self.path(s).contains(u) && self.alive(u),
        decreases self.index_of(s),
    {
        self.lemma_live_path_unfold(s);
        self.lemma_path(s);
        let rest = match self.parent_of(s) {
            None => Seq::<usize>::empty(),
            Some(p) => self.live_path(p),
        };
        let prest = match self.parent_of(s) {
            None => Seq::<usize>::empty(),
            Some(p) => self.path(p),
        };
        if let Some(p) = self.parent_of(s) {
            self.lemma_live_path_in_path(p);
        }
        assert(self.path(s) == seq![s] + prest);
        assert forall|u: usize| #[trigger] self.live_path(s).contains(u) <==> self.path(s).contains(u)
            && self.alive(u) by {
            assert(self.path(s).contains(u) <==> u == s || prest.contains(u)) by {
                if prest.contains(u) {
                    let i = choose|i: int| 0 <= i < prest.len() && prest[i] == u;
                    assert(self.path(s)[i + 1] == u);
                }
                if self.path(s).contains(u) {
                    let i = choose|i: int| 0 <= i < self.path(s).len() && self.path(s)[i] == u;
                    if i > 0 {
                        assert(prest[i - 1] == u);
                    }
                }
                assert(self.path(s)[0] == s);
            }
            if self.alive(s) {
                assert(self.live_path(s) == seq![s] + rest);
                assert(self.live_path(s).contains(u) <==> u == s || rest.contains(u)) by {
                    if rest.contains(u) {
                        let i = choose|i: int| 0 <= i < rest.len() && rest[i] == u;
                        assert(self.live_path(s)[i + 1] == u);
                    }
                    if self.live_path(s).contains(u) {
                        let i = choose|i: int| 0 <= i < self.live_path(s).len() && self.live_path(s)[i] == u;
                        if i > 0 {
                            assert(rest[i - 1] == u);
                        }
                    }
                    assert(self.live_path(s)[0] == s);
                }
            }
            if u == s && !self.alive(s) && self.parent_of(s) is Some {
                self.lemma_path(self.parent_of(s)->0);
                // `s` is not on its parent's path: indices fall towards the root.
                assert(!prest.contains(s)) by {
                    self.lemma_path_indices(self.parent_of(s)->0);
                    if prest.contains(s) {
                        let i = choose|i: int| 0 <= i < prest.len() && prest[i] == s;
                        assert(self.index_of(prest[i]) <= self.index_of(self.parent_of(s)->0));
                    }
                }
                assert(!rest.contains(s));
            }
        }
    }

    /// Along the path from `s`, indices fall: none exceeds that of `s`.
    proof fn lemma_path_indices(&self, s: usize)
        requires
            self.wf(),
            self.present(s),
        ensures
            forall|i: int| 0 <= i < self.path(s).len() ==> self.index_of(#[trigger] self.path(s)[i])
                <= self.index_of(s),
        decreases self.index_of(s),
    {
        self.lemma_path(s);
        if let Some(p) = self.parent_of(s) {
            self.lemma_path_indices(p);
            let ps = self.path(p);
            assert forall|i: int| 0 <= i < self.path(s).len() implies self.index_of(
                #[trigger] self.path(s)[i],
            ) <= self.index_of(s) by {
                if i > 0 {
                    assert(self.path(s)[i] == ps[i - 1]);
                }
            }
        }
    }

    /// No slot occurs twice on a path: a walk to the root visits each
    /// ancestor once.
    pub proof fn lemma_path_no_duplicates(&self, s: usize)
        requires
            self.wf(),
            self.present(s),
        ensures
            self.path(s).no_duplicates(),
        decreases self.index_of(s),
    {
        self.lemma_path(s);
        if let Some(p) = self.parent_of(s) {
            self.lemma_path_no_duplicates(p);
            self.lemma_path_indices(p);
            let ps = self.path(p);
            assert forall|i: int, j: int|
                0 <= i < self.path(s).len() && 0 <= j < self.path(s).len() && i != j implies self.path(
                s,
            )[i] != self.path(s)[j] by {
                if i > 0 && j > 0 {
                    assert(self.path(s)[i] == ps[i - 1]);
                    assert(self.path(s)[j] == ps[j - 1]);
                } else if i == 0 {
                    assert(self.path(s)[j] == ps[j - 1]);
                    assert(self.index_of(ps[j - 1]) <= self.index_of(p));
                } else {
                    assert(self.path(s)[i] == ps[i - 1]);
                    assert(self.index_of(ps[i - 1]) <= self.index_of(p));
                }
            }
        }
    }

    /// A live path holds live nodes only.
    proof fn lemma_live_path_alive(&self, s: usize)
        requires
            self.links_ok(),
            self.present(s),
        ensures
            forall|i: int| 0 <= i < self.live_path(s).len() ==> self.alive(#[trigger] self.live_path(s)[i]),
        decreases self.index_of(s),
    {
        self.lemma_live_path_unfold(s);
        match self.parent_of(s) {
            None => {},
            Some(p) => {
                self.lemma_live_path_alive(p);
                let rest = self.live_path(p);
                if self.alive(s) {
                    assert forall|i: int| 0 <= i < self.live_path(s).len() implies self.alive(
                        #[trigger] self.live_path(s)[i],
                    ) by {
                        if i > 0 {
                            assert(self.live_path(s)[i] == rest[i - 1]);
                        }
                    }
                }
            },
        }
    }

    /// Marking a node dead takes it out of every live path.
    proof fn lemma_live_path_marked_dead(pre: Self, post: Self, x: usize, t: usize)
        requires
            pre.links_ok(),
            post.links_ok(),
            pre.present(x),
            Self::marked_dead(pre, post, x),
            post.present(t),
        ensures
            post.live_path(t) == without(pre.live_path(t), x),
        decreases post.index_of(t),
    {
        assert(pre.present(t));
        if t != x {
            assert(post.node(t) == pre.node(t));
        }
        post.lemma_live_path_unfold(t);
        pre.lemma_live_path_unfold(t);
        let pre_rest = match pre.parent_of(t) {
            None => Seq::<usize>::empty(),
            Some(q) => pre.live_path(q),
        };
        match post.parent_of(t) {
            None => {
                assert(without(Seq::<usize>::empty(), x) == Seq::<usize>::empty());
            },
            Some(q) => {
                Self::lemma_live_path_marked_dead(pre, post, x, q);
            },
        }
        lemma_without_cons(t, pre_rest, x);
    }

    /// Taking out a leaf changes no other node's live path, and the leaf
    /// is on none of them.
    proof fn lemma_live_path_leaf_removed(pre: Self, post: Self, x: usize, t: usize)
        requires
            pre.links_ok(),
            post.links_ok(),
            pre.present(x),
            pre.children_of(x).dom().is_empty(),
            Self::leaf_removed(pre, post, x),
            post.present(t),
        ensures
            post.live_path(t) == pre.live_path(t),
            !pre.live_path(t).contains(x),
        decreases post.index_of(t),
    {
        assert(t != x);
        assert(pre.present(t));
        assert(post.parent_of(t) == pre.parent_of(t) && post.alive(t) == pre.alive(t)) by {
            if Some(t) != pre.parent_of(x) {
                assert(post.node(t) == pre.node(t));
            }
        }
        post.lemma_live_path_unfold(t);
        pre.lemma_live_path_unfold(t);
        match pre.parent_of(t) {
            None => {},
            Some(q) => {
                if q == x {
                    assert(pre.children_of(x).contains_key(pre.index_of(t)));
                    assert(pre.children_of(x).dom().contains(pre.index_of(t)));
                }
                Self::lemma_live_path_leaf_removed(pre, post, x, q);
                let rest = pre.live_path(q);
                if pre.alive(t) {
                    assert forall|i: int| 0 <= i < pre.live_path(t).len() implies pre.live_path(t)[i]
                        != x by {
                        if i > 0 {
                            assert(pre.live_path(t)[i] == rest[i - 1]);
                        }
                    }
                }
            },
        }
    }

    /// Folding a single-child node into its child takes the node out of
    /// every live path and changes them in no other way.
    proof fn lemma_live_path_collapsed(pre: Self, post: Self, x: usize, t: usize)
        requires
            pre.links_ok(),
            post.links_ok(),
            pre.present(x),
            pre.children_of(x).len() == 1,
            pre.present(pre.only_child(x)),
            pre.parent_of(pre.only_child(x)) == Some(x),
            forall|k: u64| #[trigger] pre.children_of(x).contains_key(k) ==> k == pre.index_of(pre.only_child(x)),
            Self::collapsed(pre, post, x),
            post.present(t),
        ensures
            post.live_path(t) == without(pre.live_path(t), x),
        decreases post.index_of(t),
    {
        let c = pre.only_child(x);
        let px = pre.parent_of(x);
        assert(t != x);
        assert(pre.present(t)) by {
            if t != c && Some(t) != px {
                assert(post.present(t) == pre.present(t));
            }
        }
        post.lemma_live_path_unfold(t);
        pre.lemma_live_path_unfold(t);
        if t == c {
            pre.lemma_live_path_unfold(x);
            let rest_x = match px {
                None => Seq::<usize>::empty(),
                Some(q) => pre.live_path(q),
            };
            match px {
                None => {
                    assert(without(Seq::<usize>::empty(), x) == Seq::<usize>::empty());
                },
                Some(q) => {
                    Self::lemma_live_path_collapsed(pre, post, x, q);
                },
            }
            lemma_without_cons(x, rest_x, x);
            lemma_without_cons(c, pre.live_path(x), x);
        } else {
            assert(post.parent_of(t) == pre.parent_of(t) && post.alive(t) == pre.alive(t)) by {
                if Some(t) != px {
                    assert(post.node(t) == pre.node(t));
                }
            }
            let pre_rest = match pre.parent_of(t) {
                None => Seq::<usize>::empty(),
                Some(q) => pre.live_path(q),
            };
            match pre.parent_of(t) {
                None => {
                    assert(without(Seq::<usize>::empty(), x) == Seq::<usize>::empty());
                },
                Some(q) => {
                    if q == x {
                        assert(pre.children_of(x).contains_key(pre.index_of(t)));
                        assert(pre.index_of(t) == pre.index_of(c));
                        assert(pre.present(c));
                    }
                    Self::lemma_live_path_collapsed(pre, post, x, q);
                },
            }
            lemma_without_cons(t, pre_rest, x);
        }
    }

    /// A drop leaves the live path of every node that stays as it was, less
    /// the dropped node: walks from the remaining nodes meet the same live
    /// ancestors, in the same order.
    pub proof fn lemma_drop_keeps_live_paths(pre: Self, post: Self, s: usize, t: usize)
        requires
            pre.wf(),
            post.wf(),
            pre.present(s),
            pre.alive(s),
            Self::dropped(pre, post, s),
            post.present(t),
        ensures
            post.live_path(t) == without(pre.live_path(t), s),
    {
        if pre.children_of(s).len() >= 2 {
            Self::lemma_live_path_marked_dead(pre, post, s, t);
        } else if pre.children_of(s).len() == 1 {
            Self::lemma_single_child(pre, s);
            Self::lemma_live_path_collapsed(pre, post, s, t);
        } else {
            let mid = choose|mid: Self|
                mid.links_ok() && Self::leaf_removed(pre, mid, s) && if pre.cascades(s) {
                    Self::collapsed(mid, post, pre.parent_of(s)->0)
                } else {
                    post == mid
                };
            assert(pre.children_of(s).dom().finite());
            assert(pre.children_of(s).dom() =~= Set::<u64>::empty());
            if pre.cascades(s) {
                let p = pre.parent_of(s)->0;
                assert(pre.present(p));
                assert(mid.present(p));
                assert(mid.children_of(p).len() == 1) by {
                    assert(pre.children_of(p).dom().finite());
                    assert(pre.children_of(p).contains_key(pre.index_of(s)));
                }
                Self::lemma_single_child(mid, p);
                Self::lemma_live_path_collapsed(mid, post, p, t);
                let c = mid.only_child(p);
                assert(mid.present(t)) by {
                    if t != c && Some(t) != mid.parent_of(p) {
                        assert(post.present(t) == mid.present(t));
                    }
                }
                Self::lemma_live_path_leaf_removed(pre, mid, s, t);
                pre.lemma_live_path_alive(t);
                assert(!pre.live_path(t).contains(p)) by {
                    if pre.live_path(t).contains(p) {
                        let i = choose|i: int| 0 <= i < pre.live_path(t).len() && pre.live_path(t)[i] == p;
                        assert(pre.alive(pre.live_path(t)[i]));
                    }
                }
                lemma_without_absent(pre.live_path(t), p);
                lemma_without_absent(pre.live_path(t), s);
            } else {
                Self::lemma_live_path_leaf_removed(pre, post, s, t);
                lemma_without_absent(pre.live_path(t), s);
            }
        }
    }

    /// In a tree whose links are right, a node with one child: the child
    /// is present, under the node, and its index is the only key.
    proof fn lemma_single_child(pre: Self, x: usize)
        requires
            pre.links_ok(),
            pre.present(x),
            pre.children_of(x).len() == 1,
        ensures
            pre.present(pre.only_child(x)),
            pre.parent_of(pre.only_child(x)) == Some(x),
            forall|k: u64| #[trigger] pre.children_of(x).contains_key(k) ==> k == pre.index_of(pre.only_child(x)),
    {
        let m = pre.children_of(x);
        assert(m.dom().finite());
        let k0 = m.dom().choose();
        assert(m.contains_key(k0));
        let k = choose|k: u64| m.contains_key(k);
        assert(m.contains_key(k));
        assert forall|k2: u64| #[trigger] m.contains_key(k2) implies k2 == k by {
            if k2 != k {
                assert(m.dom().remove(k).contains(k2));
                assert(m.dom().remove(k).len() == 0);
            }
        }
        assert(pre.index_of(m[k]) == k);
    }

    /// A fork changes no live path of a node that was there, and the new
    /// child's live path is the child followed by its parent's.
    pub proof fn lemma_fork_keeps_live_paths(pre: Self, post: Self, parent: usize, child: usize, data: T, t: usize)
        requires
            pre.wf(),
            post.wf(),
            pre.present(parent),
            Self::forked(pre, post, parent, child, data),
            post.present(t),
        ensures
            t == child ==> post.live_path(t) == seq![child] + pre.live_path(parent),
            t != child ==> post.live_path(t) == pre.live_path(t),
        decreases post.index_of(t),
    {
        post.lemma_live_path_unfold(t);
        if t == child {
            Self::lemma_fork_keeps_live_paths(pre, post, parent, child, data, parent);
        } else {
            assert(pre.present(t)) by {
                if t != parent {
                    assert(post.present(t) == pre.present(t));
                }
            }
            pre.lemma_live_path_unfold(t);
            assert(post.parent_of(t) == pre.parent_of(t) && post.alive(t) == pre.alive(t)) by {
                if t != parent {
                    assert(post.node(t) == pre.node(t));
                }
            }
            if let Some(q) = pre.parent_of(t) {
                assert(q != child);
                Self::lemma_fork_keeps_live_paths(pre, post, parent, child, data, q);
            }
        }
    }

    /// Adds a live child under the node in slot `parent` for each item of
    /// `data`, in order, and returns their slots.
    pub fn fork_many(&mut self, parent: usize, data: Vec<T>) -> (r: Vec<usize>)
        requires
            old(self).wf(),
            old(self).present(parent),
            old(self).next_index() + data@.len() <= u64::MAX,
        ensures
            final(self).wf(),
            r@.len() == data@.len(),
            final(self).next_index() == old(self).next_index() + data@.len(),
            forall|i: int|
                0 <= i < r@.len() ==> {
                    &&& !old(self).present(#[trigger] r@[i])
                    &&& final(self).present(r@[i])
                    &&& final(self).parent_of(r@[i]) == Some(parent)
                    &&& final(self).children_of(r@[i]).dom().is_empty()
                    &&& final(self).alive(r@[i])
                    &&& final(self).data_of(r@[i]) == data@[i]
                    &&& final(self).index_of(r@[i]) == old(self).next_index() + i
                },
            forall|k: u64| #[trigger]
                final(self).children_of(parent).contains_key(k) <==> old(self).children_of(
                    parent,
                ).contains_key(k) || old(self).next_index() <= k < old(self).next_index()
                    + data@.len(),
            forall|k: u64| #[trigger]
                old(self).children_of(parent).contains_key(k) ==> final(self).children_of(parent)[k]
                    == old(self).children_of(parent)[k],
            forall|i: int|
                0 <= i < r@.len() ==> final(self).children_of(parent)[(old(self).next_index() + i) as u64]
                    == #[trigger] r@[i],
            Self::same_but_children(*old(self), *final(self), parent),
            forall|t: usize|
                t != parent && !r@.contains(t) ==> {
                    &&& #[trigger] final(self).present(t) == old(self).present(t)
                    &&& final(self).present(t) ==> final(self).node(t) == old(self).node(t)
                },
    {
        let mut data = data;
        let ghost all = data@;
        let ghost n0 = self.next_index();
        let mut out: Vec<usize> = Vec::new();
        while data.len() > 0
            invariant
                self.wf(),
                self.present(parent),
                out@.len() + data@.len() == all.len(),
                data@ == all.subrange(out@.len() as int, all.len() as int),
                self.next_index() == n0 + out@.len(),
                n0 + all.len() <= u64::MAX,
                n0 == old(self).next_index(),
                forall|i: int|
                    0 <= i < out@.len() ==> {
                        &&& !old(self).present(#[trigger] out@[i])
                        &&& self.present(out@[i])
                        &&& self.parent_of(out@[i]) == Some(parent)
                        &&& self.children_of(out@[i]).dom().is_empty()
                        &&& self.alive(out@[i])
                        &&& self.data_of(out@[i]) == all[i]
                        &&& self.index_of(out@[i]) == n0 + i
                    },
                forall|k: u64| #[trigger]
                    self.children_of(parent).contains_key(k) <==> old(self).children_of(
                        parent,
                    ).contains_key(k) || n0 <= k < n0 + out@.len(),
                forall|k: u64| #[trigger]
                    old(self).children_of(parent).contains_key(k) ==> self.children_of(parent)[k]
                        == old(self).children_of(parent)[k],
                forall|i: int|
                    0 <= i < out@.len() ==> self.children_of(parent)[(n0 + i) as u64] == #[trigger] out@[i],
                Self::same_but_children(*old(self), *self, parent),
                forall|t: usize|
                    t != parent && !out@.contains(t) ==> {
                        &&& #[trigger] self.present(t) == old(self).present(t)
                        &&& self.present(t) ==> self.node(t) == old(self).node(t)
                    },
            decreases data@.len(),
        {
            let d = data.remove(0);
            let ghost before = *self;
            let ghost before_out = out@;
            let c = self.fork(parent, d);
            out.push(c);
            proof {
                let m = before_out.len();
                assert(all[m as int] == d);
                assert(data@ =~= all.subrange(out@.len() as int, all.len() as int));
                assert(!old(self).present(c)) by {
                    if old(self).present(c) {
                        if !before_out.contains(c) {
                            assert(before.present(c) == old(self).present(c));
                        } else {
                            let i = choose|i: int| 0 <= i < before_out.len() && before_out[i] == c;
                            assert(before.present(before_out[i]));
                        }
                    }
                }
                assert forall|i: int| 0 <= i < out@.len() implies {
                    &&& !old(self).present(#[trigger] out@[i])
                    &&& self.present(out@[i])
                    &&& self.parent_of(out@[i]) == Some(parent)
                    &&& self.children_of(out@[i]).dom().is_empty()
                    &&& self.alive(out@[i])
                    &&& self.data_of(out@[i]) == all[i]
                    &&& self.index_of(out@[i]) == n0 + i
                } by {
                    if i < m {
                        let o = out@[i];
                        assert(o == before_out[i]);
                        assert(before.present(o));
                        assert(o != parent);
                        assert(o != c);
                        assert(self.present(o) == before.present(o));
                    }
                }
                assert forall|t: usize| t != parent && !out@.contains(t) implies {
                    &&& #[trigger] self.present(t) == old(self).present(t)
                    &&& self.present(t) ==> self.node(t) == old(self).node(t)
                } by {
                    assert(out@[m as int] == c);
                    assert(t != c);
                    assert(!before_out.contains(t)) by {
                        if before_out.contains(t) {
                            let i = choose|i: int| 0 <= i < before_out.len() && before_out[i] == t;
                            assert(out@[i] == t);
                        }
                    }
                    assert(self.present(t) == before.present(t));
                }
                assert forall|i: int| 0 <= i < out@.len() implies self.children_of(parent)[(n0 + i) as u64]
                    == #[trigger] out@[i] by {
                    if i < m {
                        assert(out@[i] == before_out[i]);
                    }
                }
            }
        }
        proof {
            assert(all.subrange(out@.len() as int, all.len() as int).len() == 0);
        }
        out
    }
}

/// The value of some entry of `m`: its only one, where it has one.
pub open spec fn only_entry(m: Map<u64, usize>) -> usize {
    m[choose|k: u64| m.contains_key(k)]
}


/// A map with one entry: `only_entry` gives that entry's value.
pub proof fn lemma_only_entry(m: Map<u64, usize>, k: u64)
    requires
        m.dom().finite(),
        m.len() == 1,
        m.contains_key(k),
    ensures
        only_entry(m) == m[k],
{
    let k1 = choose|k1: u64| m.contains_key(k1);
    assert(m.contains_key(k1));
    if k1 != k {
        assert(m.dom().remove(k).contains(k1));
        assert(m.dom().remove(k).len() == 0);
    }
}

/// `s` without the value `x`.
pub open spec fn without(s: Seq<usize>, x: usize) -> Seq<usize>
    decreases s.len(),
{
    if s.len() == 0 {
        s
    } else {
        let r = without(s.drop_first(), x);
        if s[0] == x {
            r
        } else {
            seq![s[0]] + r
        }
    }
}

/// Taking `x` out of a sequence with `a` in front.
pub proof fn lemma_without_cons(a: usize, rest: Seq<usize>, x: usize)
    ensures
        without(seq![a] + rest, x) == if a == x {
            without(rest, x)
        } else {
            seq![a] + without(rest, x)
        },
{
    assert((seq![a] + rest).drop_first() =~= rest);
}

/// Taking out a value that does not occur changes nothing.
pub proof fn lemma_without_absent(s: Seq<usize>, x: usize)
    requires
        !s.contains(x),
    ensures
        without(s, x) == s,
    decreases s.len(),
{
    if s.len() > 0 {
        assert(!s.drop_first().contains(x)) by {
            if s.drop_first().contains(x) {
                let i = choose|i: int| 0 <= i < s.drop_first().len() && s.drop_first()[i] == x;
                assert(s[i + 1] == x);
            }
        }
        lemma_without_absent(s.drop_first(), x);
        assert(s[0] != x);
        assert(seq![s[0]] + s.drop_first() =~= s);
    }
}

} // verus!
