pub mod backing;
pub mod common;
pub mod counter;
pub mod entries;
pub mod map;
pub mod multiplicity;

use vstd::prelude::*;

use common::{successor, Common};
use map::ChildrenMap;

verus! {

/// One node of a tree: its place in the tree, whether a handle still
/// refers to it, its index, and its data.
pub struct NodeInner<T> {
    pub parent: Option<usize>,
    pub children: ChildrenMap,
    pub alive: bool,
    pub index: u64,
    pub data: T,
}

impl<T> NodeInner<T> {
    /// A live node without children, under `parent`, with the next index
    /// of `common`.
    pub fn new(parent: Option<usize>, common: &mut Common, data: T) -> (r: Self)
        ensures
            r.parent == parent,
            r.children.wf(),
            r.children@ == Map::<u64, usize>::empty(),
            r.alive,
            r.index == old(common).next(),
            final(common).next() == successor(old(common).next()),
            r.data == data,
    {
        NodeInner {
            parent,
            children: ChildrenMap::new(),
            alive: true,
            index: common.next_node_index(),
            data,
        }
    }

    /// The node's data.
    pub fn data(&self) -> (r: &T)
        ensures
            *r == self.data,
    {
        &self.data
    }

    /// The slot of the node's parent, if it has one.
    pub fn parent(&self) -> (r: Option<usize>)
        ensures
            r == self.parent,
    {
        self.parent
    }

    /// A node without a parent.
    pub fn root(common: &mut Common, data: T) -> (r: Self)
        ensures
            r.parent is None,
            r.children.wf(),
            r.children@ == Map::<u64, usize>::empty(),
            r.alive,
            r.index == old(common).next(),
            final(common).next() == successor(old(common).next()),
            r.data == data,
    {
        Self::new(None, common, data)
    }

    /// A node under the parent in slot `parent`.
    pub fn child(parent: usize, common: &mut Common, data: T) -> (r: Self)
        ensures
            r.parent == Some(parent),
            r.children.wf(),
            r.children@ == Map::<u64, usize>::empty(),
            r.alive,
            r.index == old(common).next(),
            final(common).next() == successor(old(common).next()),
            r.data == data,
    {
        Self::new(Some(parent), common, data)
    }

    /// Records a child. Its index must not be recorded yet.
    pub fn insert_child(&mut self, index: u64, handle: usize)
        requires
            old(self).children.wf(),
            !old(self).children@.contains_key(index),
        ensures
            final(self).children.wf(),
            final(self).children@ == old(self).children@.insert(index, handle),
            final(self).parent == old(self).parent,
            final(self).alive == old(self).alive,
            final(self).index == old(self).index,
            final(self).data == old(self).data,
    {
        self.children.insert(index, handle);
    }
}

} // verus!
