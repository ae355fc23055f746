use vstd::prelude::*;

use crate::data::NodeData;
use crate::tree::Tree;

verus! {

/// Walks from a node up to the root, one slot per call of `next`.
pub struct TraverseIter {
    current: Option<usize>,
}

impl TraverseIter {
    /// The slot that the next call of `next` yields.
    pub closed spec fn current(&self) -> Option<usize> {
        self.current
    }

    /// A walk that starts at slot `start`.
    pub fn new(start: usize) -> (r: Self)
        ensures
            r.current() == Some(start),
    {
        TraverseIter { current: Some(start) }
    }

    /// Yields the current slot and moves to its parent; after the root,
    /// yields `None`.
    pub fn next<T: NodeData>(&mut self, tree: &Tree<T>) -> (r: Option<usize>)
        requires
            old(self).current() matches Some(c) ==> tree.wf() && tree.present(c),
        ensures
            r == old(self).current(),
            final(self).current() == (match r {
                Some(c) => tree.parent_of(c),
                None => None::<usize>,
            }),
            final(self).current() matches Some(p) ==> tree.present(p),
    {
        match self.current {
            Some(c) => {
                proof {
                    tree.lemma_path(c);
                }
                self.current = tree.parent(c);
                Some(c)
            },
            None => None,
        }
    }
}

impl<T: NodeData> Tree<T> {
    /// The slots from `s` up to the root, `s` first and the root last.
    pub fn traverse(&self, s: usize) -> (r: Vec<usize>)
        requires
            self.wf(),
            self.present(s),
        ensures
            r@ == self.path(s),
    {
        let mut out: Vec<usize> = Vec::new();
        let mut cur: Option<usize> = Some(s);
        while cur.is_some()
            invariant
                self.wf(),
                cur matches Some(c) ==> self.present(c) && out@ + self.path(c) == self.path(s),
                cur is None ==> out@ == self.path(s),
            decreases (match cur {
                Some(c) => self.index_of(c) + 1,
                None => 0,
            }),
        {
            let c = cur.unwrap();
            proof {
                self.lemma_path(c);
            }
            out.push(c);
            cur = self.parent(c);
            proof {
                match cur {
                    Some(p) => {
                        assert(out@ + self.path(p) =~= self.path(s));
                    },
                    None => {
                        assert(out@ =~= self.path(s));
                    },
                }
            }
        }
        out
    }

    /// `r` is what a walk from the node in slot `s` up to the root gives:
    /// `None` where `f` may give `None` on the data of every node on the
    /// way, else a value that `f` may give on the data of some node on the
    /// way, where it may give `None` on the data of every node before it.
    pub open spec fn searched<U, F: Fn(&T) -> Option<U>>(&self, s: usize, f: F, r: Option<U>) -> bool {
        &&& r is None ==> forall|i: int|
            0 <= i < self.path(s).len() ==> f.ensures(
                (&self.data_of(#[trigger] self.path(s)[i]),),
                None::<U>,
            )
        &&& r is Some ==> exists|i: int|
            0 <= i < self.path(s).len() && f.ensures((&self.data_of(#[trigger] self.path(s)[i]),), r)
                && forall|j: int|
                0 <= j < i ==> f.ensures((&self.data_of(#[trigger] self.path(s)[j]),), None::<U>)
    }

    /// Walks from the node in slot `s` up to the root and returns the first
    /// value that `f` gives that is not `None`. Each node on the way is
    /// visited once.
    pub fn search<U, F: Fn(&T) -> Option<U>>(&self, s: usize, f: F) -> (r: Option<U>)
        requires
            self.wf(),
            self.present(s),
            forall|i: int|
                0 <= i < self.path(s).len() ==> f.requires((&self.data_of(#[trigger] self.path(s)[i]),)),
        ensures
            self.searched(s, f, r),
    {
        let ghost full = self.path(s);
        let mut cur: Option<usize> = Some(s);
        let ghost mut k: int = 0;
        proof {
            self.lemma_path(s);
        }
        while cur.is_some()
            invariant
                self.wf(),
                self.present(s),
                full == self.path(s),
                forall|i: int| 0 <= i < full.len() ==> f.requires((&self.data_of(#[trigger] full[i]),)),
                0 <= k <= full.len(),
                cur matches Some(c) ==> k < full.len() && self.present(c) && self.path(c)
                    == full.subrange(k, full.len() as int),
                cur is None ==> k == full.len(),
                forall|j: int| 0 <= j < k ==> f.ensures((&self.data_of(#[trigger] full[j]),), None::<U>),
            decreases full.len() - k,
        {
            let c = cur.unwrap();
            let ghost here = full.subrange(k, full.len() as int);
            proof {
                self.lemma_path(c);
                assert(self.path(c) == here);
                assert(full[k] == self.path(c)[0]);
            }
            let found = f(self.data(c));
            match found {
                Some(u) => {
                    return Some(u);
                },
                None => {},
            }
            cur = self.parent(c);
            proof {
                match cur {
                    Some(p) => {
                        assert(here == seq![c] + self.path(p));
                        assert(self.path(p) =~= here.subrange(1, here.len() as int));
                        assert(self.path(p) =~= full.subrange(k + 1, full.len() as int));
                    },
                    None => {
                        assert(self.path(c) =~= seq![c]);
                    },
                }
                k = k + 1;
            }
        }
        None
    }

    /// Two searches from the same node of the same tree with the same `f`
    /// give the same result, where `f` gives one result for the data of
    /// each node on the way.
    pub proof fn lemma_search_deterministic<U, F: Fn(&T) -> Option<U>>(
        &self,
        s: usize,
        f: F,
        r1: Option<U>,
        r2: Option<U>,
    )
        requires
            self.searched(s, f, r1),
            self.searched(s, f, r2),
            forall|i: int, a: Option<U>, b: Option<U>|
                #![trigger f.ensures((&self.data_of(self.path(s)[i]),), a), f.ensures((&self.data_of(self.path(s)[i]),), b)]
                0 <= i < self.path(s).len() && f.ensures((&self.data_of(self.path(s)[i]),), a)
                    && f.ensures((&self.data_of(self.path(s)[i]),), b) ==> a == b,
        ensures
            r1 == r2,
    {
        let p = self.path(s);
        if r1 is Some && r2 is Some {
            let i = choose|i: int|
                0 <= i < p.len() && f.ensures((&self.data_of(#[trigger] p[i]),), r1) && forall|j: int|
                    0 <= j < i ==> f.ensures((&self.data_of(#[trigger] p[j]),), None::<U>);
            let k = choose|k: int|
                0 <= k < p.len() && f.ensures((&self.data_of(#[trigger] p[k]),), r2) && forall|j: int|
                    0 <= j < k ==> f.ensures((&self.data_of(#[trigger] p[j]),), None::<U>);
            if i < k {
                assert(f.ensures((&self.data_of(p[i]),), None::<U>));
            } else if k < i {
                assert(f.ensures((&self.data_of(p[k]),), None::<U>));
            }
        } else if r1 is Some {
            let i = choose|i: int|
                0 <= i < p.len() && f.ensures((&self.data_of(#[trigger] p[i]),), r1) && forall|j: int|
                    0 <= j < i ==> f.ensures((&self.data_of(#[trigger] p[j]),), None::<U>);
            assert(f.ensures((&self.data_of(p[i]),), None::<U>));
        } else if r2 is Some {
            let k = choose|k: int|
                0 <= k < p.len() && f.ensures((&self.data_of(#[trigger] p[k]),), r2) && forall|j: int|
                    0 <= j < k ==> f.ensures((&self.data_of(#[trigger] p[j]),), None::<U>);
            assert(f.ensures((&self.data_of(p[k]),), None::<U>));
        }
    }

    /// A search offers `f` the data of every node on the path from `s` to
    /// the root, dead nodes included, nearest first: where `f` gives only
    /// `None` on the nodes before position `i` and only `Some(u)` on the
    /// node at position `i`, live or dead, the search gives `Some(u)`.
    pub proof fn lemma_search_finds_first<U, F: Fn(&T) -> Option<U>>(
        &self,
        s: usize,
        f: F,
        r: Option<U>,
        i: int,
        u: U,
    )
        requires
            self.searched(s, f, r),
            0 <= i < self.path(s).len(),
            forall|v: Option<U>| #[trigger]
                f.ensures((&self.data_of(self.path(s)[i]),), v) ==> v == Some(u),
            f.ensures((&self.data_of(self.path(s)[i]),), Some(u)),
            forall|j: int, v: Option<U>|
                0 <= j < i && #[trigger] f.ensures((&self.data_of(self.path(s)[j]),), v) ==> v is None,
        ensures
            r == Some(u),
    {
        let p = self.path(s);
        if r is None {
            assert(f.ensures((&self.data_of(p[i]),), None::<U>));
        } else {
            let k = choose|k: int|
                0 <= k < p.len() && f.ensures((&self.data_of(#[trigger] p[k]),), r) && forall|j: int|
                    0 <= j < k ==> f.ensures((&self.data_of(#[trigger] p[j]),), None::<U>);
            if k < i {
                assert(f.ensures((&self.data_of(p[k]),), r));
            } else if k > i {
                assert(f.ensures((&self.data_of(p[i]),), None::<U>));
            }
        }
    }

    /// A search gives `None` only where `f` may give `None` on the data of
    /// every node on the path from `s` to the root, dead nodes included.
    pub proof fn lemma_search_none_means_no_match<U, F: Fn(&T) -> Option<U>>(
        &self,
        s: usize,
        f: F,
        i: int,
    )
        requires
            self.searched(s, f, None),
            0 <= i < self.path(s).len(),
        ensures
            f.ensures((&self.data_of(self.path(s)[i]),), None::<U>),
    {
    }
}

} // verus!
