use vstd::prelude::*;
use vstd::string::StringExecFns;

verus! {

/// Folds a child's data into its parent when the child is removed.
///
/// `merges_to(parent, child, merged)` states what `merge` leaves in the
/// parent: each implementation gives it for its own type.
pub trait Merge: Sized {
    /// Holds when `merged` is a value that folding `child` into `parent`
    /// may leave in the parent. A type that does not say more admits any
    /// value.
    open spec fn merges_to(parent: Self, child: Self, merged: Self) -> bool {
        true
    }

    /// Merges `child` into `parent`.
    fn merge(parent: &mut Self, child: Self)
        ensures
            Self::merges_to(*old(parent), child, *final(parent)),
    ;
}

/// Inverse merge: folds a parent's data into its child. Available for
/// every [`Merge`] type and used when a single-child parent is collapsed
/// downward.
pub trait MergeInv: Merge {
    /// Merges `parent` into `child`: the child ends up holding what
    /// merging the old child into the parent would leave in the parent.
    fn merge_inv(child: &mut Self, parent: Self)
        ensures
            Self::merges_to(parent, *old(child), *final(child)),
    ;
}

impl<T: Merge> MergeInv for T {
    fn merge_inv(child: &mut Self, parent: Self) {
        let mut old_child = parent;
        std::mem::swap(child, &mut old_child);
        Merge::merge(child, old_child);
    }
}

impl Merge for () {
    open spec fn merges_to(parent: Self, child: Self, merged: Self) -> bool {
        true
    }

    fn merge(parent: &mut Self, child: Self) {
    }
}

impl<T: Merge> Merge for Box<T> {
    open spec fn merges_to(parent: Self, child: Self, merged: Self) -> bool {
        T::merges_to(*parent, *child, *merged)
    }

    fn merge(parent: &mut Self, child: Self) {
        Merge::merge(&mut **parent, *child);
    }
}

impl<T: Merge> Merge for Option<T> {
    open spec fn merges_to(parent: Self, child: Self, merged: Self) -> bool {
        match (parent, child) {
            (_, None) => merged == parent,
            (None, Some(c)) => merged == Some(c),
            (Some(p), Some(c)) => merged is Some && T::merges_to(p, c, merged->0),
        }
    }

    fn merge(parent: &mut Self, child: Self) {
        match child {
            None => {},
            Some(c) => {
                match parent {
                    None => {
                        *parent = Some(c);
                    },
                    Some(p) => {
                        Merge::merge(p, c);
                    },
                }
            },
        }
    }
}

impl Merge for String {
    open spec fn merges_to(parent: Self, child: Self, merged: Self) -> bool {
        merged@ == parent@ + child@
    }

    fn merge(parent: &mut Self, child: Self) {
        parent.append(child.as_str());
    }
}

impl<T> Merge for Vec<T> {
    open spec fn merges_to(parent: Self, child: Self, merged: Self) -> bool {
        merged@ == parent@ + child@
    }

    fn merge(parent: &mut Self, child: Self) {
        let mut child = child;
        parent.append(&mut child);
    }
}

/// `Vec::from` on an array: the array's elements, in order.
#[verifier::external_body]
fn array_into_vec<T, const N: usize>(a: [T; N]) -> (r: Vec<T>)
    ensures
        r@ == a@,
{
    Vec::from(a)
}

impl<T: Merge, const N: usize> Merge for [T; N] {
    /// Elements merge pairwise.
    open spec fn merges_to(parent: Self, child: Self, merged: Self) -> bool {
        forall|i: int| 0 <= i < N ==> T::merges_to(#[trigger] parent[i], child[i], merged[i])
    }

    fn merge(parent: &mut Self, child: Self) {
        let mut items = array_into_vec(child);
        let ghost c0 = child;
        let ghost p0 = *parent;
        let mut i: usize = 0;
        while i < N
            invariant
                0 <= i <= N,
                items@ == c0@.subrange(i as int, N as int),
                forall|j: int| i <= j < N ==> #[trigger] parent[j] == p0[j],
                forall|j: int| 0 <= j < i ==> T::merges_to(#[trigger] p0[j], c0[j], parent[j]),
            decreases N - i,
        {
            let c = items.remove(0);
            Merge::merge(&mut parent[i], c);
            i += 1;
            proof {
                assert(items@ =~= c0@.subrange(i as int, N as int));
            }
        }
    }
}

impl<T> Merge for std::marker::PhantomData<T> {
    open spec fn merges_to(parent: Self, child: Self, merged: Self) -> bool {
        true
    }

    fn merge(parent: &mut Self, child: Self) {
    }
}

impl<A: Merge> Merge for (A,) {
    /// Each component merges on its own.
    open spec fn merges_to(parent: Self, child: Self, merged: Self) -> bool {
        &&& A::merges_to(parent.0, child.0, merged.0)
    }

    fn merge(parent: &mut Self, child: Self) {
        Merge::merge(&mut parent.0, child.0);
    }
}

impl<A: Merge, B: Merge> Merge for (A, B) {
    /// Each component merges on its own.
    open spec fn merges_to(parent: Self, child: Self, merged: Self) -> bool {
        &&& A::merges_to(parent.0, child.0, merged.0)
        &&& B::merges_to(parent.1, child.1, merged.1)
    }

    fn merge(parent: &mut Self, child: Self) {
        Merge::merge(&mut parent.0, child.0);
        Merge::merge(&mut parent.1, child.1);
    }
}

impl<A: Merge, B: Merge, C: Merge> Merge for (A, B, C) {
    /// Each component merges on its own.
    open spec fn merges_to(parent: Self, child: Self, merged: Self) -> bool {
        &&& A::merges_to(parent.0, child.0, merged.0)
        &&& B::merges_to(parent.1, child.1, merged.1)
        &&& C::merges_to(parent.2, child.2, merged.2)
    }

    fn merge(parent: &mut Self, child: Self) {
        Merge::merge(&mut parent.0, child.0);
        Merge::merge(&mut parent.1, child.1);
        Merge::merge(&mut parent.2, child.2);
    }
}

impl<A: Merge, B: Merge, C: Merge, D: Merge> Merge for (A, B, C, D) {
    /// Each component merges on its own.
    open spec fn merges_to(parent: Self, child: Self, merged: Self) -> bool {
        &&& A::merges_to(parent.0, child.0, merged.0)
        &&& B::merges_to(parent.1, child.1, merged.1)
        &&& C::merges_to(parent.2, child.2, merged.2)
        &&& D::merges_to(parent.3, child.3, merged.3)
    }

    fn merge(parent: &mut Self, child: Self) {
        Merge::merge(&mut parent.0, child.0);
        Merge::merge(&mut parent.1, child.1);
        Merge::merge(&mut parent.2, child.2);
        Merge::merge(&mut parent.3, child.3);
    }
}

impl<A: Merge, B: Merge, C: Merge, D: Merge, E: Merge> Merge for (A, B, C, D, E) {
    /// Each component merges on its own.
    open spec fn merges_to(parent: Self, child: Self, merged: Self) -> bool {
        &&& A::merges_to(parent.0, child.0, merged.0)
        &&& B::merges_to(parent.1, child.1, merged.1)
        &&& C::merges_to(parent.2, child.2, merged.2)
        &&& D::merges_to(parent.3, child.3, merged.3)
        &&& E::merges_to(parent.4, child.4, merged.4)
    }

    fn merge(parent: &mut Self, child: Self) {
        Merge::merge(&mut parent.0, child.0);
        Merge::merge(&mut parent.1, child.1);
        Merge::merge(&mut parent.2, child.2);
        Merge::merge(&mut parent.3, child.3);
        Merge::merge(&mut parent.4, child.4);
    }
}

impl<A: Merge, B: Merge, C: Merge, D: Merge, E: Merge, F: Merge> Merge for (A, B, C, D, E, F) {
    /// Each component merges on its own.
    open spec fn merges_to(parent: Self, child: Self, merged: Self) -> bool {
        &&& A::merges_to(parent.0, child.0, merged.0)
        &&& B::merges_to(parent.1, child.1, merged.1)
        &&& C::merges_to(parent.2, child.2, merged.2)
        &&& D::merges_to(parent.3, child.3, merged.3)
        &&& E::merges_to(parent.4, child.4, merged.4)
        &&& F::merges_to(parent.5, child.5, merged.5)
    }

    fn merge(parent: &mut Self, child: Self) {
        Merge::merge(&mut parent.0, child.0);
        Merge::merge(&mut parent.1, child.1);
        Merge::merge(&mut parent.2, child.2);
        Merge::merge(&mut parent.3, child.3);
        Merge::merge(&mut parent.4, child.4);
        Merge::merge(&mut parent.5, child.5);
    }
}

impl<A: Merge, B: Merge, C: Merge, D: Merge, E: Merge, F: Merge, G: Merge> Merge for (A, B, C, D, E, F, G) {
    /// Each component merges on its own.
    open spec fn merges_to(parent: Self, child: Self, merged: Self) -> bool {
        &&& A::merges_to(parent.0, child.0, merged.0)
        &&& B::merges_to(parent.1, child.1, merged.1)
        &&& C::merges_to(parent.2, child.2, merged.2)
        &&& D::merges_to(parent.3, child.3, merged.3)
        &&& E::merges_to(parent.4, child.4, merged.4)
        &&& F::merges_to(parent.5, child.5, merged.5)
        &&& G::merges_to(parent.6, child.6, merged.6)
    }

    fn merge(parent: &mut Self, child: Self) {
        Merge::merge(&mut parent.0, child.0);
        Merge::merge(&mut parent.1, child.1);
        Merge::merge(&mut parent.2, child.2);
        Merge::merge(&mut parent.3, child.3);
        Merge::merge(&mut parent.4, child.4);
        Merge::merge(&mut parent.5, child.5);
        Merge::merge(&mut parent.6, child.6);
    }
}

impl<A: Merge, B: Merge, C: Merge, D: Merge, E: Merge, F: Merge, G: Merge, H: Merge> Merge for (A, B, C, D, E, F, G, H) {
    /// Each component merges on its own.
    open spec fn merges_to(parent: Self, child: Self, merged: Self) -> bool {
        &&& A::merges_to(parent.0, child.0, merged.0)
        &&& B::merges_to(parent.1, child.1, merged.1)
        &&& C::merges_to(parent.2, child.2, merged.2)
        &&& D::merges_to(parent.3, child.3, merged.3)
        &&& E::merges_to(parent.4, child.4, merged.4)
        &&& F::merges_to(parent.5, child.5, merged.5)
        &&& G::merges_to(parent.6, child.6, merged.6)
        &&& H::merges_to(parent.7, child.7, merged.7)
    }

    fn merge(parent: &mut Self, child: Self) {
        Merge::merge(&mut parent.0, child.0);
        Merge::merge(&mut parent.1, child.1);
        Merge::merge(&mut parent.2, child.2);
        Merge::merge(&mut parent.3, child.3);
        Merge::merge(&mut parent.4, child.4);
        Merge::merge(&mut parent.5, child.5);
        Merge::merge(&mut parent.6, child.6);
        Merge::merge(&mut parent.7, child.7);
    }
}

impl<A: Merge, B: Merge, C: Merge, D: Merge, E: Merge, F: Merge, G: Merge, H: Merge, I: Merge> Merge for (A, B, C, D, E, F, G, H, I) {
    /// Each component merges on its own.
    open spec fn merges_to(parent: Self, child: Self, merged: Self) -> bool {
        &&& A::merges_to(parent.0, child.0, merged.0)
        &&& B::merges_to(parent.1, child.1, merged.1)
        &&& C::merges_to(parent.2, child.2, merged.2)
        &&& D::merges_to(parent.3, child.3, merged.3)
        &&& E::merges_to(parent.4, child.4, merged.4)
        &&& F::merges_to(parent.5, child.5, merged.5)
        &&& G::merges_to(parent.6, child.6, merged.6)
        &&& H::merges_to(parent.7, child.7, merged.7)
        &&& I::merges_to(parent.8, child.8, merged.8)
    }

    fn merge(parent: &mut Self, child: Self) {
        Merge::merge(&mut parent.0, child.0);
        Merge::merge(&mut parent.1, child.1);
        Merge::merge(&mut parent.2, child.2);
        Merge::merge(&mut parent.3, child.3);
        Merge::merge(&mut parent.4, child.4);
        Merge::merge(&mut parent.5, child.5);
        Merge::merge(&mut parent.6, child.6);
        Merge::merge(&mut parent.7, child.7);
        Merge::merge(&mut parent.8, child.8);
    }
}

impl<A: Merge, B: Merge, C: Merge, D: Merge, E: Merge, F: Merge, G: Merge, H: Merge, I: Merge, J: Merge> Merge for (A, B, C, D, E, F, G, H, I, J) {
    /// Each component merges on its own.
    open spec fn merges_to(parent: Self, child: Self, merged: Self) -> bool {
        &&& A::merges_to(parent.0, child.0, merged.0)
        &&& B::merges_to(parent.1, child.1, merged.1)
        &&& C::merges_to(parent.2, child.2, merged.2)
        &&& D::merges_to(parent.3, child.3, merged.3)
        &&& E::merges_to(parent.4, child.4, merged.4)
        &&& F::merges_to(parent.5, child.5, merged.5)
        &&& G::merges_to(parent.6, child.6, merged.6)
        &&& H::merges_to(parent.7, child.7, merged.7)
        &&& I::merges_to(parent.8, child.8, merged.8)
        &&& J::merges_to(parent.9, child.9, merged.9)
    }

    fn merge(parent: &mut Self, child: Self) {
        Merge::merge(&mut parent.0, child.0);
        Merge::merge(&mut parent.1, child.1);
        Merge::merge(&mut parent.2, child.2);
        Merge::merge(&mut parent.3, child.3);
        Merge::merge(&mut parent.4, child.4);
        Merge::merge(&mut parent.5, child.5);
        Merge::merge(&mut parent.6, child.6);
        Merge::merge(&mut parent.7, child.7);
        Merge::merge(&mut parent.8, child.8);
        Merge::merge(&mut parent.9, child.9);
    }
}

impl<A: Merge, B: Merge, C: Merge, D: Merge, E: Merge, F: Merge, G: Merge, H: Merge, I: Merge, J: Merge, K: Merge> Merge for (A, B, C, D, E, F, G, H, I, J, K) {
    /// Each component merges on its own.
    open spec fn merges_to(parent: Self, child: Self, merged: Self) -> bool {
        &&& A::merges_to(parent.0, child.0, merged.0)
        &&& B::merges_to(parent.1, child.1, merged.1)
        &&& C::merges_to(parent.2, child.2, merged.2)
        &&& D::merges_to(parent.3, child.3, merged.3)
        &&& E::merges_to(parent.4, child.4, merged.4)
        &&& F::merges_to(parent.5, child.5, merged.5)
        &&& G::merges_to(parent.6, child.6, merged.6)
        &&& H::merges_to(parent.7, child.7, merged.7)
        &&& I::merges_to(parent.8, child.8, merged.8)
        &&& J::merges_to(parent.9, child.9, merged.9)
        &&& K::merges_to(parent.10, child.10, merged.10)
    }

    fn merge(parent: &mut Self, child: Self) {
        Merge::merge(&mut parent.0, child.0);
        Merge::merge(&mut parent.1, child.1);
        Merge::merge(&mut parent.2, child.2);
        Merge::merge(&mut parent.3, child.3);
        Merge::merge(&mut parent.4, child.4);
        Merge::merge(&mut parent.5, child.5);
        Merge::merge(&mut parent.6, child.6);
        Merge::merge(&mut parent.7, child.7);
        Merge::merge(&mut parent.8, child.8);
        Merge::merge(&mut parent.9, child.9);
        Merge::merge(&mut parent.10, child.10);
    }
}

impl<A: Merge, B: Merge, C: Merge, D: Merge, E: Merge, F: Merge, G: Merge, H: Merge, I: Merge, J: Merge, K: Merge, L: Merge> Merge for (A, B, C, D, E, F, G, H, I, J, K, L) {
    /// Each component merges on its own.
    open spec fn merges_to(parent: Self, child: Self, merged: Self) -> bool {
        &&& A::merges_to(parent.0, child.0, merged.0)
        &&& B::merges_to(parent.1, child.1, merged.1)
        &&& C::merges_to(parent.2, child.2, merged.2)
        &&& D::merges_to(parent.3, child.3, merged.3)
        &&& E::merges_to(parent.4, child.4, merged.4)
        &&& F::merges_to(parent.5, child.5, merged.5)
        &&& G::merges_to(parent.6, child.6, merged.6)
        &&& H::merges_to(parent.7, child.7, merged.7)
        &&& I::merges_to(parent.8, child.8, merged.8)
        &&& J::merges_to(parent.9, child.9, merged.9)
        &&& K::merges_to(parent.10, child.10, merged.10)
        &&& L::merges_to(parent.11, child.11, merged.11)
    }

    fn merge(parent: &mut Self, child: Self) {
        Merge::merge(&mut parent.0, child.0);
        Merge::merge(&mut parent.1, child.1);
        Merge::merge(&mut parent.2, child.2);
        Merge::merge(&mut parent.3, child.3);
        Merge::merge(&mut parent.4, child.4);
        Merge::merge(&mut parent.5, child.5);
        Merge::merge(&mut parent.6, child.6);
        Merge::merge(&mut parent.7, child.7);
        Merge::merge(&mut parent.8, child.8);
        Merge::merge(&mut parent.9, child.9);
        Merge::merge(&mut parent.10, child.10);
        Merge::merge(&mut parent.11, child.11);
    }
}

impl<A: Merge, B: Merge, C: Merge, D: Merge, E: Merge, F: Merge, G: Merge, H: Merge, I: Merge, J: Merge, K: Merge, L: Merge, M: Merge> Merge for (A, B, C, D, E, F, G, H, I, J, K, L, M) {
    /// Each component merges on its own.
    open spec fn merges_to(parent: Self, child: Self, merged: Self) -> bool {
        &&& A::merges_to(parent.0, child.0, merged.0)
        &&& B::merges_to(parent.1, child.1, merged.1)
        &&& C::merges_to(parent.2, child.2, merged.2)
        &&& D::merges_to(parent.3, child.3, merged.3)
        &&& E::merges_to(parent.4, child.4, merged.4)
        &&& F::merges_to(parent.5, child.5, merged.5)
        &&& G::merges_to(parent.6, child.6, merged.6)
        &&& H::merges_to(parent.7, child.7, merged.7)
        &&& I::merges_to(parent.8, child.8, merged.8)
        &&& J::merges_to(parent.9, child.9, merged.9)
        &&& K::merges_to(parent.10, child.10, merged.10)
        &&& L::merges_to(parent.11, child.11, merged.11)
        &&& M::merges_to(parent.12, child.12, merged.12)
    }

    fn merge(parent: &mut Self, child: Self) {
        Merge::merge(&mut parent.0, child.0);
        Merge::merge(&mut parent.1, child.1);
        Merge::merge(&mut parent.2, child.2);
        Merge::merge(&mut parent.3, child.3);
        Merge::merge(&mut parent.4, child.4);
        Merge::merge(&mut parent.5, child.5);
        Merge::merge(&mut parent.6, child.6);
        Merge::merge(&mut parent.7, child.7);
        Merge::merge(&mut parent.8, child.8);
        Merge::merge(&mut parent.9, child.9);
        Merge::merge(&mut parent.10, child.10);
        Merge::merge(&mut parent.11, child.11);
        Merge::merge(&mut parent.12, child.12);
    }
}

impl<A: Merge, B: Merge, C: Merge, D: Merge, E: Merge, F: Merge, G: Merge, H: Merge, I: Merge, J: Merge, K: Merge, L: Merge, M: Merge, N: Merge> Merge for (A, B, C, D, E, F, G, H, I, J, K, L, M, N) {
    /// Each component merges on its own.
    open spec fn merges_to(parent: Self, child: Self, merged: Self) -> bool {
        &&& A::merges_to(parent.0, child.0, merged.0)
        &&& B::merges_to(parent.1, child.1, merged.1)
        &&& C::merges_to(parent.2, child.2, merged.2)
        &&& D::merges_to(parent.3, child.3, merged.3)
        &&& E::merges_to(parent.4, child.4, merged.4)
        &&& F::merges_to(parent.5, child.5, merged.5)
        &&& G::merges_to(parent.6, child.6, merged.6)
        &&& H::merges_to(parent.7, child.7, merged.7)
        &&& I::merges_to(parent.8, child.8, merged.8)
        &&& J::merges_to(parent.9, child.9, merged.9)
        &&& K::merges_to(parent.10, child.10, merged.10)
        &&& L::merges_to(parent.11, child.11, merged.11)
        &&& M::merges_to(parent.12, child.12, merged.12)
        &&& N::merges_to(parent.13, child.13, merged.13)
    }

    fn merge(parent: &mut Self, child: Self) {
        Merge::merge(&mut parent.0, child.0);
        Merge::merge(&mut parent.1, child.1);
        Merge::merge(&mut parent.2, child.2);
        Merge::merge(&mut parent.3, child.3);
        Merge::merge(&mut parent.4, child.4);
        Merge::merge(&mut parent.5, child.5);
        Merge::merge(&mut parent.6, child.6);
        Merge::merge(&mut parent.7, child.7);
        Merge::merge(&mut parent.8, child.8);
        Merge::merge(&mut parent.9, child.9);
        Merge::merge(&mut parent.10, child.10);
        Merge::merge(&mut parent.11, child.11);
        Merge::merge(&mut parent.12, child.12);
        Merge::merge(&mut parent.13, child.13);
    }
}

impl<A: Merge, B: Merge, C: Merge, D: Merge, E: Merge, F: Merge, G: Merge, H: Merge, I: Merge, J: Merge, K: Merge, L: Merge, M: Merge, N: Merge, O: Merge> Merge for (A, B, C, D, E, F, G, H, I, J, K, L, M, N, O) {
    /// Each component merges on its own.
    open spec fn merges_to(parent: Self, child: Self, merged: Self) -> bool {
        &&& A::merges_to(parent.0, child.0, merged.0)
        &&& B::merges_to(parent.1, child.1, merged.1)
        &&& C::merges_to(parent.2, child.2, merged.2)
        &&& D::merges_to(parent.3, child.3, merged.3)
        &&& E::merges_to(parent.4, child.4, merged.4)
        &&& F::merges_to(parent.5, child.5, merged.5)
        &&& G::merges_to(parent.6, child.6, merged.6)
        &&& H::merges_to(parent.7, child.7, merged.7)
        &&& I::merges_to(parent.8, child.8, merged.8)
        &&& J::merges_to(parent.9, child.9, merged.9)
        &&& K::merges_to(parent.10, child.10, merged.10)
        &&& L::merges_to(parent.11, child.11, merged.11)
        &&& M::merges_to(parent.12, child.12, merged.12)
        &&& N::merges_to(parent.13, child.13, merged.13)
        &&& O::merges_to(parent.14, child.14, merged.14)
    }

    fn merge(parent: &mut Self, child: Self) {
        Merge::merge(&mut parent.0, child.0);
        Merge::merge(&mut parent.1, child.1);
        Merge::merge(&mut parent.2, child.2);
        Merge::merge(&mut parent.3, child.3);
        Merge::merge(&mut parent.4, child.4);
        Merge::merge(&mut parent.5, child.5);
        Merge::merge(&mut parent.6, child.6);
        Merge::merge(&mut parent.7, child.7);
        Merge::merge(&mut parent.8, child.8);
        Merge::merge(&mut parent.9, child.9);
        Merge::merge(&mut parent.10, child.10);
        Merge::merge(&mut parent.11, child.11);
        Merge::merge(&mut parent.12, child.12);
        Merge::merge(&mut parent.13, child.13);
        Merge::merge(&mut parent.14, child.14);
    }
}

impl<A: Merge, B: Merge, C: Merge, D: Merge, E: Merge, F: Merge, G: Merge, H: Merge, I: Merge, J: Merge, K: Merge, L: Merge, M: Merge, N: Merge, O: Merge, P: Merge> Merge for (A, B, C, D, E, F, G, H, I, J, K, L, M, N, O, P) {
    /// Each component merges on its own.
    open spec fn merges_to(parent: Self, child: Self, merged: Self) -> bool {
        &&& A::merges_to(parent.0, child.0, merged.0)
        &&& B::merges_to(parent.1, child.1, merged.1)
        &&& C::merges_to(parent.2, child.2, merged.2)
        &&& D::merges_to(parent.3, child.3, merged.3)
        &&& E::merges_to(parent.4, child.4, merged.4)
        &&& F::merges_to(parent.5, child.5, merged.5)
        &&& G::merges_to(parent.6, child.6, merged.6)
        &&& H::merges_to(parent.7, child.7, merged.7)
        &&& I::merges_to(parent.8, child.8, merged.8)
        &&& J::merges_to(parent.9, child.9, merged.9)
        &&& K::merges_to(parent.10, child.10, merged.10)
        &&& L::merges_to(parent.11, child.11, merged.11)
        &&& M::merges_to(parent.12, child.12, merged.12)
        &&& N::merges_to(parent.13, child.13, merged.13)
        &&& O::merges_to(parent.14, child.14, merged.14)
        &&& P::merges_to(parent.15, child.15, merged.15)
    }

    fn merge(parent: &mut Self, child: Self) {
        Merge::merge(&mut parent.0, child.0);
        Merge::merge(&mut parent.1, child.1);
        Merge::merge(&mut parent.2, child.2);
        Merge::merge(&mut parent.3, child.3);
        Merge::merge(&mut parent.4, child.4);
        Merge::merge(&mut parent.5, child.5);
        Merge::merge(&mut parent.6, child.6);
        Merge::merge(&mut parent.7, child.7);
        Merge::merge(&mut parent.8, child.8);
        Merge::merge(&mut parent.9, child.9);
        Merge::merge(&mut parent.10, child.10);
        Merge::merge(&mut parent.11, child.11);
        Merge::merge(&mut parent.12, child.12);
        Merge::merge(&mut parent.13, child.13);
        Merge::merge(&mut parent.14, child.14);
        Merge::merge(&mut parent.15, child.15);
    }
}


/// Merging vectors appends: the child's elements follow the parent's, in
/// order, and nothing else is added or lost.
pub proof fn lemma_vec_merge_appends<T>(parent: Vec<T>, child: Vec<T>, merged: Vec<T>)
    requires
        Merge::merges_to(parent, child, merged),
    ensures
        merged@.len() == parent@.len() + child@.len(),
        forall|i: int| 0 <= i < parent@.len() ==> #[trigger] merged@[i] == parent@[i],
        forall|j: int| 0 <= j < child@.len() ==> #[trigger] merged@[parent@.len() + j] == child@[j],
{
}

/// Merging strings appends: the child's characters follow the parent's.
pub proof fn lemma_string_merge_appends(parent: String, child: String, merged: String)
    requires
        Merge::merges_to(parent, child, merged),
    ensures
        merged@.len() == parent@.len() + child@.len(),
        merged@.subrange(0, parent@.len() as int) == parent@,
        merged@.subrange(parent@.len() as int, merged@.len() as int) == child@,
{
    assert(merged@.subrange(0, parent@.len() as int) =~= parent@);
    assert(merged@.subrange(parent@.len() as int, merged@.len() as int) =~= child@);
}

/// Merging options: a missing child leaves the parent as it was, a missing
/// parent takes the child, and two values merge.
pub proof fn lemma_option_merge<T: Merge>(parent: Option<T>, child: Option<T>, merged: Option<T>)
    requires
        Merge::merges_to(parent, child, merged),
    ensures
        child is None ==> merged == parent,
        parent is None ==> merged == child,
        parent is Some && child is Some ==> merged is Some && T::merges_to(
            parent->0,
            child->0,
            merged->0,
        ),
{
}

/// Merging boxes merges what they hold.
pub proof fn lemma_box_merge<T: Merge>(parent: Box<T>, child: Box<T>, merged: Box<T>)
    requires
        Merge::merges_to(parent, child, merged),
    ensures
        T::merges_to(*parent, *child, *merged),
{
}

/// Merging arrays merges them position by position: every element of the
/// result, at every position, is its parent element merged with the
/// child element at the same position.
pub proof fn lemma_array_merge_elementwise<T: Merge, const N: usize>(
    parent: [T; N],
    child: [T; N],
    merged: [T; N],
    i: int,
)
    requires
        Merge::merges_to(parent, child, merged),
        0 <= i < N,
    ensures
        T::merges_to(parent[i], child[i], merged[i]),
{
}

/// Merging arrays of vectors appends at every position.
pub proof fn lemma_array_of_vecs_merge<E, const N: usize>(
    parent: [Vec<E>; N],
    child: [Vec<E>; N],
    merged: [Vec<E>; N],
)
    requires
        Merge::merges_to(parent, child, merged),
    ensures
        forall|i: int| 0 <= i < N ==> #[trigger] merged[i]@ == parent[i]@ + child[i]@,
{
    assert forall|i: int| 0 <= i < N implies #[trigger] merged[i]@ == parent[i]@ + child[i]@ by {
        lemma_array_merge_elementwise(parent, child, merged, i);
    }
}

/// Merging a pair of vectors appends in both components.
pub proof fn lemma_pair_of_vecs_merge<A, B>(
    parent: (Vec<A>, Vec<B>),
    child: (Vec<A>, Vec<B>),
    merged: (Vec<A>, Vec<B>),
)
    requires
        Merge::merges_to(parent, child, merged),
    ensures
        merged.0@ == parent.0@ + child.0@,
        merged.1@ == parent.1@ + child.1@,
{
}

/// Merging a tuple of 1 merges every component on its own, none left
/// out.
pub proof fn lemma_tuple1_merge_componentwise<A: Merge>(parent: (A,), child: (A,), merged: (A,))
    requires
        Merge::merges_to(parent, child, merged),
    ensures
        A::merges_to(parent.0, child.0, merged.0),
{
}

/// Merging a tuple of 2 merges every component on its own, none left
/// out.
pub proof fn lemma_tuple2_merge_componentwise<A: Merge, B: Merge>(parent: (A, B), child: (A, B), merged: (A, B))
    requires
        Merge::merges_to(parent, child, merged),
    ensures
        A::merges_to(parent.0, child.0, merged.0),
        B::merges_to(parent.1, child.1, merged.1),
{
}

/// Merging a tuple of 3 merges every component on its own, none left
/// out.
pub proof fn lemma_tuple3_merge_componentwise<A: Merge, B: Merge, C: Merge>(parent: (A, B, C), child: (A, B, C), merged: (A, B, C))
    requires
        Merge::merges_to(parent, child, merged),
    ensures
        A::merges_to(parent.0, child.0, merged.0),
        B::merges_to(parent.1, child.1, merged.1),
        C::merges_to(parent.2, child.2, merged.2),
{
}

/// Merging a tuple of 4 merges every component on its own, none left
/// out.
pub proof fn lemma_tuple4_merge_componentwise<A: Merge, B: Merge, C: Merge, D: Merge>(parent: (A, B, C, D), child: (A, B, C, D), merged: (A, B, C, D))
    requires
        Merge::merges_to(parent, child, merged),
    ensures
        A::merges_to(parent.0, child.0, merged.0),
        B::merges_to(parent.1, child.1, merged.1),
        C::merges_to(parent.2, child.2, merged.2),
        D::merges_to(parent.3, child.3, merged.3),
{
}

/// Merging a tuple of 5 merges every component on its own, none left
/// out.
pub proof fn lemma_tuple5_merge_componentwise<A: Merge, B: Merge, C: Merge, D: Merge, E: Merge>(parent: (A, B, C, D, E), child: (A, B, C, D, E), merged: (A, B, C, D, E))
    requires
        Merge::merges_to(parent, child, merged),
    ensures
        A::merges_to(parent.0, child.0, merged.0),
        B::merges_to(parent.1, child.1, merged.1),
        C::merges_to(parent.2, child.2, merged.2),
        D::merges_to(parent.3, child.3, merged.3),
        E::merges_to(parent.4, child.4, merged.4),
{
}

/// Merging a tuple of 6 merges every component on its own, none left
/// out.
pub proof fn lemma_tuple6_merge_componentwise<A: Merge, B: Merge, C: Merge, D: Merge, E: Merge, F: Merge>(parent: (A, B, C, D, E, F), child: (A, B, C, D, E, F), merged: (A, B, C, D, E, F))
    requires
        Merge::merges_to(parent, child, merged),
    ensures
        A::merges_to(parent.0, child.0, merged.0),
        B::merges_to(parent.1, child.1, merged.1),
        C::merges_to(parent.2, child.2, merged.2),
        D::merges_to(parent.3, child.3, merged.3),
        E::merges_to(parent.4, child.4, merged.4),
        F::merges_to(parent.5, child.5, merged.5),
{
}

/// Merging a tuple of 7 merges every component on its own, none left
/// out.
pub proof fn lemma_tuple7_merge_componentwise<A: Merge, B: Merge, C: Merge, D: Merge, E: Merge, F: Merge, G: Merge>(parent: (A, B, C, D, E, F, G), child: (A, B, C, D, E, F, G), merged: (A, B, C, D, E, F, G))
    requires
        Merge::merges_to(parent, child, merged),
    ensures
        A::merges_to(parent.0, child.0, merged.0),
        B::merges_to(parent.1, child.1, merged.1),
        C::merges_to(parent.2, child.2, merged.2),
        D::merges_to(parent.3, child.3, merged.3),
        E::merges_to(parent.4, child.4, merged.4),
        F::merges_to(parent.5, child.5, merged.5),
        G::merges_to(parent.6, child.6, merged.6),
{
}

/// Merging a tuple of 8 merges every component on its own, none left
/// out.
pub proof fn lemma_tuple8_merge_componentwise<A: Merge, B: Merge, C: Merge, D: Merge, E: Merge, F: Merge, G: Merge, H: Merge>(parent: (A, B, C, D, E, F, G, H), child: (A, B, C, D, E, F, G, H), merged: (A, B, C, D, E, F, G, H))
    requires
        Merge::merges_to(parent, child, merged),
    ensures
        A::merges_to(parent.0, child.0, merged.0),
        B::merges_to(parent.1, child.1, merged.1),
        C::merges_to(parent.2, child.2, merged.2),
        D::merges_to(parent.3, child.3, merged.3),
        E::merges_to(parent.4, child.4, merged.4),
        F::merges_to(parent.5, child.5, merged.5),
        G::merges_to(parent.6, child.6, merged.6),
        H::merges_to(parent.7, child.7, merged.7),
{
}

/// Merging a tuple of 9 merges every component on its own, none left
/// out.
pub proof fn lemma_tuple9_merge_componentwise<A: Merge, B: Merge, C: Merge, D: Merge, E: Merge, F: Merge, G: Merge, H: Merge, I: Merge>(parent: (A, B, C, D, E, F, G, H, I), child: (A, B, C, D, E, F, G, H, I), merged: (A, B, C, D, E, F, G, H, I))
    requires
        Merge::merges_to(parent, child, merged),
    ensures
        A::merges_to(parent.0, child.0, merged.0),
        B::merges_to(parent.1, child.1, merged.1),
        C::merges_to(parent.2, child.2, merged.2),
        D::merges_to(parent.3, child.3, merged.3),
        E::merges_to(parent.4, child.4, merged.4),
        F::merges_to(parent.5, child.5, merged.5),
        G::merges_to(parent.6, child.6, merged.6),
        H::merges_to(parent.7, child.7, merged.7),
        I::merges_to(parent.8, child.8, merged.8),
{
}

/// Merging a tuple of 10 merges every component on its own, none left
/// out.
pub proof fn lemma_tuple10_merge_componentwise<A: Merge, B: Merge, C: Merge, D: Merge, E: Merge, F: Merge, G: Merge, H: Merge, I: Merge, J: Merge>(parent: (A, B, C, D, E, F, G, H, I, J), child: (A, B, C, D, E, F, G, H, I, J), merged: (A, B, C, D, E, F, G, H, I, J))
    requires
        Merge::merges_to(parent, child, merged),
    ensures
        A::merges_to(parent.0, child.0, merged.0),
        B::merges_to(parent.1, child.1, merged.1),
        C::merges_to(parent.2, child.2, merged.2),
        D::merges_to(parent.3, child.3, merged.3),
        E::merges_to(parent.4, child.4, merged.4),
        F::merges_to(parent.5, child.5, merged.5),
        G::merges_to(parent.6, child.6, merged.6),
        H::merges_to(parent.7, child.7, merged.7),
        I::merges_to(parent.8, child.8, merged.8),
        J::merges_to(parent.9, child.9, merged.9),
{
}

/// Merging a tuple of 11 merges every component on its own, none left
/// out.
pub proof fn lemma_tuple11_merge_componentwise<A: Merge, B: Merge, C: Merge, D: Merge, E: Merge, F: Merge, G: Merge, H: Merge, I: Merge, J: Merge, K: Merge>(parent: (A, B, C, D, E, F, G, H, I, J, K), child: (A, B, C, D, E, F, G, H, I, J, K), merged: (A, B, C, D, E, F, G, H, I, J, K))
    requires
        Merge::merges_to(parent, child, merged),
    ensures
        A::merges_to(parent.0, child.0, merged.0),
        B::merges_to(parent.1, child.1, merged.1),
        C::merges_to(parent.2, child.2, merged.2),
        D::merges_to(parent.3, child.3, merged.3),
        E::merges_to(parent.4, child.4, merged.4),
        F::merges_to(parent.5, child.5, merged.5),
        G::merges_to(parent.6, child.6, merged.6),
        H::merges_to(parent.7, child.7, merged.7),
        I::merges_to(parent.8, child.8, merged.8),
        J::merges_to(parent.9, child.9, merged.9),
        K::merges_to(parent.10, child.10, merged.10),
{
}

/// Merging a tuple of 12 merges every component on its own, none left
/// out.
pub proof fn lemma_tuple12_merge_componentwise<A: Merge, B: Merge, C: Merge, D: Merge, E: Merge, F: Merge, G: Merge, H: Merge, I: Merge, J: Merge, K: Merge, L: Merge>(parent: (A, B, C, D, E, F, G, H, I, J, K, L), child: (A, B, C, D, E, F, G, H, I, J, K, L), merged: (A, B, C, D, E, F, G, H, I, J, K, L))
    requires
        Merge::merges_to(parent, child, merged),
    ensures
        A::merges_to(parent.0, child.0, merged.0),
        B::merges_to(parent.1, child.1, merged.1),
        C::merges_to(parent.2, child.2, merged.2),
        D::merges_to(parent.3, child.3, merged.3),
        E::merges_to(parent.4, child.4, merged.4),
        F::merges_to(parent.5, child.5, merged.5),
        G::merges_to(parent.6, child.6, merged.6),
        H::merges_to(parent.7, child.7, merged.7),
        I::merges_to(parent.8, child.8, merged.8),
        J::merges_to(parent.9, child.9, merged.9),
        K::merges_to(parent.10, child.10, merged.10),
        L::merges_to(parent.11, child.11, merged.11),
{
}

/// Merging a tuple of 13 merges every component on its own, none left
/// out.
pub proof fn lemma_tuple13_merge_componentwise<A: Merge, B: Merge, C: Merge, D: Merge, E: Merge, F: Merge, G: Merge, H: Merge, I: Merge, J: Merge, K: Merge, L: Merge, M: Merge>(parent: (A, B, C, D, E, F, G, H, I, J, K, L, M), child: (A, B, C, D, E, F, G, H, I, J, K, L, M), merged: (A, B, C, D, E, F, G, H, I, J, K, L, M))
    requires
        Merge::merges_to(parent, child, merged),
    ensures
        A::merges_to(parent.0, child.0, merged.0),
        B::merges_to(parent.1, child.1, merged.1),
        C::merges_to(parent.2, child.2, merged.2),
        D::merges_to(parent.3, child.3, merged.3),
        E::merges_to(parent.4, child.4, merged.4),
        F::merges_to(parent.5, child.5, merged.5),
        G::merges_to(parent.6, child.6, merged.6),
        H::merges_to(parent.7, child.7, merged.7),
        I::merges_to(parent.8, child.8, merged.8),
        J::merges_to(parent.9, child.9, merged.9),
        K::merges_to(parent.10, child.10, merged.10),
        L::merges_to(parent.11, child.11, merged.11),
        M::merges_to(parent.12, child.12, merged.12),
{
}

/// Merging a tuple of 14 merges every component on its own, none left
/// out.
pub proof fn lemma_tuple14_merge_componentwise<A: Merge, B: Merge, C: Merge, D: Merge, E: Merge, F: Merge, G: Merge, H: Merge, I: Merge, J: Merge, K: Merge, L: Merge, M: Merge, N: Merge>(parent: (A, B, C, D, E, F, G, H, I, J, K, L, M, N), child: (A, B, C, D, E, F, G, H, I, J, K, L, M, N), merged: (A, B, C, D, E, F, G, H, I, J, K, L, M, N))
    requires
        Merge::merges_to(parent, child, merged),
    ensures
        A::merges_to(parent.0, child.0, merged.0),
        B::merges_to(parent.1, child.1, merged.1),
        C::merges_to(parent.2, child.2, merged.2),
        D::merges_to(parent.3, child.3, merged.3),
        E::merges_to(parent.4, child.4, merged.4),
        F::merges_to(parent.5, child.5, merged.5),
        G::merges_to(parent.6, child.6, merged.6),
        H::merges_to(parent.7, child.7, merged.7),
        I::merges_to(parent.8, child.8, merged.8),
        J::merges_to(parent.9, child.9, merged.9),
        K::merges_to(parent.10, child.10, merged.10),
        L::merges_to(parent.11, child.11, merged.11),
        M::merges_to(parent.12, child.12, merged.12),
        N::merges_to(parent.13, child.13, merged.13),
{
}

/// Merging a tuple of 15 merges every component on its own, none left
/// out.
pub proof fn lemma_tuple15_merge_componentwise<A: Merge, B: Merge, C: Merge, D: Merge, E: Merge, F: Merge, G: Merge, H: Merge, I: Merge, J: Merge, K: Merge, L: Merge, M: Merge, N: Merge, O: Merge>(parent: (A, B, C, D, E, F, G, H, I, J, K, L, M, N, O), child: (A, B, C, D, E, F, G, H, I, J, K, L, M, N, O), merged: (A, B, C, D, E, F, G, H, I, J, K, L, M, N, O))
    requires
        Merge::merges_to(parent, child, merged),
    ensures
        A::merges_to(parent.0, child.0, merged.0),
        B::merges_to(parent.1, child.1, merged.1),
        C::merges_to(parent.2, child.2, merged.2),
        D::merges_to(parent.3, child.3, merged.3),
        E::merges_to(parent.4, child.4, merged.4),
        F::merges_to(parent.5, child.5, merged.5),
        G::merges_to(parent.6, child.6, merged.6),
        H::merges_to(parent.7, child.7, merged.7),
        I::merges_to(parent.8, child.8, merged.8),
        J::merges_to(parent.9, child.9, merged.9),
        K::merges_to(parent.10, child.10, merged.10),
        L::merges_to(parent.11, child.11, merged.11),
        M::merges_to(parent.12, child.12, merged.12),
        N::merges_to(parent.13, child.13, merged.13),
        O::merges_to(parent.14, child.14, merged.14),
{
}

/// Merging a tuple of 16 merges every component on its own, none left
/// out.
pub proof fn lemma_tuple16_merge_componentwise<A: Merge, B: Merge, C: Merge, D: Merge, E: Merge, F: Merge, G: Merge, H: Merge, I: Merge, J: Merge, K: Merge, L: Merge, M: Merge, N: Merge, O: Merge, P: Merge>(parent: (A, B, C, D, E, F, G, H, I, J, K, L, M, N, O, P), child: (A, B, C, D, E, F, G, H, I, J, K, L, M, N, O, P), merged: (A, B, C, D, E, F, G, H, I, J, K, L, M, N, O, P))
    requires
        Merge::merges_to(parent, child, merged),
    ensures
        A::merges_to(parent.0, child.0, merged.0),
        B::merges_to(parent.1, child.1, merged.1),
        C::merges_to(parent.2, child.2, merged.2),
        D::merges_to(parent.3, child.3, merged.3),
        E::merges_to(parent.4, child.4, merged.4),
        F::merges_to(parent.5, child.5, merged.5),
        G::merges_to(parent.6, child.6, merged.6),
        H::merges_to(parent.7, child.7, merged.7),
        I::merges_to(parent.8, child.8, merged.8),
        J::merges_to(parent.9, child.9, merged.9),
        K::merges_to(parent.10, child.10, merged.10),
        L::merges_to(parent.11, child.11, merged.11),
        M::merges_to(parent.12, child.12, merged.12),
        N::merges_to(parent.13, child.13, merged.13),
        O::merges_to(parent.14, child.14, merged.14),
        P::merges_to(parent.15, child.15, merged.15),
{
}

} // verus!
