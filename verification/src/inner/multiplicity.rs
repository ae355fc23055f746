use vstd::prelude::*;

verus! {

/// How many items a collection holds, telling none, one (kept), or more.
pub enum Multiplicity<T> {
    Empty,
    Single(T),
    Multiple,
}

impl<T> Multiplicity<T> {
    /// The multiplicity of a sequence.
    pub open spec fn of(s: Seq<T>) -> Self {
        if s.len() == 0 {
            Multiplicity::Empty
        } else if s.len() == 1 {
            Multiplicity::Single(s[0])
        } else {
            Multiplicity::Multiple
        }
    }

    /// Counts the items, keeping the item if there is exactly one.
    pub fn from_iter(items: Vec<T>) -> (r: Self)
        ensures
            r == Self::of(items@),
    {
        let mut items = items;
        if items.len() == 0 {
            Multiplicity::Empty
        } else if items.len() >= 2 {
            Multiplicity::Multiple
        } else {
            let first = items.pop();
            match first {
                Some(item) => Multiplicity::Single(item),
                None => Multiplicity::Empty,
            }
        }
    }

    /// The single item, if there is exactly one.
    pub fn into_single(self) -> (r: Option<T>)
        ensures
            r == (match self {
                Multiplicity::Single(t) => Some(t),
                _ => None::<T>,
            }),
    {
        match self {
            Multiplicity::Single(t) => Some(t),
            _ => None,
        }
    }

    /// A sequence's multiplicity is `Empty` exactly when it has no item,
    /// `Single` of its item exactly when it has one, and `Multiple`
    /// exactly when it has two or more.
    pub proof fn lemma_of(s: Seq<T>)
        ensures
            (Self::of(s) is Empty) <==> s.len() == 0,
            (Self::of(s) is Single) <==> s.len() == 1,
            (Self::of(s) is Multiple) <==> s.len() >= 2,
            Self::of(s) matches Multiplicity::Single(t) ==> t == s[0],
    {
    }
}

} // verus!
