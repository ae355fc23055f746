use vstd::prelude::*;

use crate::merge::Merge;

verus! {

/// Bound alias for types storable in a tree.
pub trait NodeData: Merge + Send + Sync + 'static {

}

impl<T> NodeData for T where T: Merge + Send + Sync + 'static {

}

} // verus!
