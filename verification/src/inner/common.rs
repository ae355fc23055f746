use vstd::prelude::*;

verus! {

/// The index that follows `n`: one more, going round to zero after
/// `u64::MAX`.
pub open spec fn successor(n: u64) -> u64 {
    if n == u64::MAX {
        0
    } else {
        (n + 1) as u64
    }
}

/// The index that `k` further calls of `next_node_index` reach from `v`.
pub open spec fn nth_index(v: u64, k: nat) -> u64
    decreases k,
{
    if k == 0 {
        v
    } else {
        successor(nth_index(v, (k - 1) as nat))
    }
}

/// `k` steps from `v` land on `v + k`, taken modulo `2^64`.
pub proof fn lemma_nth_index(v: u64, k: nat)
    ensures
        nth_index(v, k) as int == (v + k) % 0x1_0000_0000_0000_0000,
    decreases k,
{
    if k > 0 {
        lemma_nth_index(v, (k - 1) as nat);
        let a: int = v + k - 1;
        assert(a >= 0);
        assert(successor(((a % 0x1_0000_0000_0000_0000) as u64)) as int == (a + 1)
            % 0x1_0000_0000_0000_0000) by (nonlinear_arith)
            requires
                a >= 0,
        {
        }
    }
}

/// Successive calls of `next_node_index` hand out pairwise distinct
/// indices as long as there are at most `2^64` of them: the `i`-th and the
/// `j`-th index from the same start differ.
pub proof fn lemma_indices_distinct(v: u64, i: nat, j: nat)
    requires
        i < j < 0x1_0000_0000_0000_0000,
    ensures
        nth_index(v, i) != nth_index(v, j),
{
    lemma_nth_index(v, i);
    lemma_nth_index(v, j);
    let a: int = v + i;
    let b: int = v + j;
    assert(a % 0x1_0000_0000_0000_0000 != b % 0x1_0000_0000_0000_0000) by (nonlinear_arith)
        requires
            0 <= a < b,
            b - a < 0x1_0000_0000_0000_0000,
    {
    }
}

/// State shared by every node of one tree: the source of node indices.
pub struct Common {
    next_node_index: u64,
}

impl Common {
    /// The index that the next call of `next_node_index` hands out.
    pub closed spec fn next(&self) -> u64 {
        self.next_node_index
    }

    /// Starts handing out indices at zero.
    pub fn new() -> (r: Self)
        ensures
            r.next() == 0,
    {
        Common { next_node_index: 0 }
    }

    /// Hands out the next index and moves on to its successor, going round
    /// to zero after `u64::MAX`.
    pub fn next_node_index(&mut self) -> (r: u64)
        ensures
            r == old(self).next(),
            final(self).next() == successor(old(self).next()),
    {
        let r = self.next_node_index;
        self.next_node_index = r.wrapping_add(1);
        r
    }

    /// How many more indices can be handed out before they go round.
    pub fn indices_left(&self) -> (r: u64)
        ensures
            r == u64::MAX - self.next(),
    {
        u64::MAX - self.next_node_index
    }
}

} // verus!
