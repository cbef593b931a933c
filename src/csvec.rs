use vstd::prelude::*;

use crate::permutation::Permutation;

verus! {

/// The elements of `s` are strictly increasing: sorted, with no duplicates.
pub open spec fn strictly_increasing(s: Seq<usize>) -> bool {
    forall|a: int, b: int| 0 <= a < b < s.len() ==> s[a] < s[b]
}

/// A borrowed sparse vector: one row or column of a compressed matrix, as
/// positionally aligned inner coordinates and values, with the permutation
/// under which it was produced.
pub struct CsVec<'a, N> {
    indices: &'a [usize],
    data: &'a [N],
    perm: Permutation<'a>,
}

impl<'a, N> CsVec<'a, N> {
    /// The inner coordinates of the stored entries.
    pub closed spec fn indices_view(&self) -> Seq<usize> {
        self.indices@
    }

    /// The stored values, aligned with `indices_view`.
    pub closed spec fn data_view(&self) -> Seq<N> {
        self.data@
    }

    /// The permutation the vector was produced under.
    pub closed spec fn perm_view(&self) -> Permutation<'a> {
        self.perm
    }

    /// Wraps borrowed index and value slices, without copying them.
    pub fn new_borrowed(indices: &'a [usize], data: &'a [N], perm: Permutation<'a>) -> (r: Self)
        ensures
            r.indices_view() == indices@,
            r.data_view() == data@,
            r.perm_view() == perm,
    {
        CsVec { indices, data, perm }
    }

    /// Whether the inner coordinates are strictly increasing.
    pub fn check_structure(&self) -> (r: bool)
        ensures
            r == strictly_increasing(self.indices_view()),
    {
        let n = self.indices.len();
        if n == 0 {
            return true;
        }
        let mut i: usize = 1;
        while i < n
            invariant
                n == self.indices@.len(),
                1 <= i <= n,
                forall|a: int| 0 <= a < i - 1 ==> #[trigger] self.indices@[a] < self.indices@[a + 1],
            decreases n - i,
        {
            if self.indices[i - 1] >= self.indices[i] {
                return false;
            }
            i = i + 1;
        }
        proof {
            assert forall|a: int, b: int| 0 <= a < b < n implies self.indices@[a]
                < self.indices@[b] by {
                lemma_adjacent_increasing(self.indices@, a, b);
            }
        }
        true
    }

    /// The inner coordinates of the stored entries.
    pub fn indices(&self) -> (r: &'a [usize])
        ensures
            r@ == self.indices_view(),
    {
        self.indices
    }

    /// The stored values.
    pub fn data(&self) -> (r: &'a [N])
        ensures
            r@ == self.data_view(),
    {
        self.data
    }

    /// The number of stored entries.
    pub fn nnz(&self) -> (r: usize)
        ensures
            r == self.indices_view().len(),
    {
        self.indices.len()
    }

    /// The permutation the vector was produced under.
    pub fn perm(&self) -> (r: Permutation<'a>)
        ensures
            r == self.perm_view(),
    {
        self.perm
    }
}

/// Adjacent strict increase gives strict increase between any two positions.
proof fn lemma_adjacent_increasing(s: Seq<usize>, a: int, b: int)
    requires
        0 <= a < b < s.len(),
        forall|k: int| 0 <= k < s.len() - 1 ==> #[trigger] s[k] < s[k + 1],
    ensures
        s[a] < s[b],
    decreases b - a,
{
    if b > a + 1 {
        lemma_adjacent_increasing(s, a, b - 1);
    }
}

} // verus!
