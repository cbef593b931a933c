use vstd::prelude::*;

use crate::csvec::CsVec;
use crate::permutation::Permutation;

verus! {

/// `indptr` delimits well-formed windows into an array of `nnz` entries: every
/// offset is at most `nnz`, and adjacent offsets never decrease.
pub open spec fn windows_ok(indptr: Seq<usize>, nnz: nat) -> bool {
    &&& indptr.len() >= 1
    &&& indptr_in_range(indptr, nnz)
    &&& indptr_sorted(indptr)
}

/// Every offset of `indptr` is at most `nnz`.
pub open spec fn indptr_in_range(indptr: Seq<usize>, nnz: nat) -> bool {
    forall|k: int| 0 <= k < indptr.len() ==> #[trigger] indptr[k] <= nnz
}

/// Adjacent offsets of `indptr` never decrease.
pub open spec fn indptr_sorted(indptr: Seq<usize>) -> bool {
    forall|k: int| 0 <= k < indptr.len() - 1 ==> #[trigger] indptr[k] <= indptr[k + 1]
}

/// Bidirectional iteration over the outer dimension of a compressed matrix.
///
/// Each step consumes one window `(indptr[k], indptr[k + 1])` from the front or
/// from the back, and yields the permuted outer index together with a view of
/// that row or column, borrowed from the matrix's arrays.
pub struct OuterIterator<'a, N> {
    indptr: &'a [usize],
    indices: &'a [usize],
    data: &'a [N],
    perm: Permutation<'a>,
    front: usize,
    back: usize,
}

impl<'a, N> OuterIterator<'a, N> {
    pub closed spec fn indptr_view(&self) -> Seq<usize> {
        self.indptr@
    }

    pub closed spec fn indices_view(&self) -> Seq<usize> {
        self.indices@
    }

    pub closed spec fn data_view(&self) -> Seq<N> {
        self.data@
    }

    /// The permutation applied to the outer indices.
    pub closed spec fn perm_view(&self) -> Permutation<'a> {
        self.perm
    }

    /// The first window not yet consumed from the front.
    pub closed spec fn front_view(&self) -> nat {
        self.front as nat
    }

    /// One past the last window not yet consumed from the back.
    pub closed spec fn back_view(&self) -> nat {
        self.back as nat
    }

    /// The number of windows of `indptr`.
    pub open spec fn n_windows(&self) -> nat {
        (self.indptr_view().len() - 1) as nat
    }

    pub open spec fn wf(&self) -> bool {
        &&& windows_ok(self.indptr_view(), self.indices_view().len())
        &&& self.indices_view().len() == self.data_view().len()
        &&& self.front_view() <= self.back_view() <= self.n_windows()
        &&& self.perm_view().wf()
        &&& self.perm_view().admits(self.n_windows())
    }

    /// The item that window `k` yields: the permuted outer index, the inner
    /// coordinates and the values of that row or column.
    pub open spec fn item(&self, k: int) -> (int, Seq<usize>, Seq<N>) {
        let start = self.indptr_view()[k] as int;
        let end = self.indptr_view()[k + 1] as int;
        (
            self.perm_view().spec_at(k),
            self.indices_view().subrange(start, end),
            self.data_view().subrange(start, end),
        )
    }

    /// The items still to come, in forward order.
    pub open spec fn forward_items(&self) -> Seq<(int, Seq<usize>, Seq<N>)> {
        Seq::new(
            (self.back_view() - self.front_view()) as nat,
            |i: int| self.item(self.front_view() + i),
        )
    }

    /// The items still to come, in backward order.
    pub open spec fn backward_items(&self) -> Seq<(int, Seq<usize>, Seq<N>)> {
        Seq::new(
            (self.back_view() - self.front_view()) as nat,
            |i: int| self.item(self.back_view() - 1 - i),
        )
    }

    /// Starts an iteration over every window of `indptr`.
    pub(crate) fn new(
        indptr: &'a [usize],
        indices: &'a [usize],
        data: &'a [N],
        perm: Permutation<'a>,
    ) -> (r: Self)
        requires
            windows_ok(indptr@, indices@.len()),
            indices@.len() == data@.len(),
            perm.wf(),
            perm.admits((indptr@.len() - 1) as nat),
        ensures
            r.wf(),
            r.indptr_view() == indptr@,
            r.indices_view() == indices@,
            r.data_view() == data@,
            r.perm_view() == perm,
            r.front_view() == 0,
            r.back_view() == indptr@.len() - 1,
    {
        OuterIterator { indptr, indices, data, perm, front: 0, back: indptr.len() - 1 }
    }

    /// The item of window `k`.
    fn yield_window(&self, k: usize) -> (r: (usize, CsVec<'a, N>))
        requires
            self.wf(),
            k < self.n_windows(),
        ensures
            r.0 == self.item(k as int).0,
            r.1.indices_view() == self.item(k as int).1,
            r.1.data_view() == self.item(k as int).2,
            r.1.perm_view() == self.perm_view(),
    {
        let inner_start = self.indptr[k];
        let inner_end = self.indptr[k + 1];
        let outer_ind_perm = self.perm.at(k);
        let indices = &self.indices[inner_start..inner_end];
        let data = &self.data[inner_start..inner_end];
        let vec = CsVec::new_borrowed(indices, data, self.perm.borrowed());
        (outer_ind_perm, vec)
    }

    /// Consumes the next window from the front.
    pub fn next(&mut self) -> (r: Option<(usize, CsVec<'a, N>)>)
        requires
            old(self).wf(),
        ensures
            final(self).wf(),
            final(self).indptr_view() == old(self).indptr_view(),
            final(self).indices_view() == old(self).indices_view(),
            final(self).data_view() == old(self).data_view(),
            final(self).perm_view() == old(self).perm_view(),
            final(self).back_view() == old(self).back_view(),
            old(self).forward_items().len() == 0 ==> r is None && final(self).front_view()
                == old(self).front_view(),
            old(self).forward_items().len() > 0 ==> {
                &&& r matches Some(x)
                &&& (x.0 as int, x.1.indices_view(), x.1.data_view())
                    == old(self).forward_items()[0]
                &&& x.1.perm_view() == old(self).perm_view()
                &&& final(self).front_view() == old(self).front_view() + 1
            },
            final(self).forward_items() == old(self).forward_items().drop_first() || r is None,
    {
        if self.front >= self.back {
            return None;
        }
        let k = self.front;
        let item = self.yield_window(k);
        self.front = k + 1;
        proof {
            assert(self.forward_items() =~= old(self).forward_items().drop_first());
        }
        Some(item)
    }

    /// Consumes the next window from the back. Only the outer order is
    /// reversed: each yielded view keeps its ascending inner order.
    pub fn next_back(&mut self) -> (r: Option<(usize, CsVec<'a, N>)>)
        requires
            old(self).wf(),
        ensures
            final(self).wf(),
            final(self).indptr_view() == old(self).indptr_view(),
            final(self).indices_view() == old(self).indices_view(),
            final(self).data_view() == old(self).data_view(),
            final(self).perm_view() == old(self).perm_view(),
            final(self).front_view() == old(self).front_view(),
            old(self).backward_items().len() == 0 ==> r is None && final(self).back_view()
                == old(self).back_view(),
            old(self).backward_items().len() > 0 ==> {
                &&& r matches Some(x)
                &&& (x.0 as int, x.1.indices_view(), x.1.data_view())
                    == old(self).backward_items()[0]
                &&& x.1.perm_view() == old(self).perm_view()
                &&& final(self).back_view() + 1 == old(self).back_view()
            },
            final(self).backward_items() == old(self).backward_items().drop_first() || r is None,
    {
        if self.front >= self.back {
            return None;
        }
        let k = self.back - 1;
        let item = self.yield_window(k);
        self.back = k;
        proof {
            assert(self.backward_items() =~= old(self).backward_items().drop_first());
        }
        Some(item)
    }

    /// The number of windows not yet consumed from either end.
    pub fn len(&self) -> (r: usize)
        requires
            self.wf(),
        ensures
            r == self.forward_items().len(),
    {
        self.back - self.front
    }

    /// Lower and upper bound on the number of remaining items; both exact.
    pub fn size_hint(&self) -> (r: (usize, Option<usize>))
        requires
            self.wf(),
        ensures
            r.0 == self.forward_items().len(),
            r.1 == Some(r.0),
    {
        let n = self.len();
        (n, Some(n))
    }
}

/// Draining an iterator from the back yields exactly the items of draining it
/// from the front, in reverse order; so both traversals see the same items.
pub proof fn lemma_reverse_symmetry<'a, N>(it: OuterIterator<'a, N>)
    requires
        it.wf(),
    ensures
        it.backward_items() == it.forward_items().reverse(),
        it.backward_items().to_set() == it.forward_items().to_set(),
{
    assert(it.backward_items() =~= it.forward_items().reverse());
    let f = it.forward_items();
    let b = it.backward_items();
    assert forall|x| f.contains(x) <==> b.contains(x) by {
        if f.contains(x) {
            let i = choose|i: int| 0 <= i < f.len() && f[i] == x;
            assert(b[f.len() - 1 - i] == x);
        }
        if b.contains(x) {
            let i = choose|i: int| 0 <= i < b.len() && b[i] == x;
            assert(f[f.len() - 1 - i] == x);
        }
    }
    assert(b.to_set() =~= f.to_set());
}

} // verus!
