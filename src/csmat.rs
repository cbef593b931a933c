use vstd::prelude::*;

use crate::array::ArrayLike;
use crate::csvec::strictly_increasing;
use crate::outer::{indptr_in_range, indptr_sorted, windows_ok, OuterIterator};
use crate::permutation::Permutation;

verus! {

/// Whether `indptr` partitions rows (CSR) or columns (CSC).
#[derive(Clone, Copy, PartialEq, Eq, Debug, Structural)]
pub enum CompressedStorage {
    CSR,
    CSC,
}

/// Which structural invariant a candidate matrix breaks.
#[derive(Clone, Copy, PartialEq, Eq, Debug, Structural)]
pub enum StructuralErrorKind {
    /// `indptr` does not hold `outer_dim + 1` offsets.
    BadIndptrLength,
    /// `indices` and `data` differ in length.
    BadIndicesDataLength,
    /// Some offset of `indptr` exceeds the number of stored entries.
    IndptrOutOfRange,
    /// Some inner coordinate is not below the inner dimension.
    IndicesOutOfRange,
    /// Two adjacent offsets of `indptr` decrease.
    IndptrNotSorted,
    /// The last offset of `indptr` is not the number of stored entries.
    NnzMismatch,
    /// The inner coordinates of some row or column are not strictly increasing.
    IndicesNotSortedPerRow,
}

/// Why a candidate matrix was refused.
#[derive(Clone, Copy, PartialEq, Eq, Debug, Structural)]
pub struct StructuralError {
    pub kind: StructuralErrorKind,
}

/// The length of the dimension that `indptr` partitions.
pub open spec fn outer_dim_of(storage: CompressedStorage, nrows: usize, ncols: usize) -> nat {
    match storage {
        CompressedStorage::CSR => nrows as nat,
        CompressedStorage::CSC => ncols as nat,
    }
}

/// The length of the dimension that `indices` address.
pub open spec fn inner_dim_of(storage: CompressedStorage, nrows: usize, ncols: usize) -> nat {
    match storage {
        CompressedStorage::CSR => ncols as nat,
        CompressedStorage::CSC => nrows as nat,
    }
}

/// Every inner coordinate is below `inner`.
pub open spec fn indices_in_range(indices: Seq<usize>, inner: nat) -> bool {
    forall|p: int| 0 <= p < indices.len() ==> #[trigger] indices[p] < inner
}

/// The inner coordinates of outer slice `k`.
pub open spec fn outer_slice(indptr: Seq<usize>, indices: Seq<usize>, k: int) -> Seq<usize> {
    indices.subrange(indptr[k] as int, indptr[k + 1] as int)
}

/// Every outer slice of `indices` is strictly increasing.
pub open spec fn slices_sorted(indptr: Seq<usize>, indices: Seq<usize>) -> bool {
    forall|k: int|
        0 <= k < indptr.len() - 1 ==> strictly_increasing(#[trigger] outer_slice(indptr, indices, k))
}

/// The first structural invariant that the candidate breaks, checked in order,
/// or `None` when it is a well-formed compressed matrix.
pub open spec fn structure_error(
    storage: CompressedStorage,
    nrows: usize,
    ncols: usize,
    indptr: Seq<usize>,
    indices: Seq<usize>,
    data_len: nat,
) -> Option<StructuralErrorKind> {
    let outer = outer_dim_of(storage, nrows, ncols);
    let inner = inner_dim_of(storage, nrows, ncols);
    if indptr.len() != outer + 1 {
        Some(StructuralErrorKind::BadIndptrLength)
    } else if indices.len() != data_len {
        Some(StructuralErrorKind::BadIndicesDataLength)
    } else if !indptr_in_range(indptr, indices.len()) {
        Some(StructuralErrorKind::IndptrOutOfRange)
    } else if !indices_in_range(indices, inner) {
        Some(StructuralErrorKind::IndicesOutOfRange)
    } else if !indptr_sorted(indptr) {
        Some(StructuralErrorKind::IndptrNotSorted)
    } else if indptr[outer as int] != indices.len() {
        Some(StructuralErrorKind::NnzMismatch)
    } else if !slices_sorted(indptr, indices) {
        Some(StructuralErrorKind::IndicesNotSortedPerRow)
    } else {
        None
    }
}

/// Whether every element of `s` is at most `bound`.
fn all_at_most(s: &[usize], bound: usize) -> (r: bool)
    ensures
        r == indptr_in_range(s@, bound as nat),
{
    let mut k: usize = 0;
    while k < s.len()
        invariant
            k <= s@.len(),
            forall|a: int| 0 <= a < k ==> #[trigger] s@[a] <= bound,
        decreases s@.len() - k,
    {
        if s[k] > bound {
            return false;
        }
        k = k + 1;
    }
    true
}

/// Whether every element of `s` is below `bound`.
fn all_below(s: &[usize], bound: usize) -> (r: bool)
    ensures
        r == indices_in_range(s@, bound as nat),
{
    let mut k: usize = 0;
    while k < s.len()
        invariant
            k <= s@.len(),
            forall|a: int| 0 <= a < k ==> #[trigger] s@[a] < bound,
        decreases s@.len() - k,
    {
        if s[k] >= bound {
            return false;
        }
        k = k + 1;
    }
    true
}

/// Whether adjacent elements of `s` never decrease.
fn adjacent_non_decreasing(s: &[usize]) -> (r: bool)
    ensures
        r == indptr_sorted(s@),
{
    if s.len() == 0 {
        return true;
    }
    let mut k: usize = 0;
    while k < s.len() - 1
        invariant
            s@.len() >= 1,
            k <= s@.len() - 1,
            forall|a: int| 0 <= a < k ==> #[trigger] s@[a] <= s@[a + 1],
        decreases s@.len() - k,
    {
        if s[k] > s[k + 1] {
            return false;
        }
        k = k + 1;
    }
    true
}

/// Whether every outer slice is strictly increasing, each slice checking its
/// own ordering as the iterator hands it out.
fn outer_slices_sorted<N>(indptr: &[usize], indices: &[usize], data: &[N]) -> (r: bool)
    requires
        windows_ok(indptr@, indices@.len()),
        indices@.len() == data@.len(),
    ensures
        r == slices_sorted(indptr@, indices@),
{
    let mut it = OuterIterator::new(indptr, indices, data, Permutation::identity());
    while it.len() > 0
        invariant
            it.wf(),
            it.indptr_view() == indptr@,
            it.indices_view() == indices@,
            it.back_view() == indptr@.len() - 1,
            forall|a: int|
                0 <= a < it.front_view() ==> strictly_increasing(
                    #[trigger] outer_slice(indptr@, indices@, a),
                ),
        decreases it.forward_items().len(),
    {
        let ghost before = it;
        match it.next() {
            Some((_, vec)) => {
                let ghost a = before.front_view() as int;
                proof {
                    assert(before.forward_items()[0] == before.item(a));
                    assert(vec.indices_view() == outer_slice(indptr@, indices@, a));
                }
                if !vec.check_structure() {
                    assert(!strictly_increasing(outer_slice(indptr@, indices@, a)));
                    return false;
                }
            },
            None => {},
        }
    }
    true
}

/// Checks that `(indptr, indices, data)` form a well-formed compressed structure
/// of the given orientation and shape. Returns the number of stored entries, or
/// the first invariant that fails.
pub fn check_compressed_structure<N>(
    storage: CompressedStorage,
    nrows: usize,
    ncols: usize,
    indptr: &[usize],
    indices: &[usize],
    data: &[N],
) -> (r: Result<usize, StructuralError>)
    ensures
        match r {
            Ok(nnz) => structure_error(storage, nrows, ncols, indptr@, indices@, data@.len())
                is None && nnz == indices@.len(),
            Err(e) => structure_error(storage, nrows, ncols, indptr@, indices@, data@.len())
                == Some(e.kind),
        },
{
    let (outer, inner) = match storage {
        CompressedStorage::CSR => (nrows, ncols),
        CompressedStorage::CSC => (ncols, nrows),
    };
    if indptr.len() == 0 || indptr.len() - 1 != outer {
        return Err(StructuralError { kind: StructuralErrorKind::BadIndptrLength });
    }
    if indices.len() != data.len() {
        return Err(StructuralError { kind: StructuralErrorKind::BadIndicesDataLength });
    }
    let nnz = indices.len();
    if !all_at_most(indptr, nnz) {
        return Err(StructuralError { kind: StructuralErrorKind::IndptrOutOfRange });
    }
    if !all_below(indices, inner) {
        return Err(StructuralError { kind: StructuralErrorKind::IndicesOutOfRange });
    }
    if !adjacent_non_decreasing(indptr) {
        return Err(StructuralError { kind: StructuralErrorKind::IndptrNotSorted });
    }
    if indptr[outer] != nnz {
        return Err(StructuralError { kind: StructuralErrorKind::NnzMismatch });
    }
    if !outer_slices_sorted(indptr, indices, data) {
        return Err(StructuralError { kind: StructuralErrorKind::IndicesNotSortedPerRow });
    }
    Ok(nnz)
}

/// Position of `x` in the strictly increasing slice `s`, by binary search.
fn search_sorted(s: &[usize], x: usize) -> (r: Option<usize>)
    requires
        strictly_increasing(s@),
    ensures
        r matches Some(p) ==> p < s@.len() && s@[p as int] == x,
        r is None ==> forall|p: int| 0 <= p < s@.len() ==> s@[p] != x,
{
    let mut lo: usize = 0;
    let mut hi: usize = s.len();
    while lo < hi
        invariant
            strictly_increasing(s@),
            lo <= hi <= s@.len(),
            forall|p: int| 0 <= p < lo ==> #[trigger] s@[p] < x,
            forall|p: int| hi <= p < s@.len() ==> #[trigger] s@[p] > x,
        decreases hi - lo,
    {
        let mid = lo + (hi - lo) / 2;
        let v = s[mid];
        if v == x {
            return Some(mid);
        } else if v < x {
            lo = mid + 1;
        } else {
            hi = mid;
        }
    }
    None
}

/// A sparse matrix in compressed row (CSR) or compressed column (CSC) form.
///
/// For outer index `k`, the entries `indptr[k]..indptr[k + 1]` of `indices`
/// and `data` hold the inner coordinates and values of row `k` (CSR) or of
/// column `k` (CSC). The arrays are either borrowed or owned.
pub struct CsMat<N, IndStorage: ArrayLike<usize>, DataStorage: ArrayLike<N>> {
    storage: CompressedStorage,
    nrows: usize,
    ncols: usize,
    nnz: usize,
    indptr: IndStorage,
    indices: IndStorage,
    data: DataStorage,
    _elem: core::marker::PhantomData<N>,
}

impl<N, IndStorage: ArrayLike<usize>, DataStorage: ArrayLike<N>> CsMat<N, IndStorage, DataStorage> {
    pub closed spec fn storage_view(&self) -> CompressedStorage {
        self.storage
    }

    pub closed spec fn nrows_view(&self) -> usize {
        self.nrows
    }

    pub closed spec fn ncols_view(&self) -> usize {
        self.ncols
    }

    /// The number of stored entries.
    pub closed spec fn nnz_view(&self) -> nat {
        self.nnz as nat
    }

    pub closed spec fn indptr_view(&self) -> Seq<usize> {
        self.indptr.elems()
    }

    pub closed spec fn indices_view(&self) -> Seq<usize> {
        self.indices.elems()
    }

    pub closed spec fn data_view(&self) -> Seq<N> {
        self.data.elems()
    }

    pub open spec fn outer_dim(&self) -> nat {
        outer_dim_of(self.storage_view(), self.nrows_view(), self.ncols_view())
    }

    pub open spec fn inner_dim(&self) -> nat {
        inner_dim_of(self.storage_view(), self.nrows_view(), self.ncols_view())
    }

    /// The arrays form a well-formed compressed structure of this shape.
    pub open spec fn wf(&self) -> bool {
        &&& structure_error(
            self.storage_view(),
            self.nrows_view(),
            self.ncols_view(),
            self.indptr_view(),
            self.indices_view(),
            self.data_view().len(),
        ) is None
        &&& self.nnz_view() == self.indices_view().len()
    }

    /// Position `p` holds the entry at outer index `outer`, inner index `inner`.
    pub open spec fn stores_at(&self, outer: int, inner: int, p: int) -> bool {
        &&& self.indptr_view()[outer] <= p < self.indptr_view()[outer + 1]
        &&& self.indices_view()[p] == inner
    }

    /// The (outer, inner) coordinates of row `i`, column `j`.
    pub open spec fn outer_inner(&self, i: int, j: int) -> (int, int) {
        match self.storage_view() {
            CompressedStorage::CSR => (i, j),
            CompressedStorage::CSC => (j, i),
        }
    }

    /// The items of a full outer iteration without permutation.
    pub open spec fn outer_items(&self) -> Seq<(int, Seq<usize>, Seq<N>)> {
        Seq::new(
            self.outer_dim(),
            |k: int|
                {
                    let start = self.indptr_view()[k] as int;
                    let end = self.indptr_view()[k + 1] as int;
                    (
                        k,
                        self.indices_view().subrange(start, end),
                        self.data_view().subrange(start, end),
                    )
                },
        )
    }

    /// The storage orientation.
    pub fn storage_type(&self) -> (r: CompressedStorage)
        ensures
            r == self.storage_view(),
    {
        self.storage
    }

    /// The number of rows.
    pub fn rows(&self) -> (r: usize)
        ensures
            r == self.nrows_view(),
    {
        self.nrows
    }

    /// The number of columns.
    pub fn cols(&self) -> (r: usize)
        ensures
            r == self.ncols_view(),
    {
        self.ncols
    }

    /// The number of stored entries.
    pub fn nnz(&self) -> (r: usize)
        ensures
            r == self.nnz_view(),
    {
        self.nnz
    }

    /// An iteration over the outer dimension of P·A·Pᵗ, where P is `perm`.
    ///
    /// In row-major storage the permutation reindexes the rows directly; in
    /// column-major storage its inverse reindexes the columns.
    pub fn outer_iterator_papt<'b>(&'b self, perm: &Permutation<'b>) -> (r: OuterIterator<'b, N>)
        requires
            self.wf(),
            perm.wf(),
            perm.admits(self.outer_dim()),
        ensures
            r.wf(),
            r.indptr_view() == self.indptr_view(),
            r.indices_view() == self.indices_view(),
            r.data_view() == self.data_view(),
            r.front_view() == 0,
            r.back_view() == self.outer_dim(),
            r.perm_view().is_identity() == perm.is_identity(),
            self.storage_view() == CompressedStorage::CSR ==> r.perm_view() == *perm,
            self.storage_view() == CompressedStorage::CSC ==> r.perm_view().fwd()
                == perm.inv_arr() && r.perm_view().inv_arr() == perm.fwd(),
            forall|k: int|
                #![trigger r.perm_view().spec_at(k)]
                r.perm_view().spec_at(k) == match self.storage_view() {
                    CompressedStorage::CSR => perm.spec_at(k),
                    CompressedStorage::CSC => perm.spec_inv_at(k),
                },
    {
        let oriented_perm = match self.storage {
            CompressedStorage::CSR => perm.borrowed(),
            CompressedStorage::CSC => perm.inv(),
        };
        OuterIterator::new(
            self.indptr.as_items(),
            self.indices.as_items(),
            self.data.as_items(),
            oriented_perm,
        )
    }

    /// An iteration over the outer dimension, in order, without permutation.
    pub fn outer_iterator<'b>(&'b self) -> (r: OuterIterator<'b, N>)
        requires
            self.wf(),
        ensures
            r.wf(),
            r.perm_view().is_identity(),
            r.indptr_view() == self.indptr_view(),
            r.indices_view() == self.indices_view(),
            r.data_view() == self.data_view(),
            r.forward_items() == self.outer_items(),
    {
        let id = Permutation::identity();
        let r = self.outer_iterator_papt(&id);
        assert(r.forward_items() =~= self.outer_items());
        r
    }
}

impl<N: Clone, IndStorage: ArrayLike<usize>, DataStorage: ArrayLike<N>> CsMat<
    N,
    IndStorage,
    DataStorage,
> {
    /// The value stored at outer index `outer_ind`, inner index `inner_ind`, or
    /// `None` when no entry is stored there.
    pub fn at_outer_inner(&self, idx: &(usize, usize)) -> (r: Option<N>)
        requires
            self.wf(),
            idx.0 < self.outer_dim(),
        ensures
            r is None <==> !exists|p: int| self.stores_at(idx.0 as int, idx.1 as int, p),
            forall|p: int|
                self.stores_at(idx.0 as int, idx.1 as int, p) ==> (r matches Some(v) && cloned(
                    self.data_view()[p],
                    v,
                )),
    {
        let (outer_ind, inner_ind) = *idx;
        let indptr = self.indptr.as_items();
        let begin = indptr[outer_ind];
        let end = indptr[outer_ind + 1];
        if begin >= end {
            return None;
        }
        let indices = &self.indices.as_items()[begin..end];
        let data = &self.data.as_items()[begin..end];
        proof {
            assert(indices@ == outer_slice(indptr@, self.indices_view(), outer_ind as int));
        }
        let position = match search_sorted(indices, inner_ind) {
            Some(ind) => ind,
            None => {
                proof {
                    assert forall|p: int| !self.stores_at(outer_ind as int, inner_ind as int, p) by {
                        if self.stores_at(outer_ind as int, inner_ind as int, p) {
                            assert(indices@[p - begin] == inner_ind);
                        }
                    }
                }
                return None;
            },
        };
        let v = data[position].clone();
        proof {
            let q = begin + position;
            assert(self.stores_at(outer_ind as int, inner_ind as int, q));
            assert forall|p: int| self.stores_at(outer_ind as int, inner_ind as int, p) implies p
                == q by {
                let sl = outer_slice(indptr@, self.indices_view(), outer_ind as int);
                if p < q {
                    assert(sl[p - begin] < sl[q - begin]);
                } else if p > q {
                    assert(sl[q - begin] < sl[p - begin]);
                }
            }
        }
        Some(v)
    }

    /// The value stored at row `i`, column `j`, or `None` when no entry is
    /// stored there. The indices must lie within the matrix.
    pub fn at(&self, idx: &(usize, usize)) -> (r: Option<N>)
        requires
            self.wf(),
            idx.0 < self.nrows_view(),
            idx.1 < self.ncols_view(),
        ensures
            ({
                let (o, n) = self.outer_inner(idx.0 as int, idx.1 as int);
                &&& r is None <==> !exists|p: int| self.stores_at(o, n, p)
                &&& forall|p: int|
                    self.stores_at(o, n, p) ==> (r matches Some(v) && cloned(self.data_view()[p], v))
            }),
    {
        let (i, j) = *idx;
        match self.storage {
            CompressedStorage::CSR => {
                let r = self.at_outer_inner(&(i, j));
                assert(self.outer_inner(i as int, j as int) == (i as int, j as int));
                r
            },
            CompressedStorage::CSC => {
                let r = self.at_outer_inner(&(j, i));
                assert(self.outer_inner(i as int, j as int) == (j as int, i as int));
                r
            },
        }
    }
}

impl<'a, N> CsMat<N, &'a [usize], &'a [N]> {
    /// A matrix that borrows the given arrays, after checking their structure.
    pub fn from_slices(
        storage: CompressedStorage,
        nrows: usize,
        ncols: usize,
        indptr: &'a [usize],
        indices: &'a [usize],
        data: &'a [N],
    ) -> (r: Result<CsMat<N, &'a [usize], &'a [N]>, StructuralError>)
        ensures
            match r {
                Ok(m) => {
                    &&& structure_error(storage, nrows, ncols, indptr@, indices@, data@.len())
                        is None
                    &&& m.wf()
                    &&& m.storage_view() == storage
                    &&& m.nrows_view() == nrows
                    &&& m.ncols_view() == ncols
                    &&& m.indptr_view() == indptr@
                    &&& m.indices_view() == indices@
                    &&& m.data_view() == data@
                },
                Err(e) => structure_error(storage, nrows, ncols, indptr@, indices@, data@.len())
                    == Some(e.kind),
            },
    {
        match check_compressed_structure(storage, nrows, ncols, indptr, indices, data) {
            Ok(nnz) => Ok(
                CsMat {
                    storage,
                    nrows,
                    ncols,
                    nnz,
                    indptr,
                    indices,
                    data,
                    _elem: core::marker::PhantomData,
                },
            ),
            Err(e) => Err(e),
        }
    }
}

impl<N> CsMat<N, Vec<usize>, Vec<N>> {
    /// A matrix that owns the given buffers, after checking their structure.
    pub fn from_vecs(
        storage: CompressedStorage,
        nrows: usize,
        ncols: usize,
        indptr: Vec<usize>,
        indices: Vec<usize>,
        data: Vec<N>,
    ) -> (r: Result<CsMat<N, Vec<usize>, Vec<N>>, StructuralError>)
        ensures
            match r {
                Ok(m) => {
                    &&& structure_error(storage, nrows, ncols, indptr@, indices@, data@.len())
                        is None
                    &&& m.wf()
                    &&& m.storage_view() == storage
                    &&& m.nrows_view() == nrows
                    &&& m.ncols_view() == ncols
                    &&& m.indptr_view() == indptr@
                    &&& m.indices_view() == indices@
                    &&& m.data_view() == data@
                },
                Err(e) => structure_error(storage, nrows, ncols, indptr@, indices@, data@.len())
                    == Some(e.kind),
            },
    {
        match check_compressed_structure(
            storage,
            nrows,
            ncols,
            indptr.as_slice(),
            indices.as_slice(),
            data.as_slice(),
        ) {
            Ok(nnz) => Ok(
                CsMat {
                    storage,
                    nrows,
                    ncols,
                    nnz,
                    indptr,
                    indices,
                    data,
                    _elem: core::marker::PhantomData,
                },
            ),
            Err(e) => Err(e),
        }
    }
}

/// The total number of entries over a sequence of outer iteration items.
pub open spec fn total_entries<N>(items: Seq<(int, Seq<usize>, Seq<N>)>) -> int
    decreases items.len(),
{
    if items.len() == 0 {
        0
    } else {
        total_entries(items.drop_last()) + items.last().1.len()
    }
}

/// A well-formed matrix satisfies each structural invariant on its own: the
/// offset array has one more entry than the outer dimension, indices and values
/// have one length, the stored-entry count, offsets are in range and never
/// decrease, the last offset closes the entries, inner coordinates are in
/// range, and each outer slice is strictly increasing.
pub proof fn lemma_valid_structure<N, I: ArrayLike<usize>, D: ArrayLike<N>>(m: &CsMat<N, I, D>)
    requires
        m.wf(),
    ensures
        m.indptr_view().len() == m.outer_dim() + 1,
        m.indices_view().len() == m.data_view().len(),
        m.indices_view().len() == m.nnz_view(),
        indptr_in_range(m.indptr_view(), m.nnz_view()),
        indices_in_range(m.indices_view(), m.inner_dim()),
        indptr_sorted(m.indptr_view()),
        m.indptr_view()[m.outer_dim() as int] == m.nnz_view(),
        slices_sorted(m.indptr_view(), m.indices_view()),
{
}

/// Outer iteration of a well-formed matrix yields one item per outer index,
/// the `k`-th item carrying index `k`; together the items hold every stored
/// entry past the first offset, so all `nnz` entries when `indptr` starts at 0.
pub proof fn lemma_outer_iteration<N, I: ArrayLike<usize>, D: ArrayLike<N>>(m: &CsMat<N, I, D>)
    requires
        m.wf(),
    ensures
        m.outer_items().len() == m.outer_dim(),
        forall|k: int| 0 <= k < m.outer_dim() ==> #[trigger] m.outer_items()[k].0 == k,
        total_entries(m.outer_items()) == m.nnz_view() - m.indptr_view()[0],
        m.indptr_view()[0] == 0 ==> total_entries(m.outer_items()) == m.nnz_view(),
{
    lemma_entries_prefix(m, m.outer_dim() as int);
    assert(m.outer_items().take(m.outer_dim() as int) =~= m.outer_items());
}

/// The items of the first `n` outer indices hold the entries between the
/// first offset and offset `n`.
proof fn lemma_entries_prefix<N, I: ArrayLike<usize>, D: ArrayLike<N>>(m: &CsMat<N, I, D>, n: int)
    requires
        m.wf(),
        0 <= n <= m.outer_dim(),
    ensures
        total_entries(m.outer_items().take(n)) == m.indptr_view()[n] - m.indptr_view()[0],
    decreases n,
{
    let items = m.outer_items().take(n);
    if n > 0 {
        lemma_entries_prefix(m, n - 1);
        assert(items.drop_last() =~= m.outer_items().take(n - 1));
        assert(m.indptr_view()[n - 1] <= m.indptr_view()[n]);
        assert(m.indptr_view()[n] <= m.nnz_view());
    }
}

/// A candidate is accepted exactly when every structural invariant holds, and
/// one that breaks a single invariant, keeping all the others, is refused with
/// the kind of that invariant.
pub proof fn lemma_rejection_complete(
    storage: CompressedStorage,
    nrows: usize,
    ncols: usize,
    indptr: Seq<usize>,
    indices: Seq<usize>,
    data_len: nat,
)
    ensures
        ({
            let outer = outer_dim_of(storage, nrows, ncols);
            let inner = inner_dim_of(storage, nrows, ncols);
            let e = structure_error(storage, nrows, ncols, indptr, indices, data_len);
            let len_ok = indptr.len() == outer + 1;
            let data_ok = indices.len() == data_len;
            let range_ok = indptr_in_range(indptr, indices.len());
            let inner_ok = indices_in_range(indices, inner);
            let sorted_ok = indptr_sorted(indptr);
            let last_ok = indptr[outer as int] == indices.len();
            let slices_ok = slices_sorted(indptr, indices);
            &&& e is None <==> (len_ok && data_ok && range_ok && inner_ok && sorted_ok && last_ok
                && slices_ok)
            &&& !len_ok ==> e == Some(StructuralErrorKind::BadIndptrLength)
            &&& (len_ok && !data_ok) ==> e == Some(StructuralErrorKind::BadIndicesDataLength)
            &&& (len_ok && data_ok && !range_ok) ==> e == Some(
                StructuralErrorKind::IndptrOutOfRange,
            )
            &&& (len_ok && data_ok && range_ok && !inner_ok) ==> e == Some(
                StructuralErrorKind::IndicesOutOfRange,
            )
            &&& (len_ok && data_ok && range_ok && inner_ok && !sorted_ok) ==> e == Some(
                StructuralErrorKind::IndptrNotSorted,
            )
            &&& (len_ok && data_ok && range_ok && inner_ok && sorted_ok && !last_ok) ==> e == Some(
                StructuralErrorKind::NnzMismatch,
            )
            &&& (len_ok && data_ok && range_ok && inner_ok && sorted_ok && last_ok && !slices_ok)
                ==> e == Some(StructuralErrorKind::IndicesNotSortedPerRow)
        }),
{
}

} // verus!
