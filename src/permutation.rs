use vstd::prelude::*;

verus! {

/// How a permutation is held: no-op, or a pair of borrowed index arrays.
#[derive(Clone, Copy)]
enum PermKind<'a> {
    Identity,
    Explicit { fwd: &'a [usize], inv: &'a [usize] },
}

/// A bijective reindexing of `0..n`, together with its inverse, borrowed from
/// the caller; or the identity, which reindexes any index to itself.
#[derive(Clone, Copy)]
pub struct Permutation<'a> {
    kind: PermKind<'a>,
}

/// `fwd` and `inv` are mutually inverse bijections of `0..fwd.len()`.
pub open spec fn is_bijection_pair(fwd: Seq<usize>, inv: Seq<usize>) -> bool {
    &&& fwd.len() == inv.len()
    &&& forall|i: int|
        #![trigger fwd[i]]
        0 <= i < fwd.len() ==> fwd[i] < fwd.len() && inv[fwd[i] as int] == i
    &&& forall|j: int|
        #![trigger inv[j]]
        0 <= j < inv.len() ==> inv[j] < inv.len() && fwd[inv[j] as int] == j
}

impl<'a> Permutation<'a> {
    /// Whether this is the identity.
    pub closed spec fn is_identity(&self) -> bool {
        self.kind is Identity
    }

    /// The forward index array (empty for the identity).
    pub closed spec fn fwd(&self) -> Seq<usize> {
        match self.kind {
            PermKind::Identity => Seq::empty(),
            PermKind::Explicit { fwd, .. } => fwd@,
        }
    }

    /// The inverse index array (empty for the identity).
    pub closed spec fn inv_arr(&self) -> Seq<usize> {
        match self.kind {
            PermKind::Identity => Seq::empty(),
            PermKind::Explicit { inv, .. } => inv@,
        }
    }

    /// Well-formedness: an explicit permutation holds two mutually inverse arrays.
    pub open spec fn wf(&self) -> bool {
        self.is_identity() || is_bijection_pair(self.fwd(), self.inv_arr())
    }

    /// Whether the permutation can reindex every index of `0..n`.
    pub open spec fn admits(&self, n: nat) -> bool {
        self.is_identity() || self.fwd().len() == n
    }

    /// Where the permutation sends index `k`.
    pub open spec fn spec_at(&self, k: int) -> int {
        if self.is_identity() {
            k
        } else {
            self.fwd()[k] as int
        }
    }

    /// Where the inverse permutation sends index `k`.
    pub open spec fn spec_inv_at(&self, k: int) -> int {
        if self.is_identity() {
            k
        } else {
            self.inv_arr()[k] as int
        }
    }

    /// The permutation that leaves every index in place.
    pub fn identity() -> (r: Permutation<'a>)
        ensures
            r.wf(),
            r.is_identity(),
            forall|k: int| r.spec_at(k) == k,
    {
        Permutation { kind: PermKind::Identity }
    }

    /// Builds a permutation from its forward array and its inverse array.
    /// Returns `None` unless the two are mutually inverse bijections.
    pub fn from_slices(fwd: &'a [usize], inv: &'a [usize]) -> (r: Option<Permutation<'a>>)
        ensures
            r is Some <==> is_bijection_pair(fwd@, inv@),
            r matches Some(p) ==> p.wf() && !p.is_identity() && p.fwd() == fwd@
                && p.inv_arr() == inv@,
    {
        let n = fwd.len();
        if inv.len() != n {
            return None;
        }
        let mut i: usize = 0;
        while i < n
            invariant
                n == fwd@.len() == inv@.len(),
                i <= n,
                forall|a: int|
                    #![trigger fwd@[a]]
                    0 <= a < i ==> fwd@[a] < n && inv@[fwd@[a] as int] == a,
            decreases n - i,
        {
            let f = fwd[i];
            if f >= n || inv[f] != i {
                return None;
            }
            i = i + 1;
        }
        let mut j: usize = 0;
        while j < n
            invariant
                n == fwd@.len() == inv@.len(),
                j <= n,
                forall|a: int|
                    #![trigger fwd@[a]]
                    0 <= a < n ==> fwd@[a] < n && inv@[fwd@[a] as int] == a,
                forall|b: int|
                    #![trigger inv@[b]]
                    0 <= b < j ==> inv@[b] < n && fwd@[inv@[b] as int] == b,
            decreases n - j,
        {
            let g = inv[j];
            if g >= n || fwd[g] != j {
                return None;
            }
            j = j + 1;
        }
        Some(Permutation { kind: PermKind::Explicit { fwd, inv } })
    }

    /// A copy of this permutation, borrowing the same arrays.
    pub fn borrowed(&self) -> (r: Permutation<'a>)
        ensures
            r == *self,
    {
        *self
    }

    /// The inverse permutation.
    pub fn inv(&self) -> (r: Permutation<'a>)
        requires
            self.wf(),
        ensures
            r.wf(),
            r.is_identity() == self.is_identity(),
            r.fwd() == self.inv_arr(),
            r.inv_arr() == self.fwd(),
            forall|k: int| r.spec_at(k) == self.spec_inv_at(k),
    {
        match self.kind {
            PermKind::Identity => Permutation { kind: PermKind::Identity },
            PermKind::Explicit { fwd, inv } => Permutation {
                kind: PermKind::Explicit { fwd: inv, inv: fwd },
            },
        }
    }

    /// Where the permutation sends index `k`.
    pub fn at(&self, k: usize) -> (r: usize)
        requires
            self.wf(),
            self.is_identity() || k < self.fwd().len(),
        ensures
            r == self.spec_at(k as int),
            !self.is_identity() ==> r < self.fwd().len(),
    {
        match self.kind {
            PermKind::Identity => k,
            PermKind::Explicit { fwd, .. } => fwd[k],
        }
    }
}

} // verus!
