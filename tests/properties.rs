use csmat::CompressedStorage::{CSC, CSR};
use csmat::{check_compressed_structure, CsMat, CsVec, Permutation, StructuralErrorKind};

fn kind_of(
    storage: csmat::CompressedStorage,
    nrows: usize,
    ncols: usize,
    indptr: &[usize],
    indices: &[usize],
    data: &[f64],
) -> Option<StructuralErrorKind> {
    match CsMat::from_slices(storage, nrows, ncols, indptr, indices, data) {
        Ok(_) => None,
        Err(e) => Some(e.kind),
    }
}

#[test]
fn identity_matrix_scenario() {
    let indptr: &[usize] = &[0, 1, 2, 3];
    let indices: &[usize] = &[0, 1, 2];
    let data: &[f64] = &[1.0, 1.0, 1.0];
    let m = CsMat::from_slices(CSR, 3, 3, indptr, indices, data).unwrap();
    assert_eq!(m.rows(), 3);
    assert_eq!(m.cols(), 3);
    assert!(m.storage_type() == CSR);
    assert_eq!(m.nnz(), 3);
    assert_eq!(m.at(&(1, 1)), Some(1.0));
    assert_eq!(m.at(&(0, 1)), None);
    for i in 0..3 {
        for j in 0..3 {
            let expected = if i == j { Some(1.0) } else { None };
            assert_eq!(m.at(&(i, j)), expected);
        }
    }
}

#[test]
fn rejection_per_row_ordering_kind() {
    let indptr: &[usize] = &[0, 2, 4, 5, 6, 7];
    let indices: &[usize] = &[3, 2, 3, 4, 2, 1, 3];
    let data: &[f64] = &[0.1, 0.2, 0.3, 0.4, 0.5, 0.6, 0.7];
    assert_eq!(
        kind_of(CSR, 5, 5, indptr, indices, data),
        Some(StructuralErrorKind::IndicesNotSortedPerRow)
    );
}

#[test]
fn rejection_each_kind() {
    let data3: &[f64] = &[1.0, 2.0, 3.0];
    assert_eq!(
        kind_of(CSR, 3, 3, &[0, 1, 2], &[0, 1, 2], data3),
        Some(StructuralErrorKind::BadIndptrLength)
    );
    assert_eq!(
        kind_of(CSR, 3, 3, &[0, 1, 2, 3], &[0, 1], data3),
        Some(StructuralErrorKind::BadIndicesDataLength)
    );
    assert_eq!(
        kind_of(CSR, 3, 3, &[0, 1, 2, 4], &[0, 1, 2], data3),
        Some(StructuralErrorKind::IndptrOutOfRange)
    );
    assert_eq!(
        kind_of(CSR, 3, 3, &[0, 1, 2, 3], &[0, 1, 3], data3),
        Some(StructuralErrorKind::IndicesOutOfRange)
    );
    assert_eq!(
        kind_of(CSR, 3, 3, &[0, 2, 1, 3], &[0, 1, 2], data3),
        Some(StructuralErrorKind::IndptrNotSorted)
    );
    assert_eq!(
        kind_of(CSR, 3, 3, &[0, 1, 2, 2], &[0, 1, 2], data3),
        Some(StructuralErrorKind::NnzMismatch)
    );
    assert_eq!(
        kind_of(CSR, 3, 3, &[0, 2, 2, 3], &[1, 1, 2], data3),
        Some(StructuralErrorKind::IndicesNotSortedPerRow)
    );
    assert_eq!(kind_of(CSR, 3, 3, &[0, 2, 2, 3], &[0, 1, 2], data3), None);
}

#[test]
fn validator_reports_nnz() {
    let data: &[f64] = &[1.0, 2.0, 3.0, 4.0];
    assert_eq!(
        check_compressed_structure(CSC, 2, 3, &[0, 2, 2, 4], &[0, 1, 0, 1], data),
        Ok(4)
    );
    let r = check_compressed_structure(CSC, 3, 2, &[0, 2, 2, 4], &[0, 1, 0, 1], data);
    assert_eq!(r.unwrap_err().kind, StructuralErrorKind::BadIndptrLength);
}

#[test]
fn empty_matrix_is_accepted() {
    let data: &[f64] = &[];
    let m = CsMat::from_slices(CSR, 2, 2, &[0, 0, 0], &[], data).unwrap();
    assert_eq!(m.nnz(), 0);
    assert_eq!(m.at(&(0, 0)), None);
    assert_eq!(m.at(&(1, 1)), None);
    let mut it = m.outer_iterator();
    assert_eq!(it.len(), 2);
    let (k, v) = it.next().unwrap();
    assert_eq!(k, 0);
    assert_eq!(v.nnz(), 0);
}

#[test]
fn lookup_csr_and_csc() {
    let indptr: &[usize] = &[0, 2, 5, 6];
    let indices: &[usize] = &[2, 3, 1, 2, 3, 3];
    let data: &[f64] = &[10.0, 11.0, 12.0, 13.0, 14.0, 15.0];
    let a = CsMat::from_slices(CSR, 3, 4, indptr, indices, data).unwrap();
    assert_eq!(a.at(&(0, 2)), Some(10.0));
    assert_eq!(a.at(&(0, 3)), Some(11.0));
    assert_eq!(a.at(&(1, 1)), Some(12.0));
    assert_eq!(a.at(&(1, 3)), Some(14.0));
    assert_eq!(a.at(&(2, 3)), Some(15.0));
    assert_eq!(a.at(&(0, 0)), None);
    assert_eq!(a.at(&(2, 2)), None);
    let b = CsMat::from_slices(CSC, 4, 3, indptr, indices, data).unwrap();
    assert_eq!(b.at(&(2, 0)), Some(10.0));
    assert_eq!(b.at(&(3, 0)), Some(11.0));
    assert_eq!(b.at(&(1, 1)), Some(12.0));
    assert_eq!(b.at(&(3, 2)), Some(15.0));
    assert_eq!(b.at(&(0, 2)), None);
    assert_eq!(b.at_outer_inner(&(1, 2)), Some(13.0));
}

#[test]
fn lookup_in_empty_row() {
    let indptr: &[usize] = &[0, 3, 3, 5, 6, 7];
    let indices: &[usize] = &[1, 2, 3, 2, 3, 4, 4];
    let data: &[f64] = &[1.0, 2.0, 3.0, 4.0, 5.0, 6.0, 7.0];
    let m = CsMat::from_vecs(CSR, 5, 5, indptr.to_vec(), indices.to_vec(), data.to_vec()).unwrap();
    for j in 0..5 {
        assert_eq!(m.at(&(1, j)), None);
    }
    assert_eq!(m.at(&(0, 3)), Some(3.0));
    assert_eq!(m.at(&(4, 4)), Some(7.0));
}

#[test]
fn outer_iteration_complete_and_ordered() {
    let indptr: &[usize] = &[0, 3, 3, 5, 6, 7];
    let indices: &[usize] = &[1, 2, 3, 2, 3, 4, 4];
    let data: &[f64] = &[1.0, 2.0, 3.0, 4.0, 5.0, 6.0, 7.0];
    let m = CsMat::from_slices(CSR, 5, 5, indptr, indices, data).unwrap();
    let mut it = m.outer_iterator();
    assert_eq!(it.len(), 5);
    assert_eq!(it.size_hint(), (5, Some(5)));
    let mut k: usize = 0;
    let mut total: usize = 0;
    while let Some((i, v)) = it.next() {
        assert_eq!(i, k);
        assert_eq!(v.indices(), &indices[indptr[k]..indptr[k + 1]]);
        assert_eq!(v.data(), &data[indptr[k]..indptr[k + 1]]);
        total += v.nnz();
        k += 1;
    }
    assert_eq!(k, 5);
    assert_eq!(total, m.nnz());
    assert!(it.next().is_none());
    assert!(it.next_back().is_none());
}

fn drain_forward<'a>(mut it: csmat::OuterIterator<'a, f64>) -> Vec<(usize, Vec<usize>, Vec<f64>)> {
    let mut out = Vec::new();
    while let Some((i, v)) = it.next() {
        out.push((i, v.indices().to_vec(), v.data().to_vec()));
    }
    out
}

fn drain_backward<'a>(mut it: csmat::OuterIterator<'a, f64>) -> Vec<(usize, Vec<usize>, Vec<f64>)> {
    let mut out = Vec::new();
    while let Some((i, v)) = it.next_back() {
        out.push((i, v.indices().to_vec(), v.data().to_vec()));
    }
    out
}

#[test]
fn reverse_iteration_symmetry() {
    let indptr: &[usize] = &[0, 2, 5, 6];
    let indices: &[usize] = &[2, 3, 1, 2, 3, 3];
    let data: &[f64] = &[10.0, 11.0, 12.0, 13.0, 14.0, 15.0];
    let m = CsMat::from_slices(CSR, 3, 4, indptr, indices, data).unwrap();
    let forward = drain_forward(m.outer_iterator());
    let mut backward = drain_backward(m.outer_iterator());
    assert_eq!(backward[0].0, 2);
    assert_eq!(backward[0].1, vec![3]);
    assert_eq!(backward[1].1, vec![1, 2, 3]);
    backward.reverse();
    assert_eq!(forward, backward);
}

#[test]
fn mixed_ends_iteration() {
    let indptr: &[usize] = &[0, 2, 5, 6];
    let indices: &[usize] = &[2, 3, 1, 2, 3, 3];
    let data: &[f64] = &[10.0, 11.0, 12.0, 13.0, 14.0, 15.0];
    let m = CsMat::from_slices(CSR, 3, 4, indptr, indices, data).unwrap();
    let mut it = m.outer_iterator();
    assert_eq!(it.next().unwrap().0, 0);
    assert_eq!(it.next_back().unwrap().0, 2);
    assert_eq!(it.len(), 1);
    assert_eq!(it.next_back().unwrap().0, 1);
    assert_eq!(it.len(), 0);
    assert!(it.next().is_none());
    assert!(it.next_back().is_none());
}

#[test]
fn permutation_orientation() {
    let fwd: &[usize] = &[2, 0, 1];
    let inv: &[usize] = &[1, 2, 0];
    let p = Permutation::from_slices(fwd, inv).unwrap();
    let indptr: &[usize] = &[0, 1, 2, 3];
    let indices: &[usize] = &[0, 1, 2];
    let data: &[f64] = &[1.0, 2.0, 3.0];
    let a = CsMat::from_slices(CSR, 3, 3, indptr, indices, data).unwrap();
    let b = CsMat::from_slices(CSC, 3, 3, indptr, indices, data).unwrap();
    let rows: Vec<usize> = drain_forward(a.outer_iterator_papt(&p)).iter().map(|x| x.0).collect();
    let cols: Vec<usize> = drain_forward(b.outer_iterator_papt(&p)).iter().map(|x| x.0).collect();
    assert_eq!(rows, vec![2, 0, 1]);
    assert_eq!(cols, vec![1, 2, 0]);
    let q = p.inv();
    for k in 0..3 {
        assert_eq!(rows[k], p.at(k));
        assert_eq!(cols[k], q.at(k));
    }
}

#[test]
fn permutation_checks_inverse() {
    let id = Permutation::identity();
    assert_eq!(id.at(7), 7);
    assert_eq!(id.inv().at(5), 5);
    assert!(Permutation::from_slices(&[2, 0, 1], &[2, 0, 1]).is_none());
    assert!(Permutation::from_slices(&[0, 1], &[0]).is_none());
    assert!(Permutation::from_slices(&[0, 3, 1], &[0, 2, 1]).is_none());
    assert!(Permutation::from_slices(&[1, 0], &[1, 0]).is_some());
}

#[test]
fn row_view_structure_check() {
    let data: &[f64] = &[1.0, 2.0, 3.0];
    let ok = CsVec::new_borrowed(&[0, 2, 5], data, Permutation::identity());
    assert!(ok.check_structure());
    let dup = CsVec::new_borrowed(&[0, 2, 2], data, Permutation::identity());
    assert!(!dup.check_structure());
    let down = CsVec::new_borrowed(&[3, 2, 5], data, Permutation::identity());
    assert!(!down.check_structure());
    assert_eq!(ok.nnz(), 3);
    assert_eq!(ok.perm().at(4), 4);
}
