use matgrid::matrix::Matrix;
use matgrid::vector::{ColVec, RowVec};

#[test]
fn reshape_maps_every_element() {
    let flat: Vec<u8> = vec![7, 1, 4, 9, 2, 8];
    let m = Matrix::new(flat.clone()).rearrange(2, 3).unwrap();
    for r in 0..2usize {
        for c in 0..3usize {
            let row = m.row(r).unwrap();
            assert_eq!(*row.get(c).unwrap(), flat[r * 3 + c]);
            let col = m.col(c).unwrap();
            assert_eq!(*col.get(r).unwrap(), flat[r * 3 + c]);
        }
    }
}

#[test]
fn reshape_mismatch_fails_and_recovers() {
    let flat: Vec<u8> = vec![0, 1, 2, 3, 4, 5, 6, 7, 8, 9];
    let m = Matrix::new(flat.clone());
    let err = m.rearrange(3, 4).unwrap_err();
    let recovered = err.matrix;
    assert_eq!(recovered.data, flat);
    assert_eq!(recovered.row, 1);
    assert_eq!(recovered.col, 10);
    let ok = recovered.rearrange(2, 5).unwrap();
    assert_eq!(ok.data, flat);
}

#[test]
fn reshape_zero_area_only_fits_empty() {
    let empty = Matrix::new(Vec::<u8>::new());
    assert_eq!(empty.row, 1);
    assert_eq!(empty.col, 0);
    let m0 = empty.rearrange(0, 0).unwrap();
    assert_eq!(m0.row, 0);
    assert_eq!(m0.col, 0);

    let full = Matrix::new(vec![1u8, 2]);
    assert!(full.rearrange(0, 5).is_err());
}

#[test]
fn row_major_round_trip() {
    let flat: Vec<u8> = vec![3, 1, 4, 1, 5, 9, 2, 6];
    let m = Matrix::new(flat.clone()).rearrange(4, 2).unwrap();
    let mut flattened: Vec<u8> = Vec::new();
    let mut rows = m.as_rowmatrix();
    while let Some(row) = rows.next() {
        let mut it = row.iter();
        while let Some(e) = it.next() {
            flattened.push(*e);
        }
    }
    assert_eq!(flattened, flat);
    let back = Matrix::new(flattened).rearrange(4, 2).unwrap();
    assert_eq!(back.data, m.data);
    assert_eq!(back.row, m.row);
    assert_eq!(back.col, m.col);
}

#[test]
fn transpose_twice_restores_rectangular() {
    let flat: Vec<u8> = vec![0, 1, 2, 3, 4, 5, 6, 7, 8, 9];
    let m = Matrix::new(flat.clone()).rearrange(2, 5).unwrap();
    let t = m.transpose();
    assert_eq!(t.row, 5);
    assert_eq!(t.col, 2);
    let tt = t.transpose();
    assert_eq!(tt.row, 2);
    assert_eq!(tt.col, 5);
    assert_eq!(tt.data, flat);
}

#[test]
fn transpose_twice_restores_square() {
    let flat: Vec<u8> = vec![1, 2, 3, 4, 5, 6, 7, 8, 9];
    let m = Matrix::new(flat.clone()).rearrange(3, 3).unwrap();
    let tt = m.transpose().transpose();
    assert_eq!(tt.row, 3);
    assert_eq!(tt.col, 3);
    assert_eq!(tt.data, flat);
}

#[test]
fn transpose_vector_swaps_extents() {
    let m = Matrix::new(vec![5u8, 6, 7]);
    let t = m.transpose();
    assert_eq!(t.row, 3);
    assert_eq!(t.col, 1);
    assert_eq!(t.data, vec![5, 6, 7]);
}

#[test]
fn transpose_three_by_three_scenario() {
    let m = Matrix::new(vec![0u8, 1, 2, 3, 4, 5, 6, 7, 8])
        .rearrange(3, 3)
        .unwrap();
    let t = m.transpose();
    assert_eq!(t.data, vec![0, 3, 6, 1, 4, 7, 2, 5, 8]);
}

#[test]
fn reshape_two_by_five_scenario() {
    let m = Matrix::new(vec![0u8, 1, 2, 3, 4, 5, 6, 7, 8, 9])
        .rearrange(2, 5)
        .unwrap();
    let m5x2 = m.rearrange(5, 2).unwrap();
    let expected: [[u8; 2]; 5] = [[0, 1], [2, 3], [4, 5], [6, 7], [8, 9]];
    for (r, want) in expected.iter().enumerate() {
        let row = m5x2.row(r).unwrap();
        assert_eq!(row.as_slice(), &want[..]);
    }
}

#[test]
fn add_three_by_three_scenario() {
    let m = Matrix::new(vec![0u8, 1, 2, 3, 4, 5, 6, 7, 8])
        .rearrange(3, 3)
        .unwrap();
    let sum = m.clone().add(m).unwrap();
    assert_eq!(sum.data, vec![0, 2, 4, 6, 8, 10, 12, 14, 16]);
}

#[test]
fn add_commutes_elementwise() {
    let a = Matrix::new(vec![1i64, -2, 30, 4, 5, -6])
        .rearrange(2, 3)
        .unwrap();
    let b = Matrix::new(vec![10i64, 20, -30, 40, 0, 6])
        .rearrange(2, 3)
        .unwrap();
    let ab = a.clone().add(b.clone()).unwrap();
    let ba = b.add(a).unwrap();
    assert_eq!(ab.data, ba.data);
    assert_eq!(ab.data, vec![11, 18, 0, 44, 5, 0]);
}

#[test]
fn plus_is_a_thin_wrapper_over_add() {
    let a = Matrix::new(vec![1u8, 2, 3, 4]).rearrange(2, 2).unwrap();
    let b = Matrix::new(vec![10u8, 20, 30, 40]).rearrange(2, 2).unwrap();
    let sum = a.plus(b);
    assert_eq!(sum.data, vec![11, 22, 33, 44]);
    assert_eq!(sum.row, 2);
    assert_eq!(sum.col, 2);
}

#[test]
fn add_shape_mismatch_fails() {
    let a = Matrix::new(vec![0u8, 1, 2, 3, 4, 5]).rearrange(2, 3).unwrap();
    let b = Matrix::new(vec![0u8, 1, 2, 3, 4, 5]).rearrange(3, 2).unwrap();
    assert!(a.add(b).is_err());
}

#[test]
fn mutable_column_iteration_is_in_order_and_visible() {
    let mut m = Matrix::new(vec![0u8; 6]).rearrange(3, 2).unwrap();
    let mut col = m.col_mut(1).unwrap();
    let mut it = col.iter_mut();
    let mut stamp: u8 = 1;
    let mut count: usize = 0;
    while let Some(e) = it.next() {
        *e = stamp;
        stamp += 1;
        count += 1;
    }
    assert_eq!(count, 3);
    let shared = m.col(1).unwrap();
    assert_eq!(*shared.get(0).unwrap(), 1);
    assert_eq!(*shared.get(1).unwrap(), 2);
    assert_eq!(*shared.get(2).unwrap(), 3);
    assert_eq!(m.data, vec![0, 1, 0, 2, 0, 3]);
}

#[test]
fn mutable_column_get_and_set() {
    let mut m = Matrix::new(vec![0u8, 1, 2, 3, 4, 5]).rearrange(3, 2).unwrap();
    let mut col = m.col_mut(0).unwrap();
    assert!(col.get(3).is_none());
    *col.get(1).unwrap() = 42;
    col.set(2, 7);
    assert_eq!(col.to_vec().data, vec![0, 42, 7]);
    let again: Vec<u8> = col.as_col().to_vec().data;
    assert_eq!(again, vec![0, 42, 7]);
    assert_eq!(m.data, vec![0, 1, 42, 3, 7, 5]);
}

#[test]
fn mutable_column_into_iter_consumes() {
    let mut m = Matrix::new(vec![1u8, 2, 3, 4]).rearrange(2, 2).unwrap();
    let col = m.col_mut(0).unwrap();
    let mut it = col.into_iter();
    while let Some(e) = it.next() {
        *e += 10;
    }
    assert_eq!(m.data, vec![11, 2, 13, 4]);
}

#[test]
fn mutable_row_access() {
    let mut m = Matrix::new(vec![0u8, 1, 2, 3, 4, 5]).rearrange(2, 3).unwrap();
    let mut row = m.row_mut(1).unwrap();
    assert_eq!(row.as_slice(), &[3u8, 4, 5][..]);
    assert!(row.get(3).is_none());
    *row.get(0).unwrap() = 30;
    row.set(2, 50);
    assert_eq!(m.data, vec![0, 1, 2, 30, 4, 50]);
    assert!(m.row_mut(2).is_none());
    assert!(m.col_mut(3).is_none());
}

#[test]
fn shared_views_out_of_range() {
    let m = Matrix::new(vec![0u8, 1, 2, 3]).rearrange(2, 2).unwrap();
    assert!(m.row(2).is_none());
    assert!(m.col(2).is_none());
    let row = m.row(0).unwrap();
    assert!(row.get(2).is_none());
    let col = m.col(0).unwrap();
    assert!(col.get(2).is_none());
}

#[test]
fn row_and_column_iterators_yield_in_order() {
    let m = Matrix::new(vec![0u8, 1, 2, 3, 4, 5]).rearrange(2, 3).unwrap();
    let row = m.row(1).unwrap();
    let mut seen: Vec<u8> = Vec::new();
    let mut it = row.iter();
    while let Some(e) = it.next() {
        seen.push(*e);
    }
    assert_eq!(seen, vec![3, 4, 5]);

    let mut owned: Vec<u8> = Vec::new();
    let mut it = m.row(0).unwrap().into_ele_iter();
    while let Some(e) = it.next() {
        owned.push(e);
    }
    assert_eq!(owned, vec![0, 1, 2]);

    let col = m.col(1).unwrap();
    let mut seen: Vec<u8> = Vec::new();
    let mut it = col.iter();
    while let Some(e) = it.next() {
        seen.push(*e);
    }
    assert_eq!(seen, vec![1, 4]);

    let mut owned: Vec<u8> = Vec::new();
    let mut it = m.col(2).unwrap().into_ele_iter();
    while let Some(e) = it.next() {
        owned.push(e);
    }
    assert_eq!(owned, vec![2, 5]);
}

#[test]
fn matrix_iterators_cover_all_views() {
    let m = Matrix::new(vec![0u8, 1, 2, 3, 4, 5]).rearrange(2, 3).unwrap();
    let mut rows = m.as_rowmatrix();
    let mut row_count: usize = 0;
    while let Some(_row) = rows.next() {
        row_count += 1;
    }
    assert_eq!(row_count, 2);
    let mut cols = m.as_colmatrix();
    let mut col_count: usize = 0;
    while let Some(_col) = cols.next() {
        col_count += 1;
    }
    assert_eq!(col_count, 3);
}

#[test]
fn views_copy_out_to_vectors() {
    let m = Matrix::new(vec![0u8, 1, 2, 3, 4, 5]).rearrange(3, 2).unwrap();
    let row_vec = m.row(1).unwrap().to_vec();
    assert_eq!(row_vec.data, vec![2, 3]);
    let col_vec = m.col(1).unwrap().to_vec();
    assert_eq!(col_vec.data, vec![1, 3, 5]);
}

#[test]
fn row_times_column_dot_product() {
    let m = Matrix::new(vec![1i64, 2, 3, 4, 5, 6]).rearrange(2, 3).unwrap();
    let n = Matrix::new(vec![7i64, 8, 9, 10, 11, 12]).rearrange(3, 2).unwrap();
    let row = m.row(0).unwrap();
    let col = n.col(0).unwrap();
    let dot = row.dot(col);
    assert_eq!(dot, 1 * 7 + 2 * 9 + 3 * 11);
}

#[test]
fn owned_vectors_dot_product() {
    let r = RowVec { data: vec![1i64, -2, 3] };
    let c = ColVec { data: vec![4i64, 5, 6] };
    assert_eq!(r.dot(c), 4 - 10 + 18);
    let r0 = RowVec { data: Vec::<i64>::new() };
    let c0 = ColVec { data: Vec::<i64>::new() };
    assert_eq!(r0.dot(c0), 0);
}
