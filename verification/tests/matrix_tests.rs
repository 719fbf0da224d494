use matgrid::matrix::Matrix;

#[test]
fn matrix_rearrange_test() {
    let matrix = Matrix::new(vec![0u8, 1, 2, 3, 4, 5, 6, 7, 8, 9]);
    let m2x5 = matrix.rearrange(2, 5).unwrap();
    let mut rows = m2x5.as_rowmatrix();
    while let Some(row) = rows.next() {
        println!("{:?}", row.as_slice());
    }
    let m5x2 = m2x5.rearrange(5, 2).unwrap();
    let mut rows = m5x2.as_rowmatrix();
    while let Some(row) = rows.next() {
        println!("{:?}", row.as_slice());
    }
}

#[test]
fn matrix_add_test() {
    let m5x2 = Matrix::new(vec![0u8, 1, 2, 3, 4, 5, 6, 7, 8, 9])
        .rearrange(5, 2)
        .unwrap();
    let m5x2_clone = m5x2.clone();

    let m5x2_sum = m5x2.add(m5x2_clone).unwrap();

    let mut rows = m5x2_sum.as_rowmatrix();
    while let Some(row) = rows.next() {
        println!("{:?}", row.as_slice());
    }
}

#[test]
fn matrix_col_iter() {
    let m5x2 = Matrix::new(vec![0u8, 1, 2, 3, 4, 5, 6, 7, 8, 9])
        .rearrange(5, 2)
        .unwrap();
    let _col1 = m5x2.col(1).unwrap();
    println!("{:?}", m5x2.data);
}

#[test]
fn matrix_transpose() {
    let m2x5 = Matrix::new(vec![0u8, 1, 2, 3, 4, 5, 6, 7, 8, 9])
        .rearrange(2, 5)
        .unwrap();
    let mut rows = m2x5.as_rowmatrix();
    while let Some(row) = rows.next() {
        println!("{:?}", row.as_slice());
    }
    let m5x2 = m2x5.transpose();
    let mut rows = m5x2.as_rowmatrix();
    while let Some(row) = rows.next() {
        println!("{:?}", row.as_slice());
    }
}

#[test]
fn matrix_iter_mut() {
    let mut m3x3 = Matrix::new(vec![0u8, 1, 2, 3, 4, 5, 6, 7, 8])
        .rearrange(3, 3)
        .unwrap();
    let mut binding = m3x3.row_mut(2).unwrap();
    let mut row2 = binding.iter_mut();
    while let Some(ele) = row2.next() {
        *ele *= 2;
    }
    println!("{:?}", m3x3.data);
    let mut col = m3x3.col_mut(2).unwrap();

    let mut it = col.iter_mut();
    while let Some(ele) = it.next() {
        *ele *= 2;
    }
    col.set(0, 1);
    col.set(1, 1);

    m3x3.col_mut(0).unwrap().set(0, 1);
    println!("{:?}", m3x3);
}
