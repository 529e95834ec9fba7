use flexalgebra::{Array, DMatrix, Dim, Dyn, Dynamic, Matrix, SMatrix, Stat, Static, View, ViewMut};

fn elements<A: Array>(m: &Matrix<A>) -> Vec<A::Element> {
    let mut out = Vec::new();
    let mut it = m.iter();
    while let Some(v) = it.next() {
        out.push(*v);
    }
    out
}

#[test]
fn matrices_test_constructors() {
    let a = Matrix::<Dynamic<u32>>::zeros([5, 6]);
    let b = Matrix::<Static<u32, 5, 6>>::zeros();
    assert_eq!(a.shape(), [5, 6]);
    assert_eq!(b.shape(), [5, 6]);
    assert!(elements(&a).iter().all(|&v| v == 0));
    assert!(elements(&b).iter().all(|&v| v == 0));
}

#[test]
fn identity_has_ones_on_diagonal_only() {
    let m = DMatrix::<i32>::identity([3, 4]);
    for i in 0..3 {
        for j in 0..4 {
            assert_eq!(*m.get([i, j]), if i == j { 1 } else { 0 });
        }
    }
    let s = SMatrix::<u8, 2, 2>::identity();
    assert_eq!(elements(&s), vec![1, 0, 0, 1]);
    let d = Matrix::<Dynamic<u64, Dyn, Stat<2>>>::identity(3);
    assert_eq!(d.shape(), [3, 2]);
    assert_eq!(elements(&d), vec![1, 0, 0, 0, 1, 0]);
    let e = Matrix::<Dynamic<usize, Stat<2>, Dyn>>::identity(1);
    assert_eq!(elements(&e), vec![1, 0]);
}

#[test]
fn constructors_fill_as_asked() {
    assert_eq!(elements(&SMatrix::<i64, 2, 2>::full(9)), vec![9; 4]);
    assert_eq!(elements(&DMatrix::<u32>::ones([2, 1])), vec![1, 1]);
    let f = DMatrix::<usize>::field([2, 3], |[i, j]| 10 * i + j);
    assert_eq!(elements(&f), vec![0, 10, 1, 11, 2, 12]);
    let e = Matrix::<Dynamic<i32, Stat<3>, Stat<2>>>::empty();
    assert_eq!(e.shape(), [3, 2]);
    assert_eq!(e.size(), 6);
}

#[test]
fn shape_queries() {
    let m = DMatrix::<i32>::zeros([3, 4]);
    assert_eq!(m.rows(), 3);
    assert_eq!(m.columns(), 4);
    assert_eq!(m.strides(), [1, 3]);
    assert_eq!(m.size(), 12);
    assert_eq!(m.area(), 12);
    assert!(m.is_contiguous());
    let t = m.transpose();
    assert_eq!(t.shape(), [4, 3]);
    assert_eq!(t.strides(), [3, 1]);
    assert!(t.is_contiguous());
    let empty = DMatrix::<i32>::zeros([0, 4]);
    assert_eq!(empty.area(), 0);
    assert_eq!(empty.size(), 0);
}

#[test]
fn axis_check_accepts_only_its_size() {
    assert!(Stat::<3>::check(3).is_some());
    assert!(Stat::<3>::check(4).is_none());
    assert_eq!(Dyn::check(17).unwrap().value(), 17);
    assert_eq!(Stat::<5>::check(5).unwrap().value(), 5);
}

#[test]
fn try_from_slice_rejects_short_buffers() {
    let data = [1, 2, 3, 4, 5];
    assert!(Matrix::<View<i32>>::try_from_slice([2, 3], &data).is_none());
    assert!(Matrix::<View<i32>>::try_from_slice([usize::MAX, 2], &data).is_none());
    let v = Matrix::<View<i32>>::try_from_slice([2, 2], &data).unwrap();
    assert_eq!(*v.get([1, 1]), 4);
    assert!(Matrix::<View<i32, Stat<3>, Dyn>>::try_from_slice([2, 2], &data).is_none());
    let mut buf = [0u8; 3];
    assert!(Matrix::<ViewMut<u8>>::try_from_slice([2, 2], &mut buf).is_none());
}

#[test]
fn try_from_strides_checks_the_last_offset() {
    let data = [0, 1, 2, 3, 4, 5, 6, 7];
    let v = Matrix::<View<i32>>::try_from_strides([2, 3], [1, 3], &data).unwrap();
    assert_eq!(*v.get([1, 2]), 7);
    assert!(Matrix::<View<i32>>::try_from_strides([2, 3], [1, 4], &data).is_none());
    let r = Matrix::<View<i32>>::try_from_strides([3, 2], [2, 1], &data).unwrap();
    assert_eq!(*r.get([2, 1]), 5);
    let mut buf = [0i32; 4];
    {
        let mut w = Matrix::<ViewMut<i32>>::try_from_strides([2, 2], [2, 1], &mut buf).unwrap();
        w.set([1, 0], 9);
    }
    assert_eq!(buf, [0, 0, 9, 0]);
}

#[test]
fn try_from_vec_needs_enough_elements() {
    assert!(Matrix::<Dynamic<i32>>::try_from_vec([2, 2], vec![1, 2, 3]).is_none());
    let m = Matrix::<Dynamic<i32>>::try_from_vec([2, 2], vec![1, 2, 3, 4]).unwrap();
    assert_eq!(*m.get([0, 1]), 3);
    assert!(Matrix::<Dynamic<i32, Stat<3>, Dyn>>::try_from_vec([2, 2], vec![1, 2, 3, 4]).is_none());
}

#[test]
fn transpose_twice_round_trips() {
    let m = DMatrix::<usize>::field([2, 3], |[i, j]| 3 * i + j);
    let t = m.transpose();
    assert_eq!(*t.get([2, 1]), *m.get([1, 2]));
    let tt = t.transpose();
    assert_eq!(tt.shape(), m.shape());
    assert_eq!(elements(&tt), elements(&m));
}

#[test]
fn owned_of_view_matches() {
    let m = SMatrix::<i32, 3, 2>::field(|[i, j]| (i as i32) - 2 * (j as i32));
    let o = m.view().owned();
    assert_eq!(o.shape(), [3, 2]);
    assert_eq!(elements(&o), elements(&m));
    let t = m.transpose().owned();
    assert_eq!(t.shape(), [2, 3]);
    assert_eq!(*t.get([1, 2]), *m.get([2, 1]));
}

#[test]
fn reshape_round_trips_and_keeps_order() {
    let m = DMatrix::<i32>::field([2, 6], |[i, j]| (10 * i + j) as i32);
    let r = m.reshape::<Dyn, Dyn>([4, 3]).unwrap();
    assert_eq!(elements(&r), elements(&m));
    let back = r.reshape::<Dyn, Dyn>([2, 6]).unwrap();
    assert_eq!(back.shape(), [2, 6]);
    assert_eq!(elements(&back), elements(&m));
    assert!(m.reshape::<Dyn, Dyn>([5, 3]).is_none());
    assert!(m.reshape::<Stat<3>, Dyn>([4, 3]).is_none());
}

#[test]
fn reshape_refuses_interleaved_layouts() {
    let m = DMatrix::<i32>::field([2, 3], |[i, j]| (3 * i + j) as i32);
    let t = m.transpose();
    assert!(t.reshape::<Dyn, Dyn>([6, 1]).is_none());
    let s = SMatrix::<i32, 2, 2>::identity();
    let sv = s.view();
    let v = sv.reshape::<Dyn, Dyn>([4, 1]).unwrap();
    assert_eq!(elements(&v), vec![1, 0, 0, 1]);
}

#[test]
fn view_mut_writes_reach_the_matrix() {
    let mut m = SMatrix::<u32, 2, 2>::zeros();
    {
        let mut v = m.view_mut();
        v.set([1, 0], 5);
    }
    assert_eq!(*m.get([1, 0]), 5);
    {
        let mut t = m.transpose_mut();
        t.set([1, 0], 6);
    }
    assert_eq!(*m.get([0, 1]), 6);
    {
        let mut r = m.reshape_mut::<Dyn, Dyn>([1, 4]).unwrap();
        r.set([0, 3], 8);
    }
    assert_eq!(*m.get([1, 1]), 8);
}

#[test]
fn map_and_casts() {
    let m = SMatrix::<u32, 2, 2>::field(|[i, j]| (100 * (i + 2 * j)) as u32);
    let doubled: Matrix<Dynamic<u32, Stat<2>, Stat<2>>> = m.map(|x| *x * 2);
    assert_eq!(elements(&doubled), vec![0, 200, 400, 600]);
    let fits: Result<Matrix<Dynamic<u64, Stat<2>, Stat<2>>>, _> = m.cast();
    assert_eq!(elements(&fits.ok().unwrap()), vec![0, 100, 200, 300]);
    let small: Result<Matrix<Dynamic<u8, Stat<2>, Stat<2>>>, _> = m.cast();
    assert!(matches!(small, Err(flexalgebra::CastError::Element(_))));
    let wrong: Result<Matrix<Static<u64, 3, 2>>, _> = m.cast();
    assert!(matches!(wrong, Err(flexalgebra::CastError::RowsMismatch)));
    let wrong_cols: Result<Matrix<Static<u64, 2, 3>>, _> = m.cast();
    assert!(matches!(wrong_cols, Err(flexalgebra::CastError::ColumnsMismatch)));
}

#[test]
fn try_map_to_fills_a_block() {
    let m = SMatrix::<i32, 2, 2>::full(3);
    let mut out = DMatrix::<i64>::full([3, 3], -1);
    let r = m.try_map_to(|x| Ok::<i64, ()>(*x as i64 + 1), &mut out);
    assert!(r.is_ok());
    assert_eq!(elements(&out), vec![4, 4, -1, 4, 4, -1, -1, -1, -1]);
    let mut tiny = DMatrix::<i64>::zeros([1, 3]);
    assert!(matches!(m.try_map_to(|x| Ok::<i64, ()>(*x as i64), &mut tiny), Err(flexalgebra::CastError::RowsMismatch)));
    let mut narrow = DMatrix::<i64>::zeros([3, 1]);
    assert!(matches!(m.cast_to(&mut narrow), Err(flexalgebra::CastError::ColumnsMismatch)));
    let failing = m.try_map::<Dynamic<i64>, &str, _>(|x| if *x == 3 { Err("three") } else { Ok(0) });
    assert!(matches!(failing, Err(flexalgebra::CastError::Element("three"))));
}

#[test]
fn as_buffer_of_static_is_column_major() {
    let m: SMatrix<i32, 2, 3> = Matrix(Static { data: [[1, 2], [3, 4], [5, 6]] });
    assert_eq!(m.array().as_buffer(), &[1, 2, 3, 4, 5, 6]);
    let v = m.view();
    assert_eq!(*v.get([1, 2]), 6);
    assert_eq!(*v.get([0, 1]), 3);
}

#[test]
fn flat_slices_only_for_unbroken_runs() {
    let mut m = SMatrix::<i32, 2, 3>::field(|[i, j]| (i + 2 * j) as i32);
    assert!(m.as_slice() == Some(&[0, 1, 2, 3, 4, 5][..]));
    assert!(m.transpose().as_slice() == Some(&[0, 1, 2, 3, 4, 5][..]));
    let data = [0, 1, 2, 3, 4, 5, 6, 7];
    let gappy = Matrix::<View<i32>>::try_from_strides([2, 2], [1, 4], &data).unwrap();
    assert!(gappy.as_slice().is_none());
    if let Some(s) = m.as_slice_mut() {
        s[5] = 50;
    }
    assert_eq!(*m.get([1, 2]), 50);
}

#[test]
fn try_map_reports_the_first_failure_in_column_major_order() {
    let m = SMatrix::<i32, 2, 2>::field(|[i, j]| (i + 2 * j) as i32);
    let r = m.try_map::<Dynamic<i32>, i32, _>(|x| if *x >= 1 { Err(*x) } else { Ok(*x) });
    assert!(matches!(r, Err(flexalgebra::CastError::Element(1))));
    let mut out = DMatrix::<i32>::zeros([2, 2]);
    let r = m.try_map_to(|x| if *x >= 2 { Err(*x) } else { Ok(*x) }, &mut out);
    assert!(matches!(r, Err(flexalgebra::CastError::Element(2))));
}

#[test]
fn empty_storage_holds_defaults() {
    let a = Matrix::<Dynamic<i32, Stat<2>, Dyn>>::empty(3);
    assert_eq!(elements(&a), vec![0; 6]);
    let b = SMatrix::<u8, 2, 2>::empty();
    assert_eq!(elements(&b), vec![0; 4]);
    let c = Matrix::<Dynamic<u64>>::new([1, 2]);
    assert_eq!(elements(&c), vec![0, 0]);
}

#[test]
fn widening_cast_keeps_values() {
    let a = DMatrix::<i32>::field([2, 3], |[i, j]| (i as i32) - (j as i32));
    let r: Result<Matrix<Static<i64, 2, 3>>, _> = a.cast();
    assert_eq!(elements(&r.ok().unwrap()), vec![0, 1, -1, 0, -2, -1]);
}
