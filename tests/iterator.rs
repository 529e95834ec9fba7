use flexalgebra::{Array, Matrix, SMatrix, Static};

fn elements<A: Array>(m: &Matrix<A>) -> Vec<A::Element> {
    let mut out = Vec::new();
    let mut it = m.iter();
    while let Some(v) = it.next() {
        out.push(*v);
    }
    out
}

#[test]
fn test_iterators() {
    let mut m = Matrix(Static { data: [[1, 2, 3, 4], [5, 6, 7, 8], [9, 10, 11, 12]] });
    assert_eq!(elements(&m), [1, 2, 3, 4, 5, 6, 7, 8, 9, 10, 11, 12]);
    let mut it = m.iter().index();
    while let Some((i, &v)) = it.next() {
        assert_eq!(*m.get(i), v);
    }
    let mut it = m.iter_mut().index();
    while let Some((_, v)) = it.next() {
        *v = 2;
    }
    assert!(elements(&m).iter().all(|&v| v == 2));
}

#[test]
fn iterator_test_constructors() {
    let a: SMatrix<u32, 4, 3> = Matrix(Static { data: [[1, 2, 3, 4], [5, 6, 7, 8], [9, 10, 11, 12]] });
    assert!(a.diagonal().is_none());
    let mut b = SMatrix::<u32, 4, 3>::zeros();
    b.set_iter(&elements(&a));
    for (x, y) in std::iter::zip(elements(&b), elements(&a)) {
        assert_eq!(x, y);
    }
    let mut b = SMatrix::<u32, 4, 4>::zeros();
    b.set_iter(&elements(&a));
    let mut it = a.iter().index();
    while let Some((i, &v)) = it.next() {
        assert_eq!(*b.get(i), v);
    }
    {
        let mut d = b.diagonal_mut().unwrap();
        let mut it = d.iter_mut();
        let mut i: u32 = 0;
        while let Some(v) = it.next() {
            *v = i;
            i += 1;
        }
    }
    for i in 0..3 {
        assert_eq!(*b.get([i, i]), i as u32);
    }
}

#[test]
fn index_iter_walks_columns_then_stops() {
    let mut it = flexalgebra::IndexIter::new([2, 3]);
    assert_eq!(it.len(), 6);
    let mut seen = Vec::new();
    while let Some(i) = it.next() {
        seen.push(i);
    }
    assert_eq!(seen, vec![[0, 0], [1, 0], [0, 1], [1, 1], [0, 2], [1, 2]]);
    assert_eq!(it.len(), 0);
    assert!(it.next().is_none());
}

#[test]
fn index_iter_of_empty_shape_is_empty() {
    let mut it = flexalgebra::IndexIter::new([0, 3]);
    assert_eq!(it.len(), 0);
    assert!(it.next().is_none());
    let mut it = flexalgebra::IndexIter::new([3, 0]);
    assert!(it.next().is_none());
}

#[test]
fn mutable_traversal_sets_every_element() {
    let mut m = flexalgebra::DMatrix::<i64>::zeros([3, 5]);
    let mut it = m.iter_mut();
    assert_eq!(it.len(), 15);
    while let Some(v) = it.next() {
        *v = 7;
    }
    assert!(elements(&m).iter().all(|&v| v == 7));
    assert_eq!(elements(&m).len(), 15);
}

#[test]
fn set_full_writes_constant() {
    let mut m = SMatrix::<i32, 2, 3>::ones();
    m.set_full(-4);
    assert_eq!(elements(&m), vec![-4; 6]);
}
