use flexalgebra::{Array, BinOp, DMatrix, DVector, Dyn, Dynamic, Matrix, SMatrix, SVector, Stat, Static};
use flexalgebra::{AddTo, DivTo, MulTo, SubTo};

fn elements<A: Array>(m: &Matrix<A>) -> Vec<A::Element> {
    let mut out = Vec::new();
    let mut it = m.iter();
    while let Some(v) = it.next() {
        out.push(*v);
    }
    out
}

#[test]
fn test_operators_static() {
    let a = SMatrix::<i32, 3, 4>::identity();
    let b = SMatrix::<i32, 4, 2>::identity();
    assert!(a.matmul(&b).as_slice() == Some(&[1, 0, 0, 0, 1, 0][..]));
    let b: SVector<i32, 4> = Matrix(Static { data: [[1, 2, 3, 4]] });
    assert!(a.matmul(&b).as_slice() == Some(&[1, 2, 3][..]));
    let c: SVector<i32, 3> = Matrix(Static { data: [[5, 6, 7]] });
    assert!(a.matmul(&b).matadd(&c).as_slice() == Some(&[6, 8, 10][..]));
}

#[test]
fn test_operators_dynamic() {
    let a = DMatrix::<i32>::identity([3, 4]);
    let b = Matrix::<Dynamic<i32, Dyn, Stat<2>>>::identity(4);
    assert!(a.matmul(&b).as_slice() == Some(&[1, 0, 0, 0, 1, 0][..]));
    let b: DVector<i32> = Matrix::try_from_vec([4, 1], vec![1, 2, 3, 4]).unwrap();
    assert!(a.matmul(&b).as_slice() == Some(&[1, 2, 3][..]));
    let c: DVector<i32> = Matrix::try_from_vec([3, 1], vec![5, 6, 7]).unwrap();
    assert!(a.matmul(&b).matadd(&c).as_slice() == Some(&[6, 8, 10][..]));
}

#[test]
fn elementwise_sum_and_difference() {
    let a = DMatrix::<i64>::field([2, 2], |[i, j]| (i + 10 * j) as i64);
    let b = DMatrix::<i64>::full([2, 2], 5);
    assert_eq!(elements(&a.matadd(&b)), vec![5, 6, 15, 16]);
    assert_eq!(elements(&a.matsub(&b)), vec![-5, -4, 5, 6]);
    assert_eq!(elements(&a.zip(&b, BinOp::Mul)), vec![0, 5, 50, 55]);
}

#[test]
fn product_entries_are_dot_products() {
    let a = DMatrix::<i32>::field([2, 3], |[i, j]| (i * 3 + j + 1) as i32);
    let b = DMatrix::<i32>::field([3, 2], |[i, j]| (i * 2 + j + 1) as i32);
    let p = a.matmul(&b);
    assert_eq!(p.shape(), [2, 2]);
    assert_eq!(*p.get([0, 0]), 22);
    assert_eq!(*p.get([0, 1]), 28);
    assert_eq!(*p.get([1, 0]), 49);
    assert_eq!(*p.get([1, 1]), 64);
    let empty_inner = DMatrix::<i32>::zeros([2, 0]).matmul(&DMatrix::<i32>::zeros([0, 3]));
    assert_eq!(elements(&empty_inner), vec![0; 6]);
}

#[test]
fn identity_product_keeps_the_matrix() {
    let a = DMatrix::<i32>::field([2, 3], |[i, j]| (7 * i + j) as i32 - 4);
    let right = a.matmul(&DMatrix::<i32>::identity([3, 3]));
    assert_eq!(elements(&right), elements(&a));
    let left = DMatrix::<i32>::identity([2, 2]).matmul(&a);
    assert_eq!(elements(&left), elements(&a));
}

#[test]
fn scalar_operations() {
    let a = SMatrix::<u32, 2, 2>::field(|[i, j]| (4 * (i + 2 * j) + 8) as u32);
    assert_eq!(elements(&a.scalar(BinOp::Add, 1)), vec![9, 13, 17, 21]);
    assert_eq!(elements(&a.scalar(BinOp::Sub, 8)), vec![0, 4, 8, 12]);
    assert_eq!(elements(&a.scalar(BinOp::Mul, 3)), vec![24, 36, 48, 60]);
    assert_eq!(elements(&a.scalar(BinOp::Div, 4)), vec![2, 3, 4, 5]);
    let n = SMatrix::<i32, 1, 2>::field(|[_, j]| if j == 0 { -7 } else { 7 });
    assert_eq!(elements(&n.scalar(BinOp::Div, 2)), vec![-3, 3]);
}

#[test]
fn in_place_operations() {
    let mut a = DMatrix::<i32>::full([2, 2], 10);
    let b = DMatrix::<i32>::identity([2, 2]);
    a.zip_assign(&b, BinOp::Add);
    assert_eq!(elements(&a), vec![11, 10, 10, 11]);
    a.zip_assign(&b, BinOp::Sub);
    assert_eq!(elements(&a), vec![10; 4]);
    a.scalar_assign(BinOp::Div, 5);
    assert_eq!(elements(&a), vec![2; 4]);
}

#[test]
fn operations_into_given_outputs() {
    let a = SMatrix::<i32, 2, 2>::full(6);
    let b = SMatrix::<i32, 2, 2>::identity();
    let mut out = DMatrix::<i32>::zeros([2, 2]);
    a.add_to(&b, &mut out);
    assert_eq!(elements(&out), vec![7, 6, 6, 7]);
    a.sub_to(&b, &mut out);
    assert_eq!(elements(&out), vec![5, 6, 6, 5]);
    a.mul_to(&b, &mut out);
    assert_eq!(elements(&out), vec![6; 4]);
    a.mul_to(&3, &mut out);
    assert_eq!(elements(&out), vec![18; 4]);
    a.div_to(&4, &mut out);
    assert_eq!(elements(&out), vec![1; 4]);
    a.add_to(&-6, &mut out);
    assert_eq!(elements(&out), vec![0; 4]);
    a.sub_to(&1, &mut out);
    assert_eq!(elements(&out), vec![5; 4]);
}

#[test]
fn test_formats() {
    let a = Matrix::<Dynamic<i32>>::identity([5, 6]);
    let b = Matrix::<Static<i32, 5, 6>>::identity();
    println!("a = {:?} {:?}b = {:?} {:?}", a.shape(), elements(&a), b.shape(), elements(&b));
    assert_eq!(elements(&a), elements(&b));
}

#[test]
fn wide_and_narrow_integer_elements() {
    let a = SMatrix::<i128, 1, 2>::field(|[_, j]| if j == 0 { -9 } else { 9 });
    assert_eq!(elements(&a.scalar(BinOp::Div, 4)), vec![-2, 2]);
    let b = DMatrix::<u16>::full([2, 2], 300);
    assert_eq!(elements(&b.matadd(&DMatrix::<u16>::identity([2, 2]))), vec![301, 300, 300, 301]);
    let c = SMatrix::<i8, 2, 2>::identity().matmul(&SMatrix::<i8, 2, 2>::full(-3));
    assert_eq!(elements(&c), vec![-3; 4]);
    let d = DMatrix::<isize>::identity([2, 3]).matsub(&DMatrix::<isize>::ones([2, 3]));
    assert_eq!(elements(&d), vec![0, -1, -1, 0, -1, -1]);
}
