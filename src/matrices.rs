//! The storage layouts: fixed-size owned, heap owned, and borrowed strided views.
use vstd::prelude::*;
use vstd::view::View as _;

use crate::matrix::{
    addressable, distinct_offsets, identity_elem, offset_of, uniform_step, Array, ArrayMut,
    ArrayOwned, Compatible, Matrix,
};
use crate::prelude::{Dim, Dyn, Element, Scalar, Stat};

verus! {

broadcast use vstd::array::group_array_axioms;

/// `r * c - 1` is the offset of the last element of a packed column-major `r` x `c` layout.
proof fn lemma_packed_last(r: usize, c: usize)
    requires
        r > 0,
        c > 0,
    ensures
        offset_of(r - 1, c - 1, (1usize, r)) == r * c - 1,
        r <= r * c,
{
    assert((r - 1) * 1 + (c - 1) * r == r * c - 1) by (nonlinear_arith);
    assert(r <= r * c) by (nonlinear_arith)
        requires
            r > 0,
            c > 0,
    ;
}

/// In a packed column-major layout no two indices share an offset.
proof fn lemma_packed_distinct(r: usize, c: usize)
    ensures
        distinct_offsets((r, c), (1usize, r)),
{
    assert forall|i1: int, j1: int, i2: int, j2: int|
        0 <= i1 < r && 0 <= j1 < c && 0 <= i2 < r && 0 <= j2 < c && #[trigger] offset_of(i1, j1, (1usize, r))
            == #[trigger] offset_of(i2, j2, (1usize, r)) implies i1 == i2 && j1 == j2 by {
        let k = offset_of(i1, j1, (1usize, r));
        vstd::arithmetic::div_mod::lemma_fundamental_div_mod_converse(k, r as int, j1, i1);
        vstd::arithmetic::div_mod::lemma_fundamental_div_mod_converse(k, r as int, j2, i2);
    }
}

/// `k / n` and `k % n` locate offset `k` of an `n` x `m` column-major block.
proof fn lemma_split_offset(k: int, n: int, m: int)
    requires
        n > 0,
        0 <= k < n * m,
    ensures
        0 <= k / n < m,
        0 <= k % n < n,
        k == (k / n) * n + k % n,
{
    vstd::arithmetic::div_mod::lemma_fundamental_div_mod(k, n);
    let q = k / n;
    let r = k % n;
    assert(0 <= q < m) by (nonlinear_arith)
        requires
            k == n * q + r,
            0 <= r < n,
            0 <= k < n * m,
            n > 0,
    ;
    assert(k == q * n + r) by (nonlinear_arith)
        requires
            k == n * q + r,
    ;
}

/// The elements of a sequence of arrays, one array after another.
pub open spec fn flatten<T, const N: usize>(s: Seq<[T; N]>) -> Seq<T> {
    Seq::new((s.len() * N) as nat, |k: int| s[k / (N as int)][k % (N as int)])
}

/// The elements of `R` x `C` column-major data, column after column.
pub open spec fn column_major<T, const R: usize, const C: usize>(data: [[T; R]; C]) -> Seq<T> {
    flatten(data@)
}

proof fn lemma_column_major_len<T, const R: usize, const C: usize>(data: [[T; R]; C])
    ensures
        data@.len() == C,
        column_major(data).len() == R * C,
        data@.len() * R == R * C,
{
    assert(C * R == R * C) by (nonlinear_arith);
}

/// Relies on `<[[T; N]]>::as_flattened`: the arrays' elements, one array after another
/// (it panics only when that count overflows a `usize`).
pub assume_specification<X, const K: usize>[ <[[X; K]]>::as_flattened ](s: &[[X; K]]) -> (r: &[X])
    requires
        s@.len() * K <= usize::MAX,
    ensures
        r@ == flatten(s@),
;

/// Relies on `<[[T; N]]>::as_flattened_mut`: a writable view of the arrays' elements, one array
/// after another; writes through it land in the arrays (it panics only when the count
/// overflows a `usize`).
pub assume_specification<X, const K: usize>[ <[[X; K]]>::as_flattened_mut ](s: &mut [[X; K]]) -> (r: &mut [X])
    requires
        old(s)@.len() * K <= usize::MAX,
    ensures
        r@ == flatten(old(s)@),
        final(s)@.len() == old(s)@.len(),
        final(r)@ == flatten(final(s)@),
;

/// Fixed-size matrix.
pub type SMatrix<T, const R: usize, const C: usize> = Matrix<Static<T, R, C>>;

/// Heap matrix with both axes set at run time.
pub type DMatrix<T> = Matrix<Dynamic<T, Dyn, Dyn>>;

/// Fixed-size column vector.
pub type SVector<T, const R: usize> = Matrix<Static<T, R, 1>>;

/// Heap column vector.
pub type DVector<T> = Matrix<Dynamic<T, Dyn, Stat<1>>>;

/// Column-major storage of `R` x `C` elements held inline, without allocation.
#[derive(Clone, Debug)]
pub struct Static<T: Element, const R: usize, const C: usize> {
    pub data: [[T; R]; C],
}

impl<T: Element, const R: usize, const C: usize> Array for Static<T, R, C> {
    type Element = T;

    type R = Stat<R>;

    type C = Stat<C>;

    open spec fn spec_shape(&self) -> (usize, usize) {
        (R, C)
    }

    open spec fn spec_strides(&self) -> (usize, usize) {
        (1, R)
    }

    open spec fn buffer(&self) -> Seq<T> {
        column_major(self.data)
    }

    open spec fn inv(&self) -> bool {
        R * C <= usize::MAX
    }

    proof fn lemma_inv(&self) {
        lemma_column_major_len(self.data);
        if R > 0 && C > 0 {
            lemma_packed_last(R, C);
        }
    }

    fn shape(&self) -> (r: [usize; 2]) {
        [R, C]
    }

    fn strides(&self) -> (r: [usize; 2]) {
        [1, R]
    }

    fn at(&self, offset: usize) -> (r: &T) {
        proof {
            lemma_column_major_len(self.data);
            lemma_split_offset(offset as int, R as int, C as int);
        }
        &self.data[offset / R][offset % R]
    }

    fn as_buffer(&self) -> (r: &[T]) {
        proof {
            lemma_column_major_len(self.data);
        }
        self.data.as_slice().as_flattened()
    }
}

impl<T: Element, const R: usize, const C: usize> ArrayMut for Static<T, R, C> {
    fn write(&mut self, offset: usize, value: T) {
        proof {
            lemma_column_major_len(self.data);
            lemma_split_offset(offset as int, R as int, C as int);
        }
        let j = offset / R;
        let i = offset % R;
        let ghost before = self.buffer();
        self.data[j][i] = value;
        proof {
            assert forall|k: int| 0 <= k < (R * C) as int implies self.buffer()[k] == before.update(offset as int, value)[k] by {
                lemma_split_offset(k, R as int, C as int);
                if k != offset {
                    assert(k / (R as int) != j || k % (R as int) != i);
                }
            }
            assert(self.buffer() =~= before.update(offset as int, value));
        }
    }

    fn at_mut(&mut self, offset: usize) -> (r: &mut T) {
        proof {
            lemma_column_major_len(self.data);
            lemma_split_offset(offset as int, R as int, C as int);
        }
        let j = offset / R;
        let i = offset % R;
        let r = &mut self.data[j][i];
        proof {
            assert forall|k: int| 0 <= k < (R * C) as int implies #[trigger] column_major(after_borrow(self.data))[k] == column_major(old(self).data).update(offset as int, *final(r))[k] by {
                lemma_split_offset(k, R as int, C as int);
                if k != offset {
                    assert(k / (R as int) != j || k % (R as int) != i);
                }
            }
            assert(column_major(after_borrow(self.data)) =~= column_major(old(self).data).update(offset as int, *final(r)));
        }
        r
    }

    fn as_buffer_mut(&mut self) -> (r: &mut [T]) {
        proof {
            lemma_column_major_len(self.data);
        }
        let s: &mut [[T; R]] = &mut self.data;
        s.as_flattened_mut()
    }
}

impl<T: Element + Default, const R: usize, const C: usize> ArrayOwned for Static<T, R, C> {
    open spec fn empty_fill(v: T) -> bool {
        call_ensures(T::default, (), v)
    }

    fn empty(shape: (Stat<R>, Stat<C>)) -> (r: Self) {
        proof {
            lemma_packed_distinct(R, C);
        }
        let d = T::default();
        let column = [d; R];
        let r = Static { data: [column; C] };
        proof {
            lemma_column_major_len(r.data);
            assert forall|k: int| 0 <= k < r.buffer().len() implies Self::empty_fill(#[trigger] r.buffer()[k]) by {
                lemma_split_offset(k, R as int, C as int);
                assert(r.data@[k / (R as int)] == column);
                assert(column@[k % (R as int)] == d);
            }
        }
        r
    }
}

impl<T: Element + Default, const R1: usize, const C1: usize, const R2: usize, const C2: usize> Compatible<Stat<R2>, Stat<C2>> for Static<T, R1, C1> {
    type Owned = Static<T, R2, C2>;
}

/// Column-major heap storage; each axis may be fixed or determined at run time.
pub struct Dynamic<T: Element, R: Dim = Dyn, C: Dim = Dyn> {
    pub shape: (R, C),
    pub data: Vec<T>,
}

impl<T: Element, R: Dim, C: Dim> Array for Dynamic<T, R, C> {
    type Element = T;

    type R = R;

    type C = C;

    open spec fn spec_shape(&self) -> (usize, usize) {
        (self.shape.0.spec_value(), self.shape.1.spec_value())
    }

    open spec fn spec_strides(&self) -> (usize, usize) {
        (1, self.shape.0.spec_value())
    }

    open spec fn buffer(&self) -> Seq<T> {
        self.data@
    }

    open spec fn inv(&self) -> bool {
        &&& self.spec_shape().0 * self.spec_shape().1 <= usize::MAX
        &&& self.data@.len() >= self.spec_shape().0 * self.spec_shape().1
    }

    proof fn lemma_inv(&self) {
        let n: usize = self.data.len();
        R::lemma_admits(self.shape.0);
        C::lemma_admits(self.shape.1);
        let (r, c) = self.spec_shape();
        if r > 0 && c > 0 {
            lemma_packed_last(r, c);
        }
    }

    fn shape(&self) -> (r: [usize; 2]) {
        [self.shape.0.value(), self.shape.1.value()]
    }

    fn strides(&self) -> (r: [usize; 2]) {
        [1, self.shape.0.value()]
    }

    fn at(&self, offset: usize) -> (r: &T) {
        &self.data[offset]
    }

    fn as_buffer(&self) -> (r: &[T]) {
        self.data.as_slice()
    }
}

impl<T: Element, R: Dim, C: Dim> ArrayMut for Dynamic<T, R, C> {
    fn write(&mut self, offset: usize, value: T) {
        self.data.set(offset, value);
    }

    fn at_mut(&mut self, offset: usize) -> (r: &mut T) {
        &mut self.data[offset]
    }

    fn as_buffer_mut(&mut self) -> (r: &mut [T]) {
        self.data.as_mut_slice()
    }
}

impl<T: Element + Default, R: Dim, C: Dim> ArrayOwned for Dynamic<T, R, C> {
    open spec fn empty_fill(v: T) -> bool {
        call_ensures(T::default, (), v)
    }

    fn empty(shape: (R, C)) -> (r: Self) {
        let n = shape.0.value() * shape.1.value();
        let mut data: Vec<T> = Vec::with_capacity(n);
        let mut k: usize = 0;
        while k < n
            invariant
                k <= n,
                data@.len() == k,
                forall|l: int| 0 <= l < k ==> Self::empty_fill(#[trigger] data@[l]),
            decreases n - k,
        {
            let d = T::default();
            data.push(d);
            k = k + 1;
        }
        proof {
            lemma_packed_distinct(shape.0.spec_value(), shape.1.spec_value());
        }
        Dynamic { shape, data }
    }
}

impl<T: Element + Default, R1: Dim, C1: Dim, R2: Dim, C2: Dim> Compatible<R2, C2> for Dynamic<T, R1, C1> {
    type Owned = Dynamic<T, R2, C2>;
}

/// Constructors of fixed-size matrices.
impl<T: Scalar + Default, const R: usize, const C: usize> Matrix<Static<T, R, C>> {
    /// New matrix holding the element type's default in every element.
    pub fn empty() -> (r: Self)
        requires
            R * C <= usize::MAX,
        ensures
            r.wf(),
            r.distinct(),
            r.nrows() == R,
            r.ncols() == C,
            forall|i: int, j: int| r.in_bounds(i, j) ==> call_ensures(T::default, (), #[trigger] r.elem(i, j)),
    {
        Matrix::new([R, C])
    }

    /// New matrix of zeros.
    pub fn zeros() -> (r: Self)
        requires
            R * C <= usize::MAX,
        ensures
            r.wf(),
            r.distinct(),
            r.nrows() == R,
            r.ncols() == C,
            forall|i: int, j: int| r.in_bounds(i, j) ==> #[trigger] r.elem(i, j) == T::spec_zero(),
    {
        let mut m = Matrix::new([R, C]);
        m.set_zero();
        m
    }

    /// New matrix of ones.
    pub fn ones() -> (r: Self)
        requires
            R * C <= usize::MAX,
        ensures
            r.wf(),
            r.distinct(),
            r.nrows() == R,
            r.ncols() == C,
            forall|i: int, j: int| r.in_bounds(i, j) ==> #[trigger] r.elem(i, j) == T::spec_one(),
    {
        let mut m = Matrix::new([R, C]);
        m.set_one();
        m
    }

    /// New matrix with ones on the diagonal and zeros elsewhere.
    pub fn identity() -> (r: Self)
        requires
            R * C <= usize::MAX,
        ensures
            r.wf(),
            r.distinct(),
            r.nrows() == R,
            r.ncols() == C,
            forall|i: int, j: int| r.in_bounds(i, j) ==> #[trigger] r.elem(i, j) == identity_elem::<T>(i, j),
    {
        let mut m = Matrix::new([R, C]);
        m.set_identity();
        m
    }

    /// New matrix with every element equal to `value`.
    pub fn full(value: T) -> (r: Self)
        requires
            R * C <= usize::MAX,
        ensures
            r.wf(),
            r.distinct(),
            r.nrows() == R,
            r.ncols() == C,
            forall|i: int, j: int| r.in_bounds(i, j) ==> #[trigger] r.elem(i, j) == value,
    {
        let mut m = Matrix::new([R, C]);
        m.set_full(value);
        m
    }

    /// New matrix whose element `[i, j]` is `field([i, j])`.
    pub fn field<F: Fn([usize; 2]) -> T>(field: F) -> (r: Self)
        requires
            R * C <= usize::MAX,
            forall|idx: [usize; 2]| idx[0] < R && idx[1] < C ==> #[trigger] field.requires((idx,)),
        ensures
            r.wf(),
            r.distinct(),
            r.nrows() == R,
            r.ncols() == C,
            forall|idx: [usize; 2]|
                r.in_bounds(idx[0] as int, idx[1] as int) ==> #[trigger] field.ensures(
                    (idx,),
                    r.elem(idx[0] as int, idx[1] as int),
                ),
    {
        let mut m = Matrix::new([R, C]);
        m.set_field(field);
        m
    }
}

/// Constructors of heap matrices whose both axes are fixed.
impl<T: Scalar + Default, const R: usize, const C: usize> Matrix<Dynamic<T, Stat<R>, Stat<C>>> {
    /// New matrix holding the element type's default in every element.
    pub fn empty() -> (r: Self)
        requires
            R * C <= usize::MAX,
        ensures
            r.wf(),
            r.distinct(),
            r.nrows() == R,
            r.ncols() == C,
            forall|i: int, j: int| r.in_bounds(i, j) ==> call_ensures(T::default, (), #[trigger] r.elem(i, j)),
    {
        Matrix::new([R, C])
    }

    /// New matrix of zeros.
    pub fn zeros() -> (r: Self)
        requires
            R * C <= usize::MAX,
        ensures
            r.wf(),
            r.distinct(),
            r.nrows() == R,
            r.ncols() == C,
            forall|i: int, j: int| r.in_bounds(i, j) ==> #[trigger] r.elem(i, j) == T::spec_zero(),
    {
        let mut m = Matrix::new([R, C]);
        m.set_zero();
        m
    }

    /// New matrix of ones.
    pub fn ones() -> (r: Self)
        requires
            R * C <= usize::MAX,
        ensures
            r.wf(),
            r.distinct(),
            r.nrows() == R,
            r.ncols() == C,
            forall|i: int, j: int| r.in_bounds(i, j) ==> #[trigger] r.elem(i, j) == T::spec_one(),
    {
        let mut m = Matrix::new([R, C]);
        m.set_one();
        m
    }

    /// New matrix with ones on the diagonal and zeros elsewhere.
    pub fn identity() -> (r: Self)
        requires
            R * C <= usize::MAX,
        ensures
            r.wf(),
            r.distinct(),
            r.nrows() == R,
            r.ncols() == C,
            forall|i: int, j: int| r.in_bounds(i, j) ==> #[trigger] r.elem(i, j) == identity_elem::<T>(i, j),
    {
        let mut m = Matrix::new([R, C]);
        m.set_identity();
        m
    }

    /// New matrix with every element equal to `value`.
    pub fn full(value: T) -> (r: Self)
        requires
            R * C <= usize::MAX,
        ensures
            r.wf(),
            r.distinct(),
            r.nrows() == R,
            r.ncols() == C,
            forall|i: int, j: int| r.in_bounds(i, j) ==> #[trigger] r.elem(i, j) == value,
    {
        let mut m = Matrix::new([R, C]);
        m.set_full(value);
        m
    }

    /// New matrix whose element `[i, j]` is `field([i, j])`.
    pub fn field<F: Fn([usize; 2]) -> T>(field: F) -> (r: Self)
        requires
            R * C <= usize::MAX,
            forall|idx: [usize; 2]| idx[0] < R && idx[1] < C ==> #[trigger] field.requires((idx,)),
        ensures
            r.wf(),
            r.distinct(),
            r.nrows() == R,
            r.ncols() == C,
            forall|idx: [usize; 2]|
                r.in_bounds(idx[0] as int, idx[1] as int) ==> #[trigger] field.ensures(
                    (idx,),
                    r.elem(idx[0] as int, idx[1] as int),
                ),
    {
        let mut m = Matrix::new([R, C]);
        m.set_field(field);
        m
    }
}

/// Constructors of heap matrices with a run-time row count and `C` columns.
impl<T: Scalar + Default, const C: usize> Matrix<Dynamic<T, Dyn, Stat<C>>> {
    /// New matrix holding the element type's default in every element.
    pub fn empty(size: usize) -> (r: Self)
        requires
            size * C <= usize::MAX,
        ensures
            r.wf(),
            r.distinct(),
            r.nrows() == size,
            r.ncols() == C,
            forall|i: int, j: int| r.in_bounds(i, j) ==> call_ensures(T::default, (), #[trigger] r.elem(i, j)),
    {
        Matrix::new([size, C])
    }

    /// New matrix of zeros.
    pub fn zeros(size: usize) -> (r: Self)
        requires
            size * C <= usize::MAX,
        ensures
            r.wf(),
            r.distinct(),
            r.nrows() == size,
            r.ncols() == C,
            forall|i: int, j: int| r.in_bounds(i, j) ==> #[trigger] r.elem(i, j) == T::spec_zero(),
    {
        let mut m = Matrix::new([size, C]);
        m.set_zero();
        m
    }

    /// New matrix of ones.
    pub fn ones(size: usize) -> (r: Self)
        requires
            size * C <= usize::MAX,
        ensures
            r.wf(),
            r.distinct(),
            r.nrows() == size,
            r.ncols() == C,
            forall|i: int, j: int| r.in_bounds(i, j) ==> #[trigger] r.elem(i, j) == T::spec_one(),
    {
        let mut m = Matrix::new([size, C]);
        m.set_one();
        m
    }

    /// New matrix with ones on the diagonal and zeros elsewhere.
    pub fn identity(size: usize) -> (r: Self)
        requires
            size * C <= usize::MAX,
        ensures
            r.wf(),
            r.distinct(),
            r.nrows() == size,
            r.ncols() == C,
            forall|i: int, j: int| r.in_bounds(i, j) ==> #[trigger] r.elem(i, j) == identity_elem::<T>(i, j),
    {
        let mut m = Matrix::new([size, C]);
        m.set_identity();
        m
    }

    /// New matrix with every element equal to `value`.
    pub fn full(size: usize, value: T) -> (r: Self)
        requires
            size * C <= usize::MAX,
        ensures
            r.wf(),
            r.distinct(),
            r.nrows() == size,
            r.ncols() == C,
            forall|i: int, j: int| r.in_bounds(i, j) ==> #[trigger] r.elem(i, j) == value,
    {
        let mut m = Matrix::new([size, C]);
        m.set_full(value);
        m
    }

    /// New matrix whose element `[i, j]` is `field([i, j])`.
    pub fn field<F: Fn([usize; 2]) -> T>(size: usize, field: F) -> (r: Self)
        requires
            size * C <= usize::MAX,
            forall|idx: [usize; 2]| idx[0] < size && idx[1] < C ==> #[trigger] field.requires((idx,)),
        ensures
            r.wf(),
            r.distinct(),
            r.nrows() == size,
            r.ncols() == C,
            forall|idx: [usize; 2]|
                r.in_bounds(idx[0] as int, idx[1] as int) ==> #[trigger] field.ensures(
                    (idx,),
                    r.elem(idx[0] as int, idx[1] as int),
                ),
    {
        let mut m = Matrix::new([size, C]);
        m.set_field(field);
        m
    }
}

/// Constructors of heap matrices with `R` rows and a run-time column count.
impl<T: Scalar + Default, const R: usize> Matrix<Dynamic<T, Stat<R>, Dyn>> {
    /// New matrix holding the element type's default in every element.
    pub fn empty(size: usize) -> (r: Self)
        requires
            R * size <= usize::MAX,
        ensures
            r.wf(),
            r.distinct(),
            r.nrows() == R,
            r.ncols() == size,
            forall|i: int, j: int| r.in_bounds(i, j) ==> call_ensures(T::default, (), #[trigger] r.elem(i, j)),
    {
        Matrix::new([R, size])
    }

    /// New matrix of zeros.
    pub fn zeros(size: usize) -> (r: Self)
        requires
            R * size <= usize::MAX,
        ensures
            r.wf(),
            r.distinct(),
            r.nrows() == R,
            r.ncols() == size,
            forall|i: int, j: int| r.in_bounds(i, j) ==> #[trigger] r.elem(i, j) == T::spec_zero(),
    {
        let mut m = Matrix::new([R, size]);
        m.set_zero();
        m
    }

    /// New matrix of ones.
    pub fn ones(size: usize) -> (r: Self)
        requires
            R * size <= usize::MAX,
        ensures
            r.wf(),
            r.distinct(),
            r.nrows() == R,
            r.ncols() == size,
            forall|i: int, j: int| r.in_bounds(i, j) ==> #[trigger] r.elem(i, j) == T::spec_one(),
    {
        let mut m = Matrix::new([R, size]);
        m.set_one();
        m
    }

    /// New matrix with ones on the diagonal and zeros elsewhere.
    pub fn identity(size: usize) -> (r: Self)
        requires
            R * size <= usize::MAX,
        ensures
            r.wf(),
            r.distinct(),
            r.nrows() == R,
            r.ncols() == size,
            forall|i: int, j: int| r.in_bounds(i, j) ==> #[trigger] r.elem(i, j) == identity_elem::<T>(i, j),
    {
        let mut m = Matrix::new([R, size]);
        m.set_identity();
        m
    }

    /// New matrix with every element equal to `value`.
    pub fn full(size: usize, value: T) -> (r: Self)
        requires
            R * size <= usize::MAX,
        ensures
            r.wf(),
            r.distinct(),
            r.nrows() == R,
            r.ncols() == size,
            forall|i: int, j: int| r.in_bounds(i, j) ==> #[trigger] r.elem(i, j) == value,
    {
        let mut m = Matrix::new([R, size]);
        m.set_full(value);
        m
    }

    /// New matrix whose element `[i, j]` is `field([i, j])`.
    pub fn field<F: Fn([usize; 2]) -> T>(size: usize, field: F) -> (r: Self)
        requires
            R * size <= usize::MAX,
            forall|idx: [usize; 2]| idx[0] < R && idx[1] < size ==> #[trigger] field.requires((idx,)),
        ensures
            r.wf(),
            r.distinct(),
            r.nrows() == R,
            r.ncols() == size,
            forall|idx: [usize; 2]|
                r.in_bounds(idx[0] as int, idx[1] as int) ==> #[trigger] field.ensures(
                    (idx,),
                    r.elem(idx[0] as int, idx[1] as int),
                ),
    {
        let mut m = Matrix::new([R, size]);
        m.set_field(field);
        m
    }
}

/// Constructors of heap matrices whose both axes are set at run time.
impl<T: Scalar + Default> Matrix<Dynamic<T, Dyn, Dyn>> {
    /// New matrix holding the element type's default in every element.
    pub fn empty(shape: [usize; 2]) -> (r: Self)
        requires
            shape[0] * shape[1] <= usize::MAX,
        ensures
            r.wf(),
            r.distinct(),
            r.nrows() == shape[0],
            r.ncols() == shape[1],
            forall|i: int, j: int| r.in_bounds(i, j) ==> call_ensures(T::default, (), #[trigger] r.elem(i, j)),
    {
        Matrix::new(shape)
    }

    /// New matrix of zeros.
    pub fn zeros(shape: [usize; 2]) -> (r: Self)
        requires
            shape[0] * shape[1] <= usize::MAX,
        ensures
            r.wf(),
            r.distinct(),
            r.nrows() == shape[0],
            r.ncols() == shape[1],
            forall|i: int, j: int| r.in_bounds(i, j) ==> #[trigger] r.elem(i, j) == T::spec_zero(),
    {
        let mut m = Matrix::new(shape);
        m.set_zero();
        m
    }

    /// New matrix of ones.
    pub fn ones(shape: [usize; 2]) -> (r: Self)
        requires
            shape[0] * shape[1] <= usize::MAX,
        ensures
            r.wf(),
            r.distinct(),
            r.nrows() == shape[0],
            r.ncols() == shape[1],
            forall|i: int, j: int| r.in_bounds(i, j) ==> #[trigger] r.elem(i, j) == T::spec_one(),
    {
        let mut m = Matrix::new(shape);
        m.set_one();
        m
    }

    /// New matrix with ones on the diagonal and zeros elsewhere.
    pub fn identity(shape: [usize; 2]) -> (r: Self)
        requires
            shape[0] * shape[1] <= usize::MAX,
        ensures
            r.wf(),
            r.distinct(),
            r.nrows() == shape[0],
            r.ncols() == shape[1],
            forall|i: int, j: int| r.in_bounds(i, j) ==> #[trigger] r.elem(i, j) == identity_elem::<T>(i, j),
    {
        let mut m = Matrix::new(shape);
        m.set_identity();
        m
    }

    /// New matrix with every element equal to `value`.
    pub fn full(shape: [usize; 2], value: T) -> (r: Self)
        requires
            shape[0] * shape[1] <= usize::MAX,
        ensures
            r.wf(),
            r.distinct(),
            r.nrows() == shape[0],
            r.ncols() == shape[1],
            forall|i: int, j: int| r.in_bounds(i, j) ==> #[trigger] r.elem(i, j) == value,
    {
        let mut m = Matrix::new(shape);
        m.set_full(value);
        m
    }

    /// New matrix whose element `[i, j]` is `field([i, j])`.
    pub fn field<F: Fn([usize; 2]) -> T>(shape: [usize; 2], field: F) -> (r: Self)
        requires
            shape[0] * shape[1] <= usize::MAX,
            forall|idx: [usize; 2]| idx[0] < shape[0] && idx[1] < shape[1] ==> #[trigger] field.requires((idx,)),
        ensures
            r.wf(),
            r.distinct(),
            r.nrows() == shape[0],
            r.ncols() == shape[1],
            forall|idx: [usize; 2]|
                r.in_bounds(idx[0] as int, idx[1] as int) ==> #[trigger] field.ensures(
                    (idx,),
                    r.elem(idx[0] as int, idx[1] as int),
                ),
    {
        let mut m = Matrix::new(shape);
        m.set_field(field);
        m
    }
}

/// Storage borrowing a read-only buffer, with caller-chosen shape and strides.
pub struct View<'t, T: Element, R: Dim = Dyn, C: Dim = Dyn> {
    pub shape: (R, C),
    pub strides: (usize, usize),
    pub data: &'t [T],
}

impl<'t, T: Element, R: Dim, C: Dim> Array for View<'t, T, R, C> {
    type Element = T;

    type R = R;

    type C = C;

    open spec fn spec_shape(&self) -> (usize, usize) {
        (self.shape.0.spec_value(), self.shape.1.spec_value())
    }

    open spec fn spec_strides(&self) -> (usize, usize) {
        self.strides
    }

    open spec fn buffer(&self) -> Seq<T> {
        self.data@
    }

    open spec fn inv(&self) -> bool {
        addressable(self.spec_shape(), self.strides, self.data@.len())
    }

    proof fn lemma_inv(&self) {
        let n: usize = self.data.len();
        R::lemma_admits(self.shape.0);
        C::lemma_admits(self.shape.1);
    }

    fn shape(&self) -> (r: [usize; 2]) {
        [self.shape.0.value(), self.shape.1.value()]
    }

    fn strides(&self) -> (r: [usize; 2]) {
        [self.strides.0, self.strides.1]
    }

    fn at(&self, offset: usize) -> (r: &T) {
        &self.data[offset]
    }

    fn as_buffer(&self) -> (r: &[T]) {
        self.data
    }
}

impl<'t, T: Element + Default, R1: Dim, C1: Dim, R2: Dim, C2: Dim> Compatible<R2, C2> for View<'t, T, R1, C1> {
    type Owned = Dynamic<T, R2, C2>;
}

/// Storage borrowing a writable buffer, with caller-chosen shape and strides.
pub struct ViewMut<'t, T: Element, R: Dim = Dyn, C: Dim = Dyn> {
    pub shape: (R, C),
    pub strides: (usize, usize),
    pub data: &'t mut [T],
}

impl<'t, T: Element, R: Dim, C: Dim> Array for ViewMut<'t, T, R, C> {
    type Element = T;

    type R = R;

    type C = C;

    open spec fn spec_shape(&self) -> (usize, usize) {
        (self.shape.0.spec_value(), self.shape.1.spec_value())
    }

    open spec fn spec_strides(&self) -> (usize, usize) {
        self.strides
    }

    open spec fn buffer(&self) -> Seq<T> {
        (*self.data)@
    }

    open spec fn inv(&self) -> bool {
        addressable(self.spec_shape(), self.strides, (*self.data)@.len())
    }

    proof fn lemma_inv(&self) {
        let n: usize = self.data.len();
        R::lemma_admits(self.shape.0);
        C::lemma_admits(self.shape.1);
    }

    fn shape(&self) -> (r: [usize; 2]) {
        [self.shape.0.value(), self.shape.1.value()]
    }

    fn strides(&self) -> (r: [usize; 2]) {
        [self.strides.0, self.strides.1]
    }

    fn at(&self, offset: usize) -> (r: &T) {
        &self.data[offset]
    }

    fn as_buffer(&self) -> (r: &[T]) {
        self.data
    }
}

impl<'t, T: Element, R: Dim, C: Dim> ArrayMut for ViewMut<'t, T, R, C> {
    fn write(&mut self, offset: usize, value: T) {
        self.data[offset] = value;
    }

    fn at_mut(&mut self, offset: usize) -> (r: &mut T) {
        &mut self.data[offset]
    }

    fn as_buffer_mut(&mut self) -> (r: &mut [T]) {
        &mut *self.data
    }
}

impl<'t, T: Element + Default, R1: Dim, C1: Dim, R2: Dim, C2: Dim> Compatible<R2, C2> for ViewMut<'t, T, R1, C1> {
    type Owned = Dynamic<T, R2, C2>;
}

/// Whether `shape` and `strides` address only the first `len` elements of a buffer, computed
/// without overflow.
fn fits_buffer(shape: [usize; 2], strides: [usize; 2], len: usize) -> (r: bool)
    ensures
        r == addressable((shape[0], shape[1]), (strides[0], strides[1]), len as nat),
{
    match shape[0].checked_mul(shape[1]) {
        None => false,
        Some(_) => {
            if shape[0] == 0 || shape[1] == 0 {
                return true;
            }
            match (shape[0] - 1).checked_mul(strides[0]) {
                None => {
                    proof {
                        assert((shape[0] - 1) * strides[0] <= offset_of(
                            shape[0] - 1,
                            shape[1] - 1,
                            (strides[0], strides[1]),
                        )) by (nonlinear_arith)
                            requires
                                shape[1] >= 1,
                        ;
                    }
                    false
                },
                Some(a) => match (shape[1] - 1).checked_mul(strides[1]) {
                    None => {
                        proof {
                            assert((shape[1] - 1) * strides[1] <= offset_of(
                                shape[0] - 1,
                                shape[1] - 1,
                                (strides[0], strides[1]),
                            )) by (nonlinear_arith)
                                requires
                                    shape[0] >= 1,
                            ;
                        }
                        false
                    },
                    Some(b) => match a.checked_add(b) {
                        None => false,
                        Some(last) => last < len,
                    },
                },
            }
        },
    }
}

/// `v` is a view of `m`'s buffer holding `m`'s elements in the same column-major order under
/// the shape `shape`: its `k`-th element sits at the buffer offset of `m`'s `k`-th element.
pub open spec fn reshaped<A: Array, B: Array<Element = A::Element>>(
    v: &Matrix<B>,
    m: &Matrix<A>,
    shape: [usize; 2],
) -> bool {
    &&& v.wf()
    &&& v.nrows() == shape[0]
    &&& v.ncols() == shape[1]
    &&& shape[0] * shape[1] == m.nrows() * m.ncols()
    &&& v.0.buffer() == m.0.buffer()
    &&& forall|k: int| 0 <= k < m.nrows() * m.ncols() ==> #[trigger] v.nth_offset(k) == m.nth_offset(k)
    &&& forall|k: int| 0 <= k < m.nrows() * m.ncols() ==> #[trigger] v.nth(k) == m.nth(k)
}

/// `v` addresses `m`'s buffer with `m`'s shape and strides.
pub open spec fn same_storage<A: Array, B: Array<Element = A::Element>>(v: &Matrix<B>, m: &Matrix<A>) -> bool {
    &&& v.0.spec_shape() == m.0.spec_shape()
    &&& v.0.spec_strides() == m.0.spec_strides()
    &&& v.0.buffer() == m.0.buffer()
}

/// `v` is `m` with rows and columns exchanged.
pub open spec fn transposed<A: Array, B: Array<Element = A::Element>>(v: &Matrix<B>, m: &Matrix<A>) -> bool {
    &&& v.wf()
    &&& v.nrows() == m.ncols()
    &&& v.ncols() == m.nrows()
    &&& forall|i: int, j: int| v.in_bounds(i, j) ==> #[trigger] v.elem(i, j) == m.elem(j, i)
}

/// With strides `(step, step * rows)`, the `k`-th column-major element sits at `k * step`.
proof fn lemma_uniform_nth(rows: int, cols: int, s0: int, s1: int, step: int, k: int)
    requires
        rows > 0,
        0 <= k < rows * cols,
        rows == 1 && cols > 1 ==> s1 == step,
        rows > 1 ==> s0 == step,
        rows > 1 && cols > 1 ==> s1 == step * rows,
    ensures
        (k % rows) * s0 + (k / rows) * s1 == k * step,
{
    vstd::arithmetic::div_mod::lemma_fundamental_div_mod(k, rows);
    let q = k / rows;
    let r = k % rows;
    if rows == 1 {
        assert(q == k && r == 0) by {
            vstd::arithmetic::div_mod::lemma_fundamental_div_mod_converse(k, 1, k, 0);
        }
        if cols > 1 {
            assert(0 * s0 + k * s1 == k * step) by (nonlinear_arith)
                requires
                    s1 == step,
            ;
        } else {
            assert(k == 0) by (nonlinear_arith)
                requires
                    0 <= k < rows * cols,
                    rows == 1,
                    cols <= 1,
            ;
        }
    } else if cols <= 1 {
        assert(k < rows) by (nonlinear_arith)
            requires
                0 <= k < rows * cols,
                cols <= 1,
                rows > 0,
        ;
        vstd::arithmetic::div_mod::lemma_fundamental_div_mod_converse(k, rows, 0, k);
        assert(k * s0 + 0 * s1 == k * step) by (nonlinear_arith)
            requires
                s0 == step,
        ;
    } else {
        assert(r * s0 + q * s1 == (q * rows + r) * step) by (nonlinear_arith)
            requires
                s0 == step,
                s1 == step * rows,
        ;
        assert(k == q * rows + r) by (nonlinear_arith)
            requires
                k == rows * q + r,
        ;
    }
}

/// The last element of a uniform-step layout sits at `(rows * cols - 1) * step`.
proof fn lemma_last_uniform(rows: int, cols: int, s0: int, s1: int, step: int)
    requires
        rows > 0,
        cols > 0,
        rows == 1 && cols > 1 ==> s1 == step,
        rows > 1 ==> s0 == step,
        rows > 1 && cols > 1 ==> s1 == step * rows,
    ensures
        (rows - 1) * s0 + (cols - 1) * s1 == step * (rows * cols - 1),
{
    let k = rows * cols - 1;
    assert(0 <= k < rows * cols) by (nonlinear_arith)
        requires
            rows > 0,
            cols > 0,
            k == rows * cols - 1,
    ;
    assert(k == (cols - 1) * rows + (rows - 1)) by (nonlinear_arith)
        requires
            k == rows * cols - 1,
    ;
    vstd::arithmetic::div_mod::lemma_fundamental_div_mod_converse(k, rows, cols - 1, rows - 1);
    lemma_uniform_nth(rows, cols, s0, s1, step, k);
    assert(k * step == step * k) by (nonlinear_arith);
}

impl<A: Array> Matrix<A> {
    /// Read-only view of this matrix: same shape, strides and buffer, no copy.
    pub fn view(&self) -> (r: Matrix<View<'_, A::Element, A::R, A::C>>)
        requires
            self.wf(),
        ensures
            r.wf(),
            same_storage(&r, self),
    {
        proof {
            self.0.lemma_inv();
        }
        let dim = self.dimensionality();
        let strides = self.strides();
        Matrix(View { shape: dim, strides: (strides[0], strides[1]), data: self.0.as_buffer() })
    }

    /// View with rows and columns exchanged, over the same buffer.
    pub fn transpose(&self) -> (r: Matrix<View<'_, A::Element, A::C, A::R>>)
        requires
            self.wf(),
        ensures
            transposed(&r, self),
            r.0.spec_strides() == (self.0.spec_strides().1, self.0.spec_strides().0),
            r.0.buffer() == self.0.buffer(),
    {
        proof {
            self.0.lemma_inv();
            assert(self.ncols() * self.nrows() == self.nrows() * self.ncols()) by (nonlinear_arith);
        }
        let dim = self.dimensionality();
        let strides = self.strides();
        Matrix(View { shape: (dim.1, dim.0), strides: (strides[1], strides[0]), data: self.0.as_buffer() })
    }

    /// Axis descriptors and strides that lay this matrix's elements out under `shape`, in the same
    /// column-major order and over the same buffer.
    fn reshape_layout<R2: Dim, C2: Dim>(&self, shape: [usize; 2]) -> (r: Option<((R2, C2), (usize, usize))>)
        requires
            self.wf(),
        ensures
            r is Some <==> uniform_step(self.0.spec_shape(), self.0.spec_strides()) && shape[0] * shape[1]
                == self.nrows() * self.ncols() && R2::admits(shape[0]) && C2::admits(shape[1]),
            r matches Some(l) ==> {
                &&& l.0.0.spec_value() == shape[0]
                &&& l.0.1.spec_value() == shape[1]
                &&& addressable((shape[0], shape[1]), l.1, self.0.buffer().len())
                &&& forall|k: int|
                    0 <= k < self.nrows() * self.ncols() ==> #[trigger] offset_of(
                        k % (shape[0] as int),
                        k / (shape[0] as int),
                        l.1,
                    ) == offset_of(k % (self.nrows() as int), k / (self.nrows() as int), self.0.spec_strides())
            },
    {
        proof {
            self.0.lemma_inv();
        }
        let previous = self.shape();
        let strides = self.strides();
        if previous[0] > 1 && previous[1] > 1 {
            match strides[0].checked_mul(previous[0]) {
                None => {
                    return None;
                },
                Some(s) => {
                    if s != strides[1] {
                        return None;
                    }
                },
            }
        }
        match shape[0].checked_mul(shape[1]) {
            None => {
                return None;
            },
            Some(n) => {
                if n != previous[0] * previous[1] {
                    return None;
                }
            },
        }
        let rows = match R2::check(shape[0]) {
            None => {
                return None;
            },
            Some(d) => d,
        };
        let cols = match C2::check(shape[1]) {
            None => {
                return None;
            },
            Some(d) => d,
        };
        let step = if previous[0] > 1 {
            strides[0]
        } else {
            strides[1]
        };
        let ghost size = previous[0] * previous[1];
        proof {
            if size > 0 {
                assert(previous[0] > 0 && previous[1] > 0) by (nonlinear_arith)
                    requires
                        size == previous[0] * previous[1],
                        size > 0,
                ;
                lemma_last_uniform(previous[0] as int, previous[1] as int, strides[0] as int, strides[1] as int, step as int);
                assert(step * (size - 1) < self.0.buffer().len());
            }
        }
        let col_step = if shape[1] <= 1 {
            0
        } else {
            proof {
                if shape[0] > 0 {
                    assert(size == shape[0] * shape[1]);
                    assert(size > 0) by (nonlinear_arith)
                        requires
                            size == shape[0] * shape[1],
                            shape[0] > 0,
                            shape[1] > 1,
                    ;
                    assert(step * (size - 1) < self.0.buffer().len());
                    assert(step * shape[0] <= step * (size - 1)) by (nonlinear_arith)
                        requires
                            shape[1] > 1,
                            shape[0] > 0,
                            size == shape[0] * shape[1],
                    ;
                } else {
                    assert(step * shape[0] == 0) by (nonlinear_arith)
                        requires
                            shape[0] == 0,
                    ;
                }
            }
            step * shape[0]
        };
        proof {
            if size > 0 {
                assert(shape[0] > 0 && shape[1] > 0) by (nonlinear_arith)
                    requires
                        size == shape[0] * shape[1],
                        size > 0,
                ;
                assert(shape[0] == 1 && shape[1] > 1 ==> col_step == step);
                lemma_last_uniform(shape[0] as int, shape[1] as int, step as int, col_step as int, step as int);
            } else {
                assert(shape[0] == 0 || shape[1] == 0) by (nonlinear_arith)
                    requires
                        size == shape[0] * shape[1],
                        size == 0,
                ;
            }
            assert forall|k: int| 0 <= k < self.nrows() * self.ncols() implies #[trigger] offset_of(
                k % (shape[0] as int),
                k / (shape[0] as int),
                (step, col_step),
            ) == offset_of(k % (self.nrows() as int), k / (self.nrows() as int), self.0.spec_strides()) by {
                assert(shape[0] > 0) by (nonlinear_arith)
                    requires
                        0 <= k < size,
                        size == shape[0] * shape[1],
                ;
                lemma_uniform_nth(
                    previous[0] as int,
                    previous[1] as int,
                    strides[0] as int,
                    strides[1] as int,
                    step as int,
                    k,
                );
                lemma_uniform_nth(
                    shape[0] as int,
                    shape[1] as int,
                    step as int,
                    col_step as int,
                    step as int,
                    k,
                );
            }
        }
        Some(((rows, cols), (step, col_step)))
    }

    /// View of the same elements, in the same column-major order, under a new shape. It exists
    /// when the elements sit at one uniform step in column-major order, the element count is
    /// unchanged and the axis kinds admit the new shape.
    pub fn reshape<R2: Dim, C2: Dim>(&self, shape: [usize; 2]) -> (r: Option<Matrix<View<'_, A::Element, R2, C2>>>)
        requires
            self.wf(),
        ensures
            r is Some <==> uniform_step(self.0.spec_shape(), self.0.spec_strides()) && shape[0] * shape[1]
                == self.nrows() * self.ncols() && R2::admits(shape[0]) && C2::admits(shape[1]),
            r matches Some(v) ==> reshaped(&v, self, shape),
    {
        match self.reshape_layout(shape) {
            None => None,
            Some((dim, strides)) => {
                let v = Matrix(View { shape: dim, strides, data: self.0.as_buffer() });
                proof {
                    assert forall|k: int| 0 <= k < self.nrows() * self.ncols() implies #[trigger] v.nth(k)
                        == self.nth(k) && v.nth_offset(k) == self.nth_offset(k) by {
                        assert(offset_of(k % (shape[0] as int), k / (shape[0] as int), strides) == offset_of(
                            k % (self.nrows() as int),
                            k / (self.nrows() as int),
                            self.0.spec_strides(),
                        ));
                    }
                }
                Some(v)
            },
        }
    }
}

/// Copying a view of a matrix into owned storage gives back the matrix's shape and elements.
pub proof fn lemma_owned_view<A: Array, B: Array<Element = A::Element>, O: Array<Element = A::Element>>(
    m: &Matrix<A>,
    v: &Matrix<B>,
    o: &Matrix<O>,
)
    requires
        m.wf(),
        same_storage(v, m),
        o.same_elements(v),
    ensures
        o.same_elements(m),
{
}

/// Transposing a matrix twice gives back its shape and elements.
pub proof fn lemma_transpose_twice<A: Array, B: Array<Element = A::Element>, D: Array<Element = A::Element>>(
    m: &Matrix<A>,
    t: &Matrix<B>,
    tt: &Matrix<D>,
)
    requires
        m.wf(),
        transposed(t, m),
        transposed(tt, t),
    ensures
        tt.same_elements(m),
{
    assert forall|i: int, j: int| #[trigger] tt.in_bounds(i, j) implies tt.elem(i, j) == m.elem(i, j) by {
        assert(t.in_bounds(j, i));
    }
}

/// Reshaping a matrix and then reshaping the result back to the matrix's shape gives back every
/// element at its own index.
pub proof fn lemma_reshape_twice<A: Array, B: Array<Element = A::Element>, D: Array<Element = A::Element>>(
    m: &Matrix<A>,
    v: &Matrix<B>,
    w: &Matrix<D>,
    shape: [usize; 2],
)
    requires
        m.wf(),
        reshaped(v, m, shape),
        reshaped(w, v, [m.nrows(), m.ncols()]),
    ensures
        w.same_elements(m),
{
    assert forall|i: int, j: int| #[trigger] w.in_bounds(i, j) implies w.elem(i, j) == m.elem(i, j) by {
        let r = m.nrows() as int;
        let c = m.ncols() as int;
        let k = j * r + i;
        assert(0 <= k < r * c) by (nonlinear_arith)
            requires
                0 <= i < r,
                0 <= j < c,
                k == j * r + i,
        ;
        vstd::arithmetic::div_mod::lemma_fundamental_div_mod_converse(k, r, j, i);
        assert(w.nth(k) == v.nth(k));
        assert(v.nth(k) == m.nth(k));
    }
}

impl<A: ArrayMut> Matrix<A> {
    /// Writable view of this matrix: same shape, strides and buffer, no copy. Writes through the
    /// view land in this matrix.
    pub fn view_mut(&mut self) -> (r: Matrix<ViewMut<'_, A::Element, A::R, A::C>>)
        requires
            old(self).wf(),
        ensures
            r.wf(),
            same_storage(&r, old(self)),
            final(self).0.buffer() == (*final(r.0.data))@,
            final(self).same_layout(old(self)),
            (*final(r.0.data))@.len() == old(self).0.buffer().len() ==> final(self).wf(),
    {
        proof {
            self.0.lemma_inv();
        }
        let dim = self.dimensionality();
        let strides = self.strides();
        Matrix(ViewMut { shape: dim, strides: (strides[0], strides[1]), data: self.0.as_buffer_mut() })
    }
}

impl<A: ArrayMut> Matrix<A> {
    /// Writable view with rows and columns exchanged, over the same buffer.
    pub fn transpose_mut(&mut self) -> (r: Matrix<ViewMut<'_, A::Element, A::C, A::R>>)
        requires
            old(self).wf(),
        ensures
            transposed(&r, old(self)),
            r.0.spec_strides() == (old(self).0.spec_strides().1, old(self).0.spec_strides().0),
            r.0.buffer() == old(self).0.buffer(),
            final(self).0.buffer() == (*final(r.0.data))@,
            final(self).same_layout(old(self)),
            (*final(r.0.data))@.len() == old(self).0.buffer().len() ==> final(self).wf(),
    {
        proof {
            self.0.lemma_inv();
            assert(self.ncols() * self.nrows() == self.nrows() * self.ncols()) by (nonlinear_arith);
        }
        let dim = self.dimensionality();
        let strides = self.strides();
        Matrix(ViewMut { shape: (dim.1, dim.0), strides: (strides[1], strides[0]), data: self.0.as_buffer_mut() })
    }

    /// Writable view of the same elements, in the same column-major order, under a new shape; it
    /// exists on the same conditions as [`Matrix::reshape`].
    pub fn reshape_mut<R2: Dim, C2: Dim>(&mut self, shape: [usize; 2]) -> (r: Option<Matrix<ViewMut<'_, A::Element, R2, C2>>>)
        requires
            old(self).wf(),
        ensures
            r is Some <==> uniform_step(old(self).0.spec_shape(), old(self).0.spec_strides()) && shape[0]
                * shape[1] == old(self).nrows() * old(self).ncols() && R2::admits(shape[0]) && C2::admits(
                shape[1],
            ),
            r matches Some(v) ==> {
                &&& reshaped(&v, old(self), shape)
                &&& final(self).0.buffer() == (*final(v.0.data))@
                &&& (*final(v.0.data))@.len() == old(self).0.buffer().len() ==> final(self).wf()
            },
            final(self).same_layout(old(self)),
    {
        match self.reshape_layout(shape) {
            None => None,
            Some((dim, strides)) => {
                let ghost before = *self;
                let v = Matrix(ViewMut { shape: dim, strides, data: self.0.as_buffer_mut() });
                proof {
                    assert forall|k: int| 0 <= k < before.nrows() * before.ncols() implies #[trigger] v.nth(k)
                        == before.nth(k) && v.nth_offset(k) == before.nth_offset(k) by {
                        assert(offset_of(k % (shape[0] as int), k / (shape[0] as int), strides) == offset_of(
                            k % (before.nrows() as int),
                            k / (before.nrows() as int),
                            before.0.spec_strides(),
                        ));
                    }
                }
                Some(v)
            },
        }
    }
}

impl<'t, T: Element, R: Dim, C: Dim> Matrix<View<'t, T, R, C>> {
    /// Read-only view of `src` as a column-major matrix of the given shape. It fails when `src` is
    /// shorter than `shape[0] * shape[1]` or the axis kinds do not admit the shape.
    pub fn try_from_slice(shape: [usize; 2], src: &'t [T]) -> (r: Option<Self>)
        ensures
            r is Some <==> shape[0] * shape[1] <= src@.len() && R::admits(shape[0]) && C::admits(
                shape[1],
            ),
            r matches Some(v) ==> {
                &&& v.wf()
                &&& v.nrows() == shape[0]
                &&& v.ncols() == shape[1]
                &&& v.0.spec_strides() == (1usize, shape[0])
                &&& v.0.buffer() == src@
            },
    {
        let len = src.len();
        match shape[0].checked_mul(shape[1]) {
            None => None,
            Some(n) => {
                if n > len {
                    return None;
                }
                let rows = match R::check(shape[0]) {
                    None => {
                        return None;
                    },
                    Some(d) => d,
                };
                let cols = match C::check(shape[1]) {
                    None => {
                        return None;
                    },
                    Some(d) => d,
                };
                proof {
                    if shape[0] > 0 && shape[1] > 0 {
                        lemma_packed_last(shape[0], shape[1]);
                    }
                }
                Some(Matrix(View { shape: (rows, cols), strides: (1, shape[0]), data: src }))
            },
        }
    }

    /// Read-only view of `src` with the given shape and strides. It fails when some index within
    /// `shape` would reach past the end of `src`, or the axis kinds do not admit the shape.
    pub fn try_from_strides(shape: [usize; 2], strides: [usize; 2], src: &'t [T]) -> (r: Option<Self>)
        ensures
            r is Some <==> addressable((shape[0], shape[1]), (strides[0], strides[1]), src@.len())
                && R::admits(shape[0]) && C::admits(shape[1]),
            r matches Some(v) ==> {
                &&& v.wf()
                &&& v.nrows() == shape[0]
                &&& v.ncols() == shape[1]
                &&& v.0.spec_strides() == (strides[0], strides[1])
                &&& v.0.buffer() == src@
            },
    {
        if !fits_buffer(shape, strides, src.len()) {
            return None;
        }
        let rows = match R::check(shape[0]) {
            None => {
                return None;
            },
            Some(d) => d,
        };
        let cols = match C::check(shape[1]) {
            None => {
                return None;
            },
            Some(d) => d,
        };
        Some(Matrix(View { shape: (rows, cols), strides: (strides[0], strides[1]), data: src }))
    }
}

impl<'t, T: Element, R: Dim, C: Dim> Matrix<ViewMut<'t, T, R, C>> {
    /// Writable view of `src` as a column-major matrix of the given shape. It fails when `src` is
    /// shorter than `shape[0] * shape[1]` or the axis kinds do not admit the shape.
    pub fn try_from_slice(shape: [usize; 2], src: &'t mut [T]) -> (r: Option<Self>)
        ensures
            r is Some <==> shape[0] * shape[1] <= old(src)@.len() && R::admits(shape[0]) && C::admits(
                shape[1],
            ),
            r matches Some(v) ==> {
                &&& v.wf()
                &&& v.nrows() == shape[0]
                &&& v.ncols() == shape[1]
                &&& v.0.spec_strides() == (1usize, shape[0])
                &&& v.0.buffer() == old(src)@
            },
    {
        let len = src.len();
        match shape[0].checked_mul(shape[1]) {
            None => None,
            Some(n) => {
                if n > len {
                    return None;
                }
                let rows = match R::check(shape[0]) {
                    None => {
                        return None;
                    },
                    Some(d) => d,
                };
                let cols = match C::check(shape[1]) {
                    None => {
                        return None;
                    },
                    Some(d) => d,
                };
                proof {
                    if shape[0] > 0 && shape[1] > 0 {
                        lemma_packed_last(shape[0], shape[1]);
                    }
                }
                Some(Matrix(ViewMut { shape: (rows, cols), strides: (1, shape[0]), data: src }))
            },
        }
    }

    /// Writable view of `src` with the given shape and strides. It fails when some index within
    /// `shape` would reach past the end of `src`, or the axis kinds do not admit the shape.
    pub fn try_from_strides(shape: [usize; 2], strides: [usize; 2], src: &'t mut [T]) -> (r: Option<Self>)
        ensures
            r is Some <==> addressable((shape[0], shape[1]), (strides[0], strides[1]), old(src)@.len())
                && R::admits(shape[0]) && C::admits(shape[1]),
            r matches Some(v) ==> {
                &&& v.wf()
                &&& v.nrows() == shape[0]
                &&& v.ncols() == shape[1]
                &&& v.0.spec_strides() == (strides[0], strides[1])
                &&& v.0.buffer() == old(src)@
            },
    {
        if !fits_buffer(shape, strides, src.len()) {
            return None;
        }
        let rows = match R::check(shape[0]) {
            None => {
                return None;
            },
            Some(d) => d,
        };
        let cols = match C::check(shape[1]) {
            None => {
                return None;
            },
            Some(d) => d,
        };
        Some(Matrix(ViewMut { shape: (rows, cols), strides: (strides[0], strides[1]), data: src }))
    }
}

impl<T: Element, R: Dim, C: Dim> Matrix<Dynamic<T, R, C>> {
    /// Column-major matrix of the given shape over the elements of `src`. It fails when `src`
    /// holds fewer than `shape[0] * shape[1]` elements or the axis kinds do not admit the shape.
    pub fn try_from_vec(shape: [usize; 2], src: Vec<T>) -> (r: Option<Self>)
        ensures
            r is Some <==> shape[0] * shape[1] <= src@.len() && R::admits(shape[0]) && C::admits(shape[1]),
            r matches Some(m) ==> {
                &&& m.wf()
                &&& m.distinct()
                &&& m.nrows() == shape[0]
                &&& m.ncols() == shape[1]
                &&& m.0.buffer() == src@
            },
    {
        let len = src.len();
        match shape[0].checked_mul(shape[1]) {
            None => None,
            Some(n) => {
                if n > len {
                    return None;
                }
                let rows = match R::check(shape[0]) {
                    None => {
                        return None;
                    },
                    Some(d) => d,
                };
                let cols = match C::check(shape[1]) {
                    None => {
                        return None;
                    },
                    Some(d) => d,
                };
                proof {
                    lemma_packed_distinct(shape[0], shape[1]);
                }
                Some(Matrix(Dynamic { shape: (rows, cols), data: src }))
            },
        }
    }
}

/// Step between consecutive diagonal elements of an `n` x `n` layout.
proof fn lemma_diagonal_step(n: int, st: (usize, usize), len: int)
    requires
        n > 1,
        offset_of(n - 1, n - 1, st) < len,
    ensures
        st.0 + st.1 <= (n - 1) * (st.0 + st.1) < len,
        forall|i: int| #[trigger] offset_of(i, i, st) == i * (st.0 + st.1),
{
    let s0 = st.0 as int;
    let s1 = st.1 as int;
    assert(s0 + s1 <= (n - 1) * (s0 + s1) == (n - 1) * s0 + (n - 1) * s1) by (nonlinear_arith)
        requires
            n > 1,
            s0 >= 0,
            s1 >= 0,
    ;
    assert forall|i: int| #[trigger] offset_of(i, i, st) == i * (s0 + s1) by {
        assert(i * s0 + i * s1 == i * (s0 + s1)) by (nonlinear_arith);
    }
}

impl<A: Array> Matrix<A> {
    /// Read-only view of the diagonal of a square matrix as a column; `None` when the matrix is
    /// not square.
    pub fn diagonal(&self) -> (r: Option<Matrix<View<'_, A::Element, Dyn, Stat<1>>>>)
        requires
            self.wf(),
        ensures
            r is Some <==> self.nrows() == self.ncols(),
            r matches Some(d) ==> {
                &&& d.wf()
                &&& d.nrows() == self.nrows()
                &&& d.ncols() == 1
                &&& d.0.buffer() == self.0.buffer()
                &&& forall|i: int| 0 <= i < self.nrows() ==> #[trigger] d.elem(i, 0) == self.elem(i, i)
            },
    {
        proof {
            self.0.lemma_inv();
        }
        let shape = self.shape();
        if shape[0] != shape[1] {
            return None;
        }
        let strides = self.strides();
        let n = shape[0];
        let step = if n > 1 {
            proof {
                lemma_diagonal_step(n as int, self.0.spec_strides(), self.0.buffer().len() as int);
            }
            strides[0] + strides[1]
        } else {
            0
        };
        let d = Matrix(View { shape: (Dyn(n), Stat {}), strides: (step, 0), data: self.0.as_buffer() });
        proof {
            if n > 1 {
                lemma_diagonal_step(n as int, self.0.spec_strides(), self.0.buffer().len() as int);
                assert(offset_of(n - 1, 0, (step, 0usize)) == (n - 1) * step);
            }
            assert(n * 1 == n);
            assert(d.wf());
            assert forall|i: int| 0 <= i < self.nrows() implies #[trigger] d.elem(i, 0) == self.elem(i, i) by {
                assert(offset_of(i, 0, (step, 0usize)) == i * step);
                if n <= 1 {
                    assert(i == 0);
                }
            }
        }
        Some(d)
    }
}

impl<A: ArrayMut> Matrix<A> {
    /// Writable view of the diagonal of a square matrix as a column; `None` when the matrix is not
    /// square.
    pub fn diagonal_mut(&mut self) -> (r: Option<Matrix<ViewMut<'_, A::Element, Dyn, Stat<1>>>>)
        requires
            old(self).wf(),
        ensures
            r is Some <==> old(self).nrows() == old(self).ncols(),
            r matches Some(d) ==> {
                &&& d.wf()
                &&& d.nrows() == old(self).nrows()
                &&& d.ncols() == 1
                &&& d.0.buffer() == old(self).0.buffer()
                &&& forall|i: int| 0 <= i < old(self).nrows() ==> #[trigger] d.elem(i, 0) == old(self).elem(i, i)
                &&& final(self).0.buffer() == (*final(d.0.data))@
            },
            final(self).same_layout(old(self)),
    {
        proof {
            self.0.lemma_inv();
        }
        let shape = self.shape();
        if shape[0] != shape[1] {
            return None;
        }
        let strides = self.strides();
        let n = shape[0];
        let ghost before = *self;
        let step = if n > 1 {
            proof {
                lemma_diagonal_step(n as int, self.0.spec_strides(), self.0.buffer().len() as int);
            }
            strides[0] + strides[1]
        } else {
            0
        };
        let d = Matrix(ViewMut { shape: (Dyn(n), Stat {}), strides: (step, 0), data: self.0.as_buffer_mut() });
        proof {
            if n > 1 {
                lemma_diagonal_step(n as int, before.0.spec_strides(), before.0.buffer().len() as int);
                assert(offset_of(n - 1, 0, (step, 0usize)) == (n - 1) * step);
            }
            assert(n * 1 == n);
            assert(d.wf());
            assert forall|i: int| 0 <= i < before.nrows() implies #[trigger] d.elem(i, 0) == before.elem(i, i) by {
                assert(offset_of(i, 0, (step, 0usize)) == i * step);
                if n <= 1 {
                    assert(i == 0);
                }
            }
        }
        Some(d)
    }
}

} // verus!
