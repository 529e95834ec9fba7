//! The matrix type and the storage traits it is built on.
use vstd::prelude::*;

use crate::prelude::{Dim, Element, Scalar};

verus! {

/// Linear buffer offset of element `[i, j]` under `strides`.
pub open spec fn offset_of(i: int, j: int, strides: (usize, usize)) -> int {
    i * strides.0 + j * strides.1
}

/// Whether every index within `shape` lands inside a buffer of `len` elements,
/// and the element count of `shape` fits in a `usize`.
pub open spec fn addressable(shape: (usize, usize), strides: (usize, usize), len: nat) -> bool {
    &&& shape.0 * shape.1 <= usize::MAX
    &&& (shape.0 == 0 || shape.1 == 0 || offset_of(shape.0 - 1, shape.1 - 1, strides) < len)
}

/// Whether distinct indices within `shape` always reach distinct offsets, so that
/// writing one element never changes another.
pub open spec fn distinct_offsets(shape: (usize, usize), strides: (usize, usize)) -> bool {
    forall|i1: int, j1: int, i2: int, j2: int|
        0 <= i1 < shape.0 && 0 <= j1 < shape.1 && 0 <= i2 < shape.0 && 0 <= j2 < shape.1
            && #[trigger] offset_of(i1, j1, strides) == #[trigger] offset_of(i2, j2, strides) ==> i1
            == i2 && j1 == j2
}

/// Extent of buffer spanned by `shape` under `strides`: one past the offset of the last element.
pub open spec fn spec_area(shape: (usize, usize), strides: (usize, usize)) -> int {
    if shape.0 == 0 || shape.1 == 0 {
        0
    } else {
        offset_of(shape.0 - 1, shape.1 - 1, strides) + 1
    }
}

/// Whether the elements fill one unbroken run of the buffer, column after column
/// or row after row.
pub open spec fn packed(shape: (usize, usize), strides: (usize, usize)) -> bool {
    ||| (shape.0 <= 1 || strides.0 == 1) && (shape.1 <= 1 || strides.1 == shape.0)
    ||| (shape.1 <= 1 || strides.1 == 1) && (shape.0 <= 1 || strides.0 == shape.1)
}

/// Whether the elements sit at one uniform step in column-major order.
pub open spec fn uniform_step(shape: (usize, usize), strides: (usize, usize)) -> bool {
    shape.0 <= 1 || shape.1 <= 1 || strides.1 == strides.0 * shape.0
}

/// Element `[i, j]` of the identity: one on the diagonal, zero elsewhere.
pub open spec fn identity_elem<T: Scalar>(i: int, j: int) -> T {
    if i == j {
        T::spec_one()
    } else {
        T::spec_zero()
    }
}

/// A dense two-dimensional storage layout: a buffer, a shape and a stride per axis.
///
/// Element `[i, j]` (row `i`, column `j`) is `buffer()[i * strides.0 + j * strides.1]`.
pub trait Array: Sized {
    /// Element type.
    type Element: Element;

    /// Kind of the row axis.
    type R: Dim;

    /// Kind of the column axis.
    type C: Dim;

    /// Rows and columns.
    spec fn spec_shape(&self) -> (usize, usize);

    /// Buffer step along rows and along columns.
    spec fn spec_strides(&self) -> (usize, usize);

    /// The memory this storage addresses, starting at element `[0, 0]`.
    spec fn buffer(&self) -> Seq<Self::Element>;

    /// Well-formedness of this storage.
    spec fn inv(&self) -> bool;

    /// A well-formed storage addresses only its buffer, and its shape suits its axis kinds.
    proof fn lemma_inv(&self)
        requires
            self.inv(),
        ensures
            addressable(self.spec_shape(), self.spec_strides(), self.buffer().len()),
            self.buffer().len() <= usize::MAX,
            Self::R::admits(self.spec_shape().0),
            Self::C::admits(self.spec_shape().1),
    ;

    /// Size of the array along each axis.
    fn shape(&self) -> (r: [usize; 2])
        ensures
            r[0] == self.spec_shape().0,
            r[1] == self.spec_shape().1,
    ;

    /// Buffer step along each axis.
    fn strides(&self) -> (r: [usize; 2])
        ensures
            r[0] == self.spec_strides().0,
            r[1] == self.spec_strides().1,
    ;

    /// The buffer element at `offset`.
    fn at(&self, offset: usize) -> (r: &Self::Element)
        requires
            self.inv(),
            offset < self.buffer().len(),
        ensures
            *r == self.buffer()[offset as int],
    ;

    /// The whole buffer, starting at element `[0, 0]`.
    fn as_buffer(&self) -> (r: &[Self::Element])
        requires
            self.inv(),
        ensures
            r@ == self.buffer(),
    ;
}

/// Storage whose elements can be written.
pub trait ArrayMut: Array {
    /// Overwrites the buffer element at `offset`.
    fn write(&mut self, offset: usize, value: Self::Element)
        requires
            old(self).inv(),
            offset < old(self).buffer().len(),
        ensures
            final(self).inv(),
            final(self).buffer() == old(self).buffer().update(offset as int, value),
            final(self).spec_shape() == old(self).spec_shape(),
            final(self).spec_strides() == old(self).spec_strides(),
    ;

    /// Writable access to the buffer element at `offset`.
    fn at_mut(&mut self, offset: usize) -> (r: &mut Self::Element)
        requires
            old(self).inv(),
            offset < old(self).buffer().len(),
        ensures
            *r == old(self).buffer()[offset as int],
            final(self).inv(),
            final(self).buffer() == old(self).buffer().update(offset as int, *final(r)),
            final(self).spec_shape() == old(self).spec_shape(),
            final(self).spec_strides() == old(self).spec_strides(),
    ;

    /// Writable access to the whole buffer. The storage is well formed again once the
    /// borrow ends with the buffer's length unchanged.
    fn as_buffer_mut(&mut self) -> (r: &mut [Self::Element])
        requires
            old(self).inv(),
        ensures
            r@ == old(self).buffer(),
            final(self).buffer() == final(r)@,
            final(r)@.len() == r@.len() ==> final(self).inv(),
            final(self).spec_shape() == old(self).spec_shape(),
            final(self).spec_strides() == old(self).spec_strides(),
    ;
}

/// Storage that can be created, and so can hold the result of an operation.
pub trait ArrayOwned: ArrayMut {
    /// Whether `v` is a value that new storage holds in every slot (its element type's default).
    spec fn empty_fill(v: Self::Element) -> bool;

    /// New storage of the given shape, every slot holding the element type's default.
    fn empty(shape: (Self::R, Self::C)) -> (r: Self)
        requires
            shape.0.spec_value() * shape.1.spec_value() <= usize::MAX,
        ensures
            r.inv(),
            r.spec_shape() == (shape.0.spec_value(), shape.1.spec_value()),
            distinct_offsets(r.spec_shape(), r.spec_strides()),
            forall|k: int| 0 <= k < r.buffer().len() ==> Self::empty_fill(#[trigger] r.buffer()[k]),
    ;
}

/// Names the owned storage that holds results of shape `R` x `C` computed from this storage.
pub trait Compatible<R, C>: Array {
    type Owned: ArrayOwned<Element = Self::Element, R = R, C = C>;
}

/// A dense matrix over any storage. Indexing is always `[row, column]`.
#[derive(Clone)]
pub struct Matrix<A: Array>(pub A);

/// A well-formed storage never reaches past its buffer from an index within its shape.
proof fn lemma_offset_in_buffer(shape: (usize, usize), strides: (usize, usize), len: nat, i: int, j: int)
    requires
        addressable(shape, strides, len),
        0 <= i < shape.0,
        0 <= j < shape.1,
    ensures
        0 <= offset_of(i, j, strides) < len,
{
    let (r, c) = shape;
    let (s0, s1) = strides;
    assert(0 <= i * s0 <= (r - 1) * s0) by (nonlinear_arith)
        requires
            0 <= i < r,
    ;
    assert(0 <= j * s1 <= (c - 1) * s1) by (nonlinear_arith)
        requires
            0 <= j < c,
    ;
}

impl<A: Array> Matrix<A> {
    /// The storage is well formed.
    pub open spec fn wf(&self) -> bool {
        self.0.inv()
    }

    /// Number of rows.
    pub open spec fn nrows(&self) -> usize {
        self.0.spec_shape().0
    }

    /// Number of columns.
    pub open spec fn ncols(&self) -> usize {
        self.0.spec_shape().1
    }

    /// `[i, j]` lies within the shape.
    pub open spec fn in_bounds(&self, i: int, j: int) -> bool {
        0 <= i < self.nrows() && 0 <= j < self.ncols()
    }

    /// Element `[i, j]`.
    pub open spec fn elem(&self, i: int, j: int) -> A::Element {
        self.0.buffer()[offset_of(i, j, self.0.spec_strides())]
    }

    /// The `k`-th element in column-major order.
    pub open spec fn nth(&self, k: int) -> A::Element {
        self.elem(k % (self.nrows() as int), k / (self.nrows() as int))
    }

    /// Buffer offset of the `k`-th element in column-major order.
    pub open spec fn nth_offset(&self, k: int) -> int {
        offset_of(k % (self.nrows() as int), k / (self.nrows() as int), self.0.spec_strides())
    }

    /// No two elements share a buffer slot.
    pub open spec fn distinct(&self) -> bool {
        distinct_offsets(self.0.spec_shape(), self.0.spec_strides())
    }

    /// Same shape and the same element at every index.
    pub open spec fn same_elements<B: Array<Element = A::Element>>(&self, other: &Matrix<B>) -> bool {
        &&& self.nrows() == other.nrows()
        &&& self.ncols() == other.ncols()
        &&& forall|i: int, j: int| self.in_bounds(i, j) ==> #[trigger] self.elem(i, j) == other.elem(i, j)
    }

    pub(crate) proof fn lemma_offset(&self, i: int, j: int)
        requires
            self.wf(),
            self.in_bounds(i, j),
        ensures
            0 <= offset_of(i, j, self.0.spec_strides()) < self.0.buffer().len(),
            self.0.buffer().len() <= usize::MAX,
    {
        self.0.lemma_inv();
        lemma_offset_in_buffer(self.0.spec_shape(), self.0.spec_strides(), self.0.buffer().len(), i, j);
    }

    /// Same shape and strides.
    pub open spec fn same_layout(&self, other: &Self) -> bool {
        self.0.spec_shape() == other.0.spec_shape() && self.0.spec_strides() == other.0.spec_strides()
    }

    /// The underlying storage.
    pub fn array(&self) -> (r: &A)
        ensures
            *r == self.0,
    {
        &self.0
    }

    /// Size along each axis: `[rows, columns]`.
    pub fn shape(&self) -> (r: [usize; 2])
        ensures
            r[0] == self.nrows(),
            r[1] == self.ncols(),
    {
        self.0.shape()
    }

    /// Buffer step along each axis.
    pub fn strides(&self) -> (r: [usize; 2])
        ensures
            r[0] == self.0.spec_strides().0,
            r[1] == self.0.spec_strides().1,
    {
        self.0.strides()
    }

    /// Number of rows.
    pub fn rows(&self) -> (r: usize)
        ensures
            r == self.nrows(),
    {
        self.shape()[0]
    }

    /// Number of columns.
    pub fn columns(&self) -> (r: usize)
        ensures
            r == self.ncols(),
    {
        self.shape()[1]
    }

    /// The shape as axis descriptors.
    pub fn dimensionality(&self) -> (r: (A::R, A::C))
        requires
            self.wf(),
        ensures
            r.0.spec_value() == self.nrows(),
            r.1.spec_value() == self.ncols(),
    {
        proof {
            self.0.lemma_inv();
        }
        let shape = self.shape();
        let r = A::R::check(shape[0]).unwrap();
        let c = A::C::check(shape[1]).unwrap();
        (r, c)
    }

    /// Number of elements.
    pub fn size(&self) -> (r: usize)
        requires
            self.wf(),
        ensures
            r == self.nrows() * self.ncols(),
    {
        proof {
            self.0.lemma_inv();
        }
        let shape = self.shape();
        shape[0] * shape[1]
    }

    /// Extent of buffer the elements span: one past the offset of the last element, or 0 when empty.
    pub fn area(&self) -> (r: usize)
        requires
            self.wf(),
        ensures
            r == spec_area(self.0.spec_shape(), self.0.spec_strides()),
    {
        let shape = self.shape();
        if shape[0] == 0 || shape[1] == 0 {
            return 0;
        }
        let last = self.offset([shape[0] - 1, shape[1] - 1]);
        last + 1
    }

    /// Whether the elements fill one unbroken run of the buffer.
    pub fn is_contiguous(&self) -> (r: bool)
        ensures
            r == packed(self.0.spec_shape(), self.0.spec_strides()),
    {
        let shape = self.shape();
        let strides = self.strides();
        ((shape[0] <= 1 || strides[0] == 1) && (shape[1] <= 1 || strides[1] == shape[0])) || ((
        shape[1] <= 1 || strides[1] == 1) && (shape[0] <= 1 || strides[0] == shape[1]))
    }

    /// The elements as one flat slice of the buffer, when they fill one unbroken run of it.
    pub fn as_slice(&self) -> (r: Option<&[A::Element]>)
        requires
            self.wf(),
        ensures
            r is Some <==> packed(self.0.spec_shape(), self.0.spec_strides()),
            r matches Some(s) ==> s@ == self.0.buffer().subrange(
                0,
                spec_area(self.0.spec_shape(), self.0.spec_strides()),
            ),
    {
        if !self.is_contiguous() {
            return None;
        }
        let area = self.area();
        proof {
            self.0.lemma_inv();
            let shape = self.0.spec_shape();
            if shape.0 > 0 && shape.1 > 0 {
                self.lemma_offset(shape.0 - 1, shape.1 - 1);
            }
        }
        let (front, _) = self.0.as_buffer().split_at(area);
        Some(front)
    }

    /// Buffer offset of `index`: `index[0] * strides[0] + index[1] * strides[1]`.
    pub fn offset(&self, index: [usize; 2]) -> (r: usize)
        requires
            self.wf(),
            self.in_bounds(index[0] as int, index[1] as int),
        ensures
            r == offset_of(index[0] as int, index[1] as int, self.0.spec_strides()),
            r < self.0.buffer().len(),
            self.0.buffer().len() <= usize::MAX,
    {
        proof {
            self.lemma_offset(index[0] as int, index[1] as int);
        }
        let strides = self.strides();
        proof {
            assert(0 <= index[0] * strides[0]) by (nonlinear_arith);
            assert(0 <= index[1] * strides[1]) by (nonlinear_arith);
        }
        index[0] * strides[0] + index[1] * strides[1]
    }

    /// Element `[row, column]`.
    pub fn get(&self, index: [usize; 2]) -> (r: &A::Element)
        requires
            self.wf(),
            self.in_bounds(index[0] as int, index[1] as int),
        ensures
            *r == self.elem(index[0] as int, index[1] as int),
    {
        let k = self.offset(index);
        self.0.at(k)
    }
}

impl<A: ArrayMut> Matrix<A> {
    /// Writes element `[row, column]`. When no two indices share a buffer slot, every other element
    /// keeps its value.
    pub fn set(&mut self, index: [usize; 2], value: A::Element)
        requires
            old(self).wf(),
            old(self).in_bounds(index[0] as int, index[1] as int),
        ensures
            final(self).wf(),
            final(self).same_layout(old(self)),
            final(self).0.buffer() == old(self).0.buffer().update(
                offset_of(index[0] as int, index[1] as int, old(self).0.spec_strides()),
                value,
            ),
            final(self).elem(index[0] as int, index[1] as int) == value,
            old(self).distinct() ==> forall|i: int, j: int|
                #![trigger final(self).elem(i, j)]
                old(self).in_bounds(i, j) && (i != index[0] || j != index[1]) ==> final(self).elem(i, j)
                    == old(self).elem(i, j),
    {
        let k = self.offset(index);
        proof {
            assert forall|i: int, j: int| old(self).in_bounds(i, j) implies #[trigger] old(self).elem(i, j)
                == old(self).0.buffer()[offset_of(i, j, old(self).0.spec_strides())] by {
                old(self).lemma_offset(i, j);
            }
        }
        self.0.write(k, value);
        proof {
            if old(self).distinct() {
                assert forall|i: int, j: int|
                    old(self).in_bounds(i, j) && (i != index[0] || j != index[1]) implies #[trigger] self.elem(i, j)
                    == old(self).elem(i, j) by {
                    old(self).lemma_offset(i, j);
                    assert(offset_of(i, j, old(self).0.spec_strides()) != offset_of(
                        index[0] as int,
                        index[1] as int,
                        old(self).0.spec_strides(),
                    ));
                }
            }
        }
    }

    /// The elements as one flat writable slice of the buffer, when they fill one unbroken run of
    /// it. Writes through the slice land in the matrix.
    pub fn as_slice_mut(&mut self) -> (r: Option<&mut [A::Element]>)
        requires
            old(self).wf(),
        ensures
            r is Some <==> packed(old(self).0.spec_shape(), old(self).0.spec_strides()),
            r is None ==> *final(self) == *old(self),
            final(self).same_layout(old(self)),
            r matches Some(s) ==> {
                &&& s@ == old(self).0.buffer().subrange(0, spec_area(old(self).0.spec_shape(), old(self).0.spec_strides()))
                &&& final(self).0.buffer() == final(s)@ + old(self).0.buffer().subrange(
                    spec_area(old(self).0.spec_shape(), old(self).0.spec_strides()),
                    old(self).0.buffer().len() as int,
                )
            },
    {
        if !self.is_contiguous() {
            return None;
        }
        let area = self.area();
        proof {
            self.0.lemma_inv();
            let shape = self.0.spec_shape();
            if shape.0 > 0 && shape.1 > 0 {
                self.lemma_offset(shape.0 - 1, shape.1 - 1);
            }
        }
        let (front, back) = self.0.as_buffer_mut().split_at_mut(area);
        Some(front)
    }

    /// Sets every element to `field([row, column])`, visiting the indices column after column.
    pub fn set_field<F: Fn([usize; 2]) -> A::Element>(&mut self, field: F)
        requires
            old(self).wf(),
            old(self).distinct(),
            forall|idx: [usize; 2]|
                old(self).in_bounds(idx[0] as int, idx[1] as int) ==> #[trigger] field.requires((idx,)),
        ensures
            final(self).wf(),
            final(self).same_layout(old(self)),
            forall|idx: [usize; 2]|
                final(self).in_bounds(idx[0] as int, idx[1] as int) ==> #[trigger] field.ensures(
                    (idx,),
                    final(self).elem(idx[0] as int, idx[1] as int),
                ),
    {
        let shape = self.shape();
        let mut j: usize = 0;
        while j < shape[1]
            invariant
                self.wf(),
                self.same_layout(old(self)),
                self.distinct(),
                shape[0] == self.nrows(),
                shape[1] == self.ncols(),
                j <= shape[1],
                forall|idx: [usize; 2]|
                    old(self).in_bounds(idx[0] as int, idx[1] as int) ==> #[trigger] field.requires((idx,)),
                forall|idx: [usize; 2]|
                    self.in_bounds(idx[0] as int, idx[1] as int) && idx[1] < j ==> #[trigger] field.ensures(
                        (idx,),
                        self.elem(idx[0] as int, idx[1] as int),
                    ),
            decreases shape[1] - j,
        {
            let mut i: usize = 0;
            while i < shape[0]
                invariant
                    self.wf(),
                    self.same_layout(old(self)),
                    self.distinct(),
                    shape[0] == self.nrows(),
                    shape[1] == self.ncols(),
                    j < shape[1],
                    i <= shape[0],
                    forall|idx: [usize; 2]|
                        old(self).in_bounds(idx[0] as int, idx[1] as int) ==> #[trigger] field.requires((idx,)),
                    forall|idx: [usize; 2]|
                        self.in_bounds(idx[0] as int, idx[1] as int) && (idx[1] < j || (idx[1] == j
                            && idx[0] < i)) ==> #[trigger] field.ensures(
                            (idx,),
                            self.elem(idx[0] as int, idx[1] as int),
                        ),
                decreases shape[0] - i,
            {
                let value = field([i, j]);
                let ghost prev = *self;
                self.set([i, j], value);
                proof {
                    assert forall|idx: [usize; 2]|
                        self.in_bounds(idx[0] as int, idx[1] as int) && (idx[1] < j || (idx[1] == j
                            && idx[0] <= i)) implies #[trigger] field.ensures(
                        (idx,),
                        self.elem(idx[0] as int, idx[1] as int),
                    ) by {
                        if idx[0] != i || idx[1] != j {
                            assert(self.elem(idx[0] as int, idx[1] as int) == prev.elem(
                                idx[0] as int,
                                idx[1] as int,
                            ));
                        } else {
                            assert(idx =~= [i, j]);
                        }
                    }
                }
                i = i + 1;
            }
            j = j + 1;
        }
    }
}

impl<A: ArrayMut> Matrix<A> {
    /// Sets every element to `value`, writing through the column-major writable traversal.
    pub fn set_full(&mut self, value: A::Element)
        requires
            old(self).wf(),
            old(self).distinct(),
        ensures
            final(self).wf(),
            final(self).same_layout(old(self)),
            forall|i: int, j: int| final(self).in_bounds(i, j) ==> #[trigger] final(self).elem(i, j) == value,
    {
        let mut it = self.iter_mut().index();
        let ghost fin = *final(it.matrix);
        loop
            invariant
                it.wf(),
                *final(it.matrix) == fin,
                it.matrix.same_layout(old(self)),
                forall|a: int, b: int| #[trigger]
                    it.matrix.in_bounds(a, b) && it.index.visited(a, b) ==> it.matrix.elem(a, b) == value,
            ensures
                it.index.position[1] == it.index.shape[1],
            decreases it.index.shape[0] * it.index.shape[1] - it.index.taken(),
        {
            proof {
                it.index.lemma_taken();
            }
            let ghost before = *it.matrix;
            let ghost ib = it.index;
            match it.next() {
                None => {
                    break;
                },
                Some(item) => {
                    let ghost idx = item.0;
                    *item.1 = value;
                    proof {
                        assert forall|a: int, b: int| #[trigger]
                            it.matrix.in_bounds(a, b) && it.index.visited(a, b) implies it.matrix.elem(a, b) == value by {
                            before.lemma_offset(a, b);
                            before.lemma_offset(idx[0] as int, idx[1] as int);
                            if a != idx[0] || b != idx[1] {
                                assert(offset_of(a, b, before.0.spec_strides()) != offset_of(
                                    idx[0] as int,
                                    idx[1] as int,
                                    before.0.spec_strides(),
                                ));
                                assert(ib.visited(a, b));
                                assert(before.in_bounds(a, b));
                                assert(before.elem(a, b) == value);
                            }
                        }
                    }
                },
            }
        }
        proof {
            it.index.lemma_taken();
            assert forall|i: int, j: int| #[trigger] it.matrix.in_bounds(i, j) implies it.matrix.elem(i, j) == value by {
                assert(it.index.visited(i, j));
            }
        }
    }

    /// Writes `values` into the matrix in column-major order: element `[i, j]` takes
    /// `values[j * rows + i]`. When `values` runs out, the remaining elements keep their values.
    pub fn set_iter(&mut self, values: &[A::Element])
        requires
            old(self).wf(),
            old(self).distinct(),
        ensures
            final(self).wf(),
            final(self).same_layout(old(self)),
            forall|i: int, j: int| final(self).in_bounds(i, j) ==> #[trigger] final(self).elem(i, j) == if j * final(self).nrows() + i
                    < values@.len() {
                    values@[j * final(self).nrows() + i]
                } else {
                    old(self).elem(i, j)
                },
    {
        proof {
            self.0.lemma_inv();
        }
        let shape = self.shape();
        let rows = shape[0];
        let mut k: usize = 0;
        let mut j: usize = 0;
        while j < shape[1]
            invariant
                self.wf(),
                self.same_layout(old(self)),
                self.distinct(),
                shape[0] == self.nrows(),
                shape[1] == self.ncols(),
                rows == shape[0],
                rows * shape[1] <= usize::MAX,
                j <= shape[1],
                k == j * rows,
                forall|a: int, b: int| self.in_bounds(a, b) ==> #[trigger] self.elem(a, b) == if b < j && b * rows + a < values@.len() {
                        values@[b * rows + a]
                    } else {
                        old(self).elem(a, b)
                    },
            decreases shape[1] - j,
        {
            let mut i: usize = 0;
            while i < rows
                invariant
                    self.wf(),
                    self.same_layout(old(self)),
                    self.distinct(),
                    shape[0] == self.nrows(),
                    shape[1] == self.ncols(),
                    rows == shape[0],
                    rows * shape[1] <= usize::MAX,
                    j < shape[1],
                    i <= rows,
                    k == j * rows + i,
                    forall|a: int, b: int| self.in_bounds(a, b) ==> #[trigger] self.elem(a, b) == if (b < j || (b == j && a < i)) && b
                            * rows + a < values@.len() {
                            values@[b * rows + a]
                        } else {
                            old(self).elem(a, b)
                        },
                decreases rows - i,
            {
                proof {
                    assert(j * rows + i < rows * shape[1]) by (nonlinear_arith)
                        requires
                            i < rows,
                            j < shape[1],
                    ;
                }
                let ghost prev = *self;
                if k < values.len() {
                    self.set([i, j], values[k]);
                }
                proof {
                    assert forall|a: int, b: int| #[trigger] self.in_bounds(a, b) implies self.elem(a, b)
                        == if (b < j || (b == j && a <= i)) && b * rows + a < values@.len() {
                        values@[b * rows + a]
                    } else {
                        old(self).elem(a, b)
                    } by {
                        if a != i || b != j {
                            assert(self.elem(a, b) == prev.elem(a, b));
                        }
                    }
                }
                i = i + 1;
                k = k + 1;
            }
            proof {
                assert((j + 1) * rows == j * rows + rows) by (nonlinear_arith);
            }
            j = j + 1;
        }
    }
}

impl<A: ArrayMut> Matrix<A> where A::Element: Scalar {
    /// Sets every element to zero.
    pub fn set_zero(&mut self)
        requires
            old(self).wf(),
            old(self).distinct(),
        ensures
            final(self).wf(),
            final(self).same_layout(old(self)),
            forall|i: int, j: int| final(self).in_bounds(i, j) ==> #[trigger] final(self).elem(i, j) == A::Element::spec_zero(),
    {
        let zero = A::Element::zero();
        self.set_full(zero);
    }

    /// Sets every element to one.
    pub fn set_one(&mut self)
        requires
            old(self).wf(),
            old(self).distinct(),
        ensures
            final(self).wf(),
            final(self).same_layout(old(self)),
            forall|i: int, j: int| final(self).in_bounds(i, j) ==> #[trigger] final(self).elem(i, j) == A::Element::spec_one(),
    {
        let one = A::Element::one();
        self.set_full(one);
    }

    /// Sets the diagonal to one and every other element to zero.
    pub fn set_identity(&mut self)
        requires
            old(self).wf(),
            old(self).distinct(),
        ensures
            final(self).wf(),
            final(self).same_layout(old(self)),
            forall|i: int, j: int| final(self).in_bounds(i, j) ==> #[trigger] final(self).elem(i, j) == identity_elem::<A::Element>(i, j),
    {
        let f = |idx: [usize; 2]| -> (r: A::Element)
            ensures
                r == identity_elem::<A::Element>(idx[0] as int, idx[1] as int),
            {
                if idx[0] == idx[1] {
                    A::Element::one()
                } else {
                    A::Element::zero()
                }
            };
        self.set_field(f);
        proof {
            assert forall|i: int, j: int| #[trigger] self.in_bounds(i, j) implies self.elem(i, j)
                == identity_elem::<A::Element>(i, j) by {
                let idx = [i as usize, j as usize];
                assert(f.ensures((idx,), self.elem(idx[0] as int, idx[1] as int)));
            }
        }
    }
}

impl<A: ArrayOwned> Matrix<A> {
    /// New matrix of the given shape, every element holding the element type's default.
    pub fn new(shape: [usize; 2]) -> (r: Self)
        requires
            A::R::admits(shape[0]),
            A::C::admits(shape[1]),
            shape[0] * shape[1] <= usize::MAX,
        ensures
            r.wf(),
            r.distinct(),
            r.nrows() == shape[0],
            r.ncols() == shape[1],
            forall|i: int, j: int| r.in_bounds(i, j) ==> A::empty_fill(#[trigger] r.elem(i, j)),
    {
        let r = A::R::check(shape[0]).unwrap();
        let c = A::C::check(shape[1]).unwrap();
        let m = Matrix(A::empty((r, c)));
        proof {
            assert forall|i: int, j: int| m.in_bounds(i, j) implies A::empty_fill(#[trigger] m.elem(i, j)) by {
                m.lemma_offset(i, j);
            }
        }
        m
    }
}

impl<A, R: Dim, C: Dim> Matrix<A> where A: Array<R = R, C = C> + Compatible<R, C> {
    /// Copy of this matrix into the owned storage designated for it.
    pub fn owned(&self) -> (r: Matrix<A::Owned>)
        requires
            self.wf(),
        ensures
            r.wf(),
            r.distinct(),
            r.same_elements(self),
    {
        proof {
            self.0.lemma_inv();
        }
        let mut new = Matrix::<A::Owned>::new(self.shape());
        let f = |idx: [usize; 2]| -> (r: A::Element)
            requires
                self.in_bounds(idx[0] as int, idx[1] as int),
            ensures
                r == self.elem(idx[0] as int, idx[1] as int),
            { *self.get(idx) };
        new.set_field(f);
        proof {
            assert forall|i: int, j: int| #[trigger] new.in_bounds(i, j) implies new.elem(i, j) == self.elem(i, j) by {
                let idx = [i as usize, j as usize];
                assert(f.ensures((idx,), new.elem(idx[0] as int, idx[1] as int)));
            }
        }
        new
    }
}

/// Why a conversion of a matrix into another storage failed.
pub enum CastError<E> {
    /// The destination cannot hold the source's number of columns.
    ColumnsMismatch,
    /// The destination cannot hold the source's number of rows.
    RowsMismatch,
    /// Converting one of the elements failed.
    Element(E),
}

impl<A: Array> Matrix<A> {
    /// New matrix whose element `[i, j]` is `f(&self[i, j])`.
    pub fn map<Dst, F>(&self, f: F) -> (r: Matrix<Dst>) where
        F: Fn(&A::Element) -> Dst::Element,
        Dst: ArrayOwned<R = A::R, C = A::C>,

        requires
            self.wf(),
            forall|i: int, j: int| #[trigger] self.in_bounds(i, j) ==> f.requires((&self.elem(i, j),)),
        ensures
            r.wf(),
            r.distinct(),
            r.nrows() == self.nrows(),
            r.ncols() == self.ncols(),
            forall|i: int, j: int| r.in_bounds(i, j) ==> f.ensures((&self.elem(i, j),), #[trigger] r.elem(i, j)),
    {
        proof {
            self.0.lemma_inv();
        }
        let mut dst = Matrix::<Dst>::new(self.shape());
        self.map_to(f, &mut dst);
        dst
    }

    /// Stores `f(&self[i, j])` into element `[i, j]` of `dst`, which has the same shape.
    pub fn map_to<Dst, F>(&self, f: F, dst: &mut Matrix<Dst>) where
        F: Fn(&A::Element) -> Dst::Element,
        Dst: ArrayMut<R = A::R, C = A::C>,

        requires
            self.wf(),
            old(dst).wf(),
            old(dst).distinct(),
            old(dst).nrows() == self.nrows(),
            old(dst).ncols() == self.ncols(),
            forall|i: int, j: int| #[trigger] self.in_bounds(i, j) ==> f.requires((&self.elem(i, j),)),
        ensures
            final(dst).wf(),
            final(dst).same_layout(old(dst)),
            forall|i: int, j: int|
                final(dst).in_bounds(i, j) ==> f.ensures((&self.elem(i, j),), #[trigger] final(dst).elem(i, j)),
    {
        let fr = &f;
        let g = |idx: [usize; 2]| -> (r: Dst::Element)
            requires
                self.in_bounds(idx[0] as int, idx[1] as int),
            ensures
                fr.ensures((&self.elem(idx[0] as int, idx[1] as int),), r),
            { fr(self.get(idx)) };
        dst.set_field(g);
        proof {
            assert forall|i: int, j: int| #[trigger] dst.in_bounds(i, j) implies f.ensures(
                (&self.elem(i, j),),
                dst.elem(i, j),
            ) by {
                let idx = [i as usize, j as usize];
                assert(g.ensures((idx,), dst.elem(idx[0] as int, idx[1] as int)));
            }
        }
    }
}

impl<A: Array> Matrix<A> {
    /// New matrix whose element `[i, j]` is the `Ok` value of `f(&self[i, j])`. Fails, before any
    /// element is converted, with `RowsMismatch` or `ColumnsMismatch` when `Dst`'s axis kinds cannot
    /// hold this matrix's shape; fails with `Element` at the first element, in column-major order,
    /// for which `f` fails.
    pub fn try_map<Dst, E, F>(&self, f: F) -> (r: Result<Matrix<Dst>, CastError<E>>) where
        F: Fn(&A::Element) -> Result<Dst::Element, E>,
        Dst: ArrayOwned,

        requires
            self.wf(),
            forall|i: int, j: int| #[trigger] self.in_bounds(i, j) ==> f.requires((&self.elem(i, j),)),
        ensures
            r matches Err(CastError::RowsMismatch) <==> !Dst::R::admits(self.nrows()),
            r matches Err(CastError::ColumnsMismatch) <==> Dst::R::admits(self.nrows()) && !Dst::C::admits(
                self.ncols(),
            ),
            r matches Ok(m) ==> {
                &&& m.wf()
                &&& m.distinct()
                &&& m.nrows() == self.nrows()
                &&& m.ncols() == self.ncols()
                &&& forall|i: int, j: int|
                    m.in_bounds(i, j) ==> f.ensures((&self.elem(i, j),), Ok(#[trigger] m.elem(i, j)))
            },
            r matches Err(CastError::Element(e)) ==> exists|i: int, j: int|
                self.in_bounds(i, j) && f.ensures((&#[trigger] self.elem(i, j),), Err(e)) && (forall|a: int, b: int|
                    #![trigger self.elem(a, b)]
                    self.in_bounds(a, b) && (b < j || (b == j && a < i)) ==> f.ensures(
                        (&self.elem(a, b),),
                        Ok(choose|v: Dst::Element| f.ensures((&self.elem(a, b),), Ok(v))),
                    )),
    {
        proof {
            self.0.lemma_inv();
        }
        let shape = self.shape();
        let rows = match Dst::R::check(shape[0]) {
            None => {
                return Err(CastError::RowsMismatch);
            },
            Some(d) => d,
        };
        let cols = match Dst::C::check(shape[1]) {
            None => {
                return Err(CastError::ColumnsMismatch);
            },
            Some(d) => d,
        };
        let mut dst = Matrix(Dst::empty((rows, cols)));
        let mut j: usize = 0;
        while j < shape[1]
            invariant
                self.wf(),
                dst.wf(),
                dst.distinct(),
                dst.nrows() == shape[0] == self.nrows(),
                dst.ncols() == shape[1] == self.ncols(),
                Dst::R::admits(self.nrows()),
                Dst::C::admits(self.ncols()),
                j <= shape[1],
                forall|i: int, j: int| #[trigger] self.in_bounds(i, j) ==> f.requires((&self.elem(i, j),)),
                forall|a: int, b: int| #[trigger]
                    dst.in_bounds(a, b) && b < j ==> f.ensures((&self.elem(a, b),), Ok(dst.elem(a, b))),
            decreases shape[1] - j,
        {
            let mut i: usize = 0;
            while i < shape[0]
                invariant
                    self.wf(),
                    dst.wf(),
                    dst.distinct(),
                    dst.nrows() == shape[0] == self.nrows(),
                    dst.ncols() == shape[1] == self.ncols(),
                    Dst::R::admits(self.nrows()),
                    Dst::C::admits(self.ncols()),
                    j < shape[1],
                    i <= shape[0],
                    forall|i: int, j: int| #[trigger] self.in_bounds(i, j) ==> f.requires((&self.elem(i, j),)),
                    forall|a: int, b: int| #[trigger]
                        dst.in_bounds(a, b) && (b < j || (b == j && a < i)) ==> f.ensures(
                            (&self.elem(a, b),),
                            Ok(dst.elem(a, b)),
                        ),
                decreases shape[0] - i,
            {
                proof {
                    assert(self.in_bounds(i as int, j as int));
                }
                let x = self.get([i, j]);
                let res = f(x);
                proof {
                    assert(x == &self.elem(i as int, j as int));
                    assert(f.ensures((&self.elem(i as int, j as int),), res));
                }
                match res {
                    Ok(v) => {
                        let ghost prev = dst;
                        dst.set([i, j], v);
                        proof {
                            assert forall|a: int, b: int| #[trigger]
                                dst.in_bounds(a, b) && (b < j || (b == j && a <= i)) implies f.ensures(
                                (&self.elem(a, b),),
                                Ok(dst.elem(a, b)),
                            ) by {
                                if a != i || b != j {
                                    assert(prev.in_bounds(a, b));
                                    assert(dst.elem(a, b) == prev.elem(a, b));
                                } else {
                                    assert(dst.elem(i as int, j as int) == v);
                                    assert(res == Ok::<Dst::Element, E>(v));
                                }
                            }
                        }
                    },
                    Err(e) => {
                        proof {
                            assert forall|a: int, b: int|
                                #![trigger self.elem(a, b)]
                                self.in_bounds(a, b) && (b < j || (b == j && a < i)) implies f.ensures(
                                (&self.elem(a, b),),
                                Ok(choose|v: Dst::Element| f.ensures((&self.elem(a, b),), Ok(v))),
                            ) by {
                                assert(dst.in_bounds(a, b));
                                assert(f.ensures((&self.elem(a, b),), Ok(dst.elem(a, b))));
                            }
                            assert(self.in_bounds(i as int, j as int));
                        }
                        return Err(CastError::Element(e));
                    },
                }
                i = i + 1;
            }
            j = j + 1;
        }
        Ok(dst)
    }

    /// Stores the `Ok` value of `f(&self[i, j])` into element `[i, j]` of `dst`, whose shape must be
    /// at least this matrix's; the other elements of `dst` keep their values. Fails, before any
    /// write, with `RowsMismatch` or `ColumnsMismatch` when `dst` has fewer rows or columns; fails
    /// with `Element` at the first element, in column-major order, for which `f` fails.
    pub fn try_map_to<Dst, E, F>(&self, f: F, dst: &mut Matrix<Dst>) -> (r: Result<(), CastError<E>>) where
        F: Fn(&A::Element) -> Result<Dst::Element, E>,
        Dst: ArrayMut,

        requires
            self.wf(),
            old(dst).wf(),
            old(dst).distinct(),
            forall|i: int, j: int| #[trigger] self.in_bounds(i, j) ==> f.requires((&self.elem(i, j),)),
        ensures
            final(dst).wf(),
            final(dst).same_layout(old(dst)),
            r matches Err(CastError::RowsMismatch) <==> self.nrows() > old(dst).nrows(),
            r matches Err(CastError::ColumnsMismatch) <==> self.nrows() <= old(dst).nrows() && self.ncols()
                > old(dst).ncols(),
            (r matches Err(CastError::RowsMismatch)) || (r matches Err(CastError::ColumnsMismatch))
                ==> *final(dst) == *old(dst),
            r is Ok ==> forall|i: int, j: int|
                final(dst).in_bounds(i, j) ==> if self.in_bounds(i, j) {
                    f.ensures((&self.elem(i, j),), Ok(#[trigger] final(dst).elem(i, j)))
                } else {
                    final(dst).elem(i, j) == old(dst).elem(i, j)
                },
            r matches Err(CastError::Element(e)) ==> exists|i: int, j: int|
                self.in_bounds(i, j) && f.ensures((&#[trigger] self.elem(i, j),), Err(e)) && (forall|a: int, b: int|
                    #![trigger self.elem(a, b)]
                    self.in_bounds(a, b) && (b < j || (b == j && a < i)) ==> f.ensures(
                        (&self.elem(a, b),),
                        Ok(choose|v: Dst::Element| f.ensures((&self.elem(a, b),), Ok(v))),
                    )),
    {
        let shape = self.shape();
        if shape[0] > dst.rows() {
            return Err(CastError::RowsMismatch);
        }
        if shape[1] > dst.columns() {
            return Err(CastError::ColumnsMismatch);
        }
        let mut j: usize = 0;
        while j < shape[1]
            invariant
                self.wf(),
                dst.wf(),
                dst.distinct(),
                dst.same_layout(old(dst)),
                shape[0] == self.nrows() <= dst.nrows(),
                shape[1] == self.ncols() <= dst.ncols(),
                j <= shape[1],
                forall|i: int, j: int| #[trigger] self.in_bounds(i, j) ==> f.requires((&self.elem(i, j),)),
                forall|a: int, b: int| #[trigger]
                    dst.in_bounds(a, b) ==> if self.in_bounds(a, b) && b < j {
                        f.ensures((&self.elem(a, b),), Ok(dst.elem(a, b)))
                    } else {
                        dst.elem(a, b) == old(dst).elem(a, b)
                    },
            decreases shape[1] - j,
        {
            let mut i: usize = 0;
            while i < shape[0]
                invariant
                    self.wf(),
                    dst.wf(),
                    dst.distinct(),
                    dst.same_layout(old(dst)),
                    shape[0] == self.nrows() <= dst.nrows(),
                    shape[1] == self.ncols() <= dst.ncols(),
                    j < shape[1],
                    i <= shape[0],
                    forall|i: int, j: int| #[trigger] self.in_bounds(i, j) ==> f.requires((&self.elem(i, j),)),
                    forall|a: int, b: int| #[trigger]
                        dst.in_bounds(a, b) ==> if self.in_bounds(a, b) && (b < j || (b == j && a < i)) {
                            f.ensures((&self.elem(a, b),), Ok(dst.elem(a, b)))
                        } else {
                            dst.elem(a, b) == old(dst).elem(a, b)
                        },
                decreases shape[0] - i,
            {
                proof {
                    assert(self.in_bounds(i as int, j as int));
                }
                let x = self.get([i, j]);
                let res = f(x);
                proof {
                    assert(x == &self.elem(i as int, j as int));
                    assert(f.ensures((&self.elem(i as int, j as int),), res));
                }
                match res {
                    Ok(v) => {
                        let ghost prev = *dst;
                        dst.set([i, j], v);
                        proof {
                            assert forall|a: int, b: int| #[trigger] dst.in_bounds(a, b) implies if self.in_bounds(a, b)
                                && (b < j || (b == j && a <= i)) {
                                f.ensures((&self.elem(a, b),), Ok(dst.elem(a, b)))
                            } else {
                                dst.elem(a, b) == old(dst).elem(a, b)
                            } by {
                                if a != i || b != j {
                                    assert(prev.in_bounds(a, b));
                                    assert(dst.elem(a, b) == prev.elem(a, b));
                                } else {
                                    assert(dst.elem(i as int, j as int) == v);
                                    assert(res == Ok::<Dst::Element, E>(v));
                                }
                            }
                        }
                    },
                    Err(e) => {
                        proof {
                            assert forall|a: int, b: int|
                                #![trigger self.elem(a, b)]
                                self.in_bounds(a, b) && (b < j || (b == j && a < i)) implies f.ensures(
                                (&self.elem(a, b),),
                                Ok(choose|v: Dst::Element| f.ensures((&self.elem(a, b),), Ok(v))),
                            ) by {
                                assert(dst.in_bounds(a, b));
                                assert(f.ensures((&self.elem(a, b),), Ok(dst.elem(a, b))));
                            }
                            assert(self.in_bounds(i as int, j as int));
                        }
                        return Err(CastError::Element(e));
                    },
                }
                i = i + 1;
            }
            j = j + 1;
        }
        Ok(())
    }
}

/// `r` is a result that converting `x` with `TryInto` can give.
pub open spec fn converted<T: TryInto<U>, U>(x: T, r: Result<U, <T as TryInto<U>>::Error>) -> bool {
    call_ensures(<T as TryInto<U>>::try_into, (x,), r)
}

impl<A: Array> Matrix<A> {
    /// Converts every element with `TryInto` into a new matrix of storage `Dst`, with the
    /// failures of [`Matrix::try_map`].
    pub fn cast<Dst>(&self) -> (r: Result<Matrix<Dst>, CastError<<A::Element as TryInto<Dst::Element>>::Error>>) where
        A::Element: TryInto<Dst::Element>,
        Dst: ArrayOwned,

        requires
            self.wf(),
        ensures
            r matches Err(CastError::RowsMismatch) <==> !Dst::R::admits(self.nrows()),
            r matches Err(CastError::ColumnsMismatch) <==> Dst::R::admits(self.nrows()) && !Dst::C::admits(
                self.ncols(),
            ),
            r matches Ok(m) ==> {
                &&& m.wf()
                &&& m.distinct()
                &&& m.nrows() == self.nrows()
                &&& m.ncols() == self.ncols()
                &&& forall|i: int, j: int| m.in_bounds(i, j) ==> converted(self.elem(i, j), Ok(#[trigger] m.elem(i, j)))
            },
            r matches Err(CastError::Element(e)) ==> exists|i: int, j: int|
                self.in_bounds(i, j) && converted(#[trigger] self.elem(i, j), Err(e)) && (forall|a: int, b: int|
                    #![trigger self.elem(a, b)]
                    self.in_bounds(a, b) && (b < j || (b == j && a < i)) ==> converted(
                        self.elem(a, b),
                        Ok(choose|v: Dst::Element| converted(self.elem(a, b), Ok(v))),
                    )),
    {
        let f = |x: &A::Element| -> (r: Result<Dst::Element, <A::Element as TryInto<Dst::Element>>::Error>)
            ensures
                converted(*x, r),
            { (*x).try_into() };
        let r = self.try_map(f);
        proof {
            if let Err(CastError::Element(e)) = &r {
                assert forall|i: int, j: int|
                    self.in_bounds(i, j) && f.ensures((&#[trigger] self.elem(i, j),), Err(*e)) && (forall|a: int, b: int|
                        #![trigger self.elem(a, b)]
                        self.in_bounds(a, b) && (b < j || (b == j && a < i)) ==> f.ensures(
                            (&self.elem(a, b),),
                            Ok(choose|v: Dst::Element| f.ensures((&self.elem(a, b),), Ok(v))),
                        )) implies converted(self.elem(i, j), Err(*e)) && (forall|a: int, b: int|
                    #![trigger self.elem(a, b)]
                    self.in_bounds(a, b) && (b < j || (b == j && a < i)) ==> converted(
                        self.elem(a, b),
                        Ok(choose|v: Dst::Element| converted(self.elem(a, b), Ok(v))),
                    )) by {
                    assert forall|a: int, b: int|
                        #![trigger self.elem(a, b)]
                        self.in_bounds(a, b) && (b < j || (b == j && a < i)) implies converted(
                        self.elem(a, b),
                        Ok(choose|v: Dst::Element| converted(self.elem(a, b), Ok(v))),
                    ) by {
                        let w = choose|v: Dst::Element| f.ensures((&self.elem(a, b),), Ok(v));
                        assert(f.ensures((&self.elem(a, b),), Ok(w)));
                        assert(converted(self.elem(a, b), Ok(w)));
                    }
                }
            }
        }
        r
    }

    /// Converts every element with `TryInto` into the top-left block of `dst`, with the failures of
    /// [`Matrix::try_map_to`].
    pub fn cast_to<Dst>(&self, dst: &mut Matrix<Dst>) -> (r: Result<(), CastError<<A::Element as TryInto<Dst::Element>>::Error>>) where
        A::Element: TryInto<Dst::Element>,
        Dst: ArrayMut,

        requires
            self.wf(),
            old(dst).wf(),
            old(dst).distinct(),
        ensures
            final(dst).wf(),
            final(dst).same_layout(old(dst)),
            r matches Err(CastError::RowsMismatch) <==> self.nrows() > old(dst).nrows(),
            r matches Err(CastError::ColumnsMismatch) <==> self.nrows() <= old(dst).nrows() && self.ncols()
                > old(dst).ncols(),
            (r matches Err(CastError::RowsMismatch)) || (r matches Err(CastError::ColumnsMismatch))
                ==> *final(dst) == *old(dst),
            r is Ok ==> forall|i: int, j: int|
                final(dst).in_bounds(i, j) ==> if self.in_bounds(i, j) {
                    converted(self.elem(i, j), Ok(#[trigger] final(dst).elem(i, j)))
                } else {
                    final(dst).elem(i, j) == old(dst).elem(i, j)
                },
            r matches Err(CastError::Element(e)) ==> exists|i: int, j: int|
                self.in_bounds(i, j) && converted(#[trigger] self.elem(i, j), Err(e)) && (forall|a: int, b: int|
                    #![trigger self.elem(a, b)]
                    self.in_bounds(a, b) && (b < j || (b == j && a < i)) ==> converted(
                        self.elem(a, b),
                        Ok(choose|v: Dst::Element| converted(self.elem(a, b), Ok(v))),
                    )),
    {
        let f = |x: &A::Element| -> (r: Result<Dst::Element, <A::Element as TryInto<Dst::Element>>::Error>)
            ensures
                converted(*x, r),
            { (*x).try_into() };
        let r = self.try_map_to(f, dst);
        proof {
            if let Err(CastError::Element(e)) = &r {
                assert forall|i: int, j: int|
                    self.in_bounds(i, j) && f.ensures((&#[trigger] self.elem(i, j),), Err(*e)) && (forall|a: int, b: int|
                        #![trigger self.elem(a, b)]
                        self.in_bounds(a, b) && (b < j || (b == j && a < i)) ==> f.ensures(
                            (&self.elem(a, b),),
                            Ok(choose|v: Dst::Element| f.ensures((&self.elem(a, b),), Ok(v))),
                        )) implies converted(self.elem(i, j), Err(*e)) && (forall|a: int, b: int|
                    #![trigger self.elem(a, b)]
                    self.in_bounds(a, b) && (b < j || (b == j && a < i)) ==> converted(
                        self.elem(a, b),
                        Ok(choose|v: Dst::Element| converted(self.elem(a, b), Ok(v))),
                    )) by {
                    assert forall|a: int, b: int|
                        #![trigger self.elem(a, b)]
                        self.in_bounds(a, b) && (b < j || (b == j && a < i)) implies converted(
                        self.elem(a, b),
                        Ok(choose|v: Dst::Element| converted(self.elem(a, b), Ok(v))),
                    ) by {
                        let w = choose|v: Dst::Element| f.ensures((&self.elem(a, b),), Ok(v));
                        assert(f.ensures((&self.elem(a, b),), Ok(w)));
                        assert(converted(self.elem(a, b), Ok(w)));
                    }
                }
            }
        }
        r
    }
}

} // verus!
