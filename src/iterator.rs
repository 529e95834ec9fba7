//! Column-major traversal of a matrix's indices and elements, read-only and writable.
use vstd::prelude::*;

use crate::matrix::{offset_of, Array, ArrayMut, Matrix};

verus! {

/// Generator of the indices of a matrix in column-major order: `[0, 0], [1, 0], ...`.
pub struct IndexIter {
    pub shape: [usize; 2],
    pub position: [usize; 2],
}

impl IndexIter {
    /// The position is the next index to hand out, or `[0, shape[1]]` once all are out.
    pub open spec fn wf(&self) -> bool {
        &&& self.shape[0] * self.shape[1] <= usize::MAX
        &&& self.position[1] <= self.shape[1]
        &&& self.position[1] < self.shape[1] ==> self.position[0] < self.shape[0]
        &&& self.position[1] == self.shape[1] ==> self.position[0] == 0
    }

    /// `[i, j]` has already been handed out.
    pub open spec fn visited(&self, i: int, j: int) -> bool {
        &&& 0 <= i < self.shape[0]
        &&& 0 <= j
        &&& j < self.position[1] || (j == self.position[1] && i < self.position[0])
    }

    /// How many indices have been handed out.
    pub open spec fn taken(&self) -> int {
        self.position[1] * self.shape[0] + self.position[0]
    }

    /// Fewer indices than the shape holds have been handed out while some remain, all of them
    /// at the end.
    pub proof fn lemma_taken(&self)
        requires
            self.wf(),
        ensures
            0 <= self.taken() <= self.shape[0] * self.shape[1],
            self.position[1] < self.shape[1] ==> self.taken() < self.shape[0] * self.shape[1],
            self.position[1] == self.shape[1] ==> forall|i: int, j: int|
                0 <= i < self.shape[0] && 0 <= j < self.shape[1] ==> #[trigger] self.visited(i, j),
    {
        if self.position[1] < self.shape[1] {
            assert(self.position[1] * self.shape[0] + self.position[0] < self.shape[0] * self.shape[1]) by (nonlinear_arith)
                requires
                    self.position[1] < self.shape[1],
                    self.position[0] < self.shape[0],
            ;
        } else {
            assert(self.position[1] * self.shape[0] == self.shape[0] * self.shape[1]) by (nonlinear_arith)
                requires
                    self.position[1] == self.shape[1],
            ;
        }
    }

    /// Generator of the indices of a `shape[0]` x `shape[1]` matrix.
    pub fn new(shape: [usize; 2]) -> (r: Self)
        requires
            shape[0] * shape[1] <= usize::MAX,
        ensures
            r.wf(),
            r.shape == shape,
            r.taken() == 0,
            forall|i: int, j: int| !#[trigger] r.visited(i, j),
    {
        if shape[0] == 0 {
            IndexIter { shape, position: [0, shape[1]] }
        } else {
            IndexIter { shape, position: [0, 0] }
        }
    }

    /// The next index in column-major order, or `None` once every index has been handed out.
    pub fn next(&mut self) -> (r: Option<[usize; 2]>)
        requires
            old(self).wf(),
        ensures
            final(self).wf(),
            final(self).shape == old(self).shape,
            old(self).position[1] == old(self).shape[1] ==> r is None && *final(self) == *old(self),
            old(self).position[1] < old(self).shape[1] ==> r == Some(old(self).position) && final(self).taken()
                == old(self).taken() + 1,
            r matches Some(idx) ==> idx[0] < old(self).shape[0] && idx[1] < old(self).shape[1]
                && !old(self).visited(idx[0] as int, idx[1] as int),
            r matches Some(idx) ==> forall|i: int, j: int| #[trigger]
                final(self).visited(i, j) == (old(self).visited(i, j) || (i == idx[0] && j == idx[1])),
    {
        if self.position[1] >= self.shape[1] {
            return None;
        }
        let position = self.position;
        proof {
            assert(self.position[1] * self.shape[0] + self.position[0] < self.shape[0] * self.shape[1]) by (nonlinear_arith)
                requires
                    self.position[1] < self.shape[1],
                    self.position[0] < self.shape[0],
            ;
        }
        if self.position[0] + 1 >= self.shape[0] {
            self.position = [0, self.position[1] + 1];
        } else {
            self.position = [self.position[0] + 1, self.position[1]];
        }
        proof {
            let p1 = position[1] as int;
            let s0 = self.shape[0] as int;
            assert((p1 + 1) * s0 == p1 * s0 + s0) by (nonlinear_arith);
        }
        Some(position)
    }

    /// How many indices are still to come.
    pub fn len(&self) -> (r: usize)
        requires
            self.wf(),
        ensures
            r == self.shape[0] * self.shape[1] - self.taken(),
    {
        proof {
            if self.position[1] < self.shape[1] {
                assert(self.position[1] * self.shape[0] + self.position[0] < self.shape[0] * self.shape[1]) by (nonlinear_arith)
                    requires
                        self.position[1] < self.shape[1],
                        self.position[0] < self.shape[0],
                ;
            } else {
                assert(self.position[1] * self.shape[0] == self.shape[0] * self.shape[1]) by (nonlinear_arith)
                    requires
                        self.position[1] == self.shape[1],
                ;
            }
        }
        self.shape[0] * self.shape[1] - (self.position[1] * self.shape[0] + self.position[0])
    }
}

/// Column-major traversal of a matrix's elements with their indices, read-only.
pub struct IndexedIter<'t, A: Array> {
    pub matrix: &'t Matrix<A>,
    pub index: IndexIter,
}

impl<'t, A: Array> IndexedIter<'t, A> {
    /// The index generator walks the shape of a well-formed matrix.
    pub open spec fn wf(&self) -> bool {
        &&& self.matrix.wf()
        &&& self.index.wf()
        &&& self.index.shape[0] == self.matrix.nrows()
        &&& self.index.shape[1] == self.matrix.ncols()
    }

    /// The next index in column-major order with its element, or `None` at the end.
    pub fn next(&mut self) -> (r: Option<([usize; 2], &'t A::Element)>)
        requires
            old(self).wf(),
        ensures
            final(self).wf(),
            final(self).matrix == old(self).matrix,
            final(self).index.shape == old(self).index.shape,
            r is None <==> old(self).index.position[1] == old(self).index.shape[1],
            r is None ==> *final(self) == *old(self),
            r matches Some(item) ==> {
                &&& item.0 == old(self).index.position
                &&& *item.1 == old(self).matrix.elem(item.0[0] as int, item.0[1] as int)
                &&& final(self).index.taken() == old(self).index.taken() + 1
                &&& forall|i: int, j: int| #[trigger]
                    final(self).index.visited(i, j) == (old(self).index.visited(i, j) || (i == item.0[0] && j
                        == item.0[1]))
            },
    {
        match self.index.next() {
            None => None,
            Some(idx) => Some((idx, self.matrix.get(idx))),
        }
    }

    /// How many elements are still to come.
    pub fn len(&self) -> (r: usize)
        requires
            self.wf(),
        ensures
            r == self.index.shape[0] * self.index.shape[1] - self.index.taken(),
    {
        self.index.len()
    }

    /// The same traversal, handing out the elements alone.
    pub fn values(self) -> (r: MatrixIter<'t, A>)
        ensures
            r.0 == self,
    {
        MatrixIter(self)
    }
}

/// Column-major traversal of a matrix's elements, read-only.
pub struct MatrixIter<'t, A: Array>(pub IndexedIter<'t, A>);

impl<'t, A: Array> MatrixIter<'t, A> {
    /// The next element in column-major order, or `None` at the end.
    pub fn next(&mut self) -> (r: Option<&'t A::Element>)
        requires
            old(self).0.wf(),
        ensures
            final(self).0.wf(),
            final(self).0.matrix == old(self).0.matrix,
            final(self).0.index.shape == old(self).0.index.shape,
            r is None <==> old(self).0.index.position[1] == old(self).0.index.shape[1],
            r is None ==> *final(self) == *old(self),
            r matches Some(e) ==> {
                &&& *e == old(self).0.matrix.elem(
                    old(self).0.index.position[0] as int,
                    old(self).0.index.position[1] as int,
                )
                &&& final(self).0.index.taken() == old(self).0.index.taken() + 1
                &&& forall|i: int, j: int| #[trigger]
                    final(self).0.index.visited(i, j) == (old(self).0.index.visited(i, j) || (i
                        == old(self).0.index.position[0] && j == old(self).0.index.position[1]))
            },
    {
        match self.0.next() {
            None => None,
            Some(item) => Some(item.1),
        }
    }

    /// How many elements are still to come.
    pub fn len(&self) -> (r: usize)
        requires
            self.0.wf(),
        ensures
            r == self.0.index.shape[0] * self.0.index.shape[1] - self.0.index.taken(),
    {
        self.0.len()
    }

    /// The same traversal, handing out each element with its index.
    pub fn index(self) -> (r: IndexedIter<'t, A>)
        ensures
            r == self.0,
    {
        self.0
    }
}

impl<A: Array> Matrix<A> {
    /// Generator of this matrix's indices in column-major order.
    pub fn index(&self) -> (r: IndexIter)
        requires
            self.wf(),
        ensures
            r.wf(),
            r.shape[0] == self.nrows(),
            r.shape[1] == self.ncols(),
            r.taken() == 0,
            forall|i: int, j: int| !#[trigger] r.visited(i, j),
    {
        proof {
            self.0.lemma_inv();
        }
        IndexIter::new(self.shape())
    }

    /// Column-major traversal of this matrix's elements.
    pub fn iter(&self) -> (r: MatrixIter<'_, A>)
        requires
            self.wf(),
        ensures
            r.0.wf(),
            r.0.matrix == self,
            r.0.index.taken() == 0,
            forall|i: int, j: int| !#[trigger] r.0.index.visited(i, j),
    {
        MatrixIter(IndexedIter { index: self.index(), matrix: self })
    }
}

/// Column-major traversal of a matrix's elements with their indices, handing out each element
/// for writing exactly once.
pub struct IndexedIterMut<'t, A: ArrayMut> {
    pub matrix: &'t mut Matrix<A>,
    pub index: IndexIter,
}

impl<'t, A: ArrayMut> IndexedIterMut<'t, A> {
    /// The index generator walks the shape of a well-formed matrix whose elements have
    /// distinct slots.
    pub open spec fn wf(&self) -> bool {
        &&& self.matrix.wf()
        &&& self.matrix.distinct()
        &&& self.index.wf()
        &&& self.index.shape[0] == self.matrix.nrows()
        &&& self.index.shape[1] == self.matrix.ncols()
    }

    /// The next index in column-major order with writable access to its element, or `None` at
    /// the end. Whatever is written through the element lands in the matrix at that index.
    pub fn next(&mut self) -> (r: Option<([usize; 2], &mut A::Element)>)
        requires
            old(self).wf(),
        ensures
            final(self).wf(),
            final(self).matrix.same_layout(old(self).matrix),
            *final(final(self).matrix) == *final(old(self).matrix),
            final(self).index.shape == old(self).index.shape,
            r is None <==> old(self).index.position[1] == old(self).index.shape[1],
            r is None ==> *final(self).matrix == *old(self).matrix && final(self).index == old(self).index,
            r matches Some(item) ==> {
                &&& item.0 == old(self).index.position
                &&& old(self).matrix.in_bounds(item.0[0] as int, item.0[1] as int)
                &&& !old(self).index.visited(item.0[0] as int, item.0[1] as int)
                &&& *item.1 == old(self).matrix.elem(item.0[0] as int, item.0[1] as int)
                &&& final(self).matrix.0.buffer() == old(self).matrix.0.buffer().update(
                    offset_of(item.0[0] as int, item.0[1] as int, old(self).matrix.0.spec_strides()),
                    *final(item.1),
                )
                &&& final(self).index.taken() == old(self).index.taken() + 1
                &&& forall|i: int, j: int| #[trigger]
                    final(self).index.visited(i, j) == (old(self).index.visited(i, j) || (i == item.0[0] && j
                        == item.0[1]))
            },
    {
        match self.index.next() {
            None => None,
            Some(idx) => {
                let k = self.matrix.offset(idx);
                Some((idx, self.matrix.0.at_mut(k)))
            },
        }
    }

    /// How many elements are still to come.
    pub fn len(&self) -> (r: usize)
        requires
            self.wf(),
        ensures
            r == self.index.shape[0] * self.index.shape[1] - self.index.taken(),
    {
        self.index.len()
    }

    /// The same traversal, handing out the elements alone.
    pub fn values(self) -> (r: MatrixIterMut<'t, A>)
        ensures
            r.0 == self,
    {
        MatrixIterMut(self)
    }
}

/// Column-major traversal of a matrix's elements, handing out each for writing exactly once.
pub struct MatrixIterMut<'t, A: ArrayMut>(pub IndexedIterMut<'t, A>);

impl<'t, A: ArrayMut> MatrixIterMut<'t, A> {
    /// The next element in column-major order for writing, or `None` at the end. Whatever is
    /// written through it lands in the matrix.
    pub fn next(&mut self) -> (r: Option<&mut A::Element>)
        requires
            old(self).0.wf(),
        ensures
            final(self).0.wf(),
            final(self).0.matrix.same_layout(old(self).0.matrix),
            *final(final(self).0.matrix) == *final(old(self).0.matrix),
            final(self).0.index.shape == old(self).0.index.shape,
            r is None <==> old(self).0.index.position[1] == old(self).0.index.shape[1],
            r is None ==> *final(self).0.matrix == *old(self).0.matrix && final(self).0.index == old(self).0.index,
            r matches Some(e) ==> {
                &&& *e == old(self).0.matrix.elem(
                    old(self).0.index.position[0] as int,
                    old(self).0.index.position[1] as int,
                )
                &&& final(self).0.matrix.0.buffer() == old(self).0.matrix.0.buffer().update(
                    offset_of(
                        old(self).0.index.position[0] as int,
                        old(self).0.index.position[1] as int,
                        old(self).0.matrix.0.spec_strides(),
                    ),
                    *final(e),
                )
                &&& final(self).0.index.taken() == old(self).0.index.taken() + 1
                &&& forall|i: int, j: int| #[trigger]
                    final(self).0.index.visited(i, j) == (old(self).0.index.visited(i, j) || (i
                        == old(self).0.index.position[0] && j == old(self).0.index.position[1]))
            },
    {
        match self.0.next() {
            None => None,
            Some(item) => Some(item.1),
        }
    }

    /// How many elements are still to come.
    pub fn len(&self) -> (r: usize)
        requires
            self.0.wf(),
        ensures
            r == self.0.index.shape[0] * self.0.index.shape[1] - self.0.index.taken(),
    {
        self.0.len()
    }

    /// The same traversal, handing out each element with its index.
    pub fn index(self) -> (r: IndexedIterMut<'t, A>)
        ensures
            r == self.0,
    {
        self.0
    }
}

impl<A: ArrayMut> Matrix<A> {
    /// Column-major traversal handing out each element of this matrix for writing.
    pub fn iter_mut(&mut self) -> (r: MatrixIterMut<'_, A>)
        requires
            old(self).wf(),
            old(self).distinct(),
        ensures
            r.0.wf(),
            *r.0.matrix == *old(self),
            *final(r.0.matrix) == *final(self),
            r.0.index.taken() == 0,
            forall|i: int, j: int| !#[trigger] r.0.index.visited(i, j),
    {
        let index = self.index();
        MatrixIterMut(IndexedIterMut { index, matrix: self })
    }
}

} // verus!
