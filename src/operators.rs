//! Elementwise, scalar and matrix-product arithmetic.
use vstd::prelude::*;

use crate::matrix::{identity_elem, Array, ArrayMut, Compatible, Matrix};
use crate::prelude::{Dim, Scalar};

verus! {

/// One of the four arithmetic operations of a [`Scalar`].
#[derive(Clone, Copy, PartialEq, Eq, Structural)]
pub enum BinOp {
    Add,
    Sub,
    Mul,
    Div,
}

/// Whether `op` is defined on `a` and `b` (no overflow, no division by zero).
pub open spec fn op_defined<T: Scalar>(op: BinOp, a: T, b: T) -> bool {
    match op {
        BinOp::Add => T::add_defined(a, b),
        BinOp::Sub => T::sub_defined(a, b),
        BinOp::Mul => T::mul_defined(a, b),
        BinOp::Div => T::div_defined(a, b),
    }
}

/// The value of `a op b`.
pub open spec fn op_spec<T: Scalar>(op: BinOp, a: T, b: T) -> T {
    match op {
        BinOp::Add => T::spec_add(a, b),
        BinOp::Sub => T::spec_sub(a, b),
        BinOp::Mul => T::spec_mul(a, b),
        BinOp::Div => T::spec_div(a, b),
    }
}

/// Computes `a op b`.
pub fn apply<T: Scalar>(op: BinOp, a: T, b: T) -> (r: T)
    requires
        op_defined(op, a, b),
    ensures
        r == op_spec(op, a, b),
{
    match op {
        BinOp::Add => a.add(b),
        BinOp::Sub => a.sub(b),
        BinOp::Mul => a.mul(b),
        BinOp::Div => a.div(b),
    }
}

/// `sum_{d < n} a[i, d] * b[d, j]`, accumulated from zero in increasing `d`.
pub open spec fn dot<A: Array, B: Array<Element = A::Element>>(a: &Matrix<A>, b: &Matrix<B>, i: int, j: int, n: int) -> A::Element
    where A::Element: Scalar
    decreases n,
{
    if n <= 0 {
        A::Element::spec_zero()
    } else {
        A::Element::spec_add(dot(a, b, i, j, n - 1), A::Element::spec_mul(a.elem(i, n - 1), b.elem(n - 1, j)))
    }
}

/// Whether every product and partial sum of [`dot`] is defined.
pub open spec fn dot_defined<A: Array, B: Array<Element = A::Element>>(a: &Matrix<A>, b: &Matrix<B>, i: int, j: int, n: int) -> bool
    where A::Element: Scalar
    decreases n,
{
    n <= 0 || {
        &&& dot_defined(a, b, i, j, n - 1)
        &&& A::Element::mul_defined(a.elem(i, n - 1), b.elem(n - 1, j))
        &&& A::Element::add_defined(dot(a, b, i, j, n - 1), A::Element::spec_mul(a.elem(i, n - 1), b.elem(n - 1, j)))
    }
}

impl<A: Array> Matrix<A> where A::Element: Scalar {
    /// `op` is defined on every pair of corresponding elements.
    pub open spec fn zip_defined<B: Array<Element = A::Element>>(&self, right: &Matrix<B>, op: BinOp) -> bool {
        forall|i: int, j: int| #[trigger] self.in_bounds(i, j) ==> op_defined(op, self.elem(i, j), right.elem(i, j))
    }

    /// `out` holds `self[i, j] op right[i, j]` at every index.
    pub open spec fn zipped<B: Array<Element = A::Element>, O: Array<Element = A::Element>>(
        &self,
        right: &Matrix<B>,
        op: BinOp,
        out: &Matrix<O>,
    ) -> bool {
        &&& out.nrows() == self.nrows()
        &&& out.ncols() == self.ncols()
        &&& forall|i: int, j: int| out.in_bounds(i, j) ==> #[trigger] out.elem(i, j) == op_spec(op, self.elem(i, j), right.elem(i, j))
    }

    /// `op` with `value` on the right is defined on every element.
    pub open spec fn scalar_defined(&self, op: BinOp, value: A::Element) -> bool {
        forall|i: int, j: int| #[trigger] self.in_bounds(i, j) ==> op_defined(op, self.elem(i, j), value)
    }

    /// `out` holds `self[i, j] op value` at every index.
    pub open spec fn scaled<O: Array<Element = A::Element>>(&self, op: BinOp, value: A::Element, out: &Matrix<O>) -> bool {
        &&& out.nrows() == self.nrows()
        &&& out.ncols() == self.ncols()
        &&& forall|i: int, j: int| out.in_bounds(i, j) ==> #[trigger] out.elem(i, j) == op_spec(op, self.elem(i, j), value)
    }

    /// Every entry of the product with `right` is defined.
    pub open spec fn product_defined<B: Array<Element = A::Element>>(&self, right: &Matrix<B>) -> bool {
        forall|i: int, j: int|
            0 <= i < self.nrows() && 0 <= j < right.ncols() ==> #[trigger] dot_defined(self, right, i, j, self.ncols() as int)
    }

    /// `out` is the product of `self` and `right`.
    pub open spec fn multiplied<B: Array<Element = A::Element>, O: Array<Element = A::Element>>(
        &self,
        right: &Matrix<B>,
        out: &Matrix<O>,
    ) -> bool {
        &&& out.nrows() == self.nrows()
        &&& out.ncols() == right.ncols()
        &&& forall|i: int, j: int| out.in_bounds(i, j) ==> #[trigger] out.elem(i, j) == dot(self, right, i, j, self.ncols() as int)
    }

    /// Entry `[i, j]` of the product with `right`: `sum_d self[i, d] * right[d, j]`.
    pub fn dot_at<B: Array<Element = A::Element>>(&self, right: &Matrix<B>, i: usize, j: usize) -> (r: A::Element)
        requires
            self.wf(),
            right.wf(),
            self.ncols() == right.nrows(),
            i < self.nrows(),
            j < right.ncols(),
            dot_defined(self, right, i as int, j as int, self.ncols() as int),
        ensures
            r == dot(self, right, i as int, j as int, self.ncols() as int),
    {
        let k = self.columns();
        let mut acc = A::Element::zero();
        let mut d: usize = 0;
        while d < k
            invariant
                self.wf(),
                right.wf(),
                k == self.ncols() == right.nrows(),
                i < self.nrows(),
                j < right.ncols(),
                d <= k,
                dot_defined(self, right, i as int, j as int, k as int),
                acc == dot(self, right, i as int, j as int, d as int),
            decreases k - d,
        {
            proof {
                lemma_dot_defined_prefix(self, right, i as int, j as int, k as int, d as int + 1);
            }
            let p = self.get([i, d]).mul(*right.get([d, j]));
            acc = acc.add(p);
            d = d + 1;
        }
        acc
    }

    /// Stores `self[i, j] op right[i, j]` into `out[i, j]`.
    pub fn zip_to<B: Array<Element = A::Element>, O: ArrayMut<Element = A::Element>>(
        &self,
        right: &Matrix<B>,
        op: BinOp,
        out: &mut Matrix<O>,
    )
        requires
            self.wf(),
            right.wf(),
            old(out).wf(),
            old(out).distinct(),
            right.nrows() == self.nrows(),
            right.ncols() == self.ncols(),
            old(out).nrows() == self.nrows(),
            old(out).ncols() == self.ncols(),
            self.zip_defined(right, op),
        ensures
            final(out).wf(),
            final(out).same_layout(old(out)),
            self.zipped(right, op, final(out)),
    {
        let f = |idx: [usize; 2]| -> (r: A::Element)
            requires
                self.in_bounds(idx[0] as int, idx[1] as int),
            ensures
                r == op_spec(op, self.elem(idx[0] as int, idx[1] as int), right.elem(idx[0] as int, idx[1] as int)),
            { apply(op, *self.get(idx), *right.get(idx)) };
        out.set_field(f);
        proof {
            assert forall|i: int, j: int| #[trigger] out.in_bounds(i, j) implies out.elem(i, j) == op_spec(
                op,
                self.elem(i, j),
                right.elem(i, j),
            ) by {
                let idx = [i as usize, j as usize];
                assert(f.ensures((idx,), out.elem(idx[0] as int, idx[1] as int)));
            }
        }
    }

    /// Stores `self[i, j] op value` into `out[i, j]`.
    pub fn scalar_to<O: ArrayMut<Element = A::Element>>(&self, op: BinOp, value: A::Element, out: &mut Matrix<O>)
        requires
            self.wf(),
            old(out).wf(),
            old(out).distinct(),
            old(out).nrows() == self.nrows(),
            old(out).ncols() == self.ncols(),
            self.scalar_defined(op, value),
        ensures
            final(out).wf(),
            final(out).same_layout(old(out)),
            self.scaled(op, value, final(out)),
    {
        let f = |idx: [usize; 2]| -> (r: A::Element)
            requires
                self.in_bounds(idx[0] as int, idx[1] as int),
            ensures
                r == op_spec(op, self.elem(idx[0] as int, idx[1] as int), value),
            { apply(op, *self.get(idx), value) };
        out.set_field(f);
        proof {
            assert forall|i: int, j: int| #[trigger] out.in_bounds(i, j) implies out.elem(i, j) == op_spec(
                op,
                self.elem(i, j),
                value,
            ) by {
                let idx = [i as usize, j as usize];
                assert(f.ensures((idx,), out.elem(idx[0] as int, idx[1] as int)));
            }
        }
    }

    /// Stores the product of `self` and `right` into `out`.
    pub fn product_to<B: Array<Element = A::Element>, O: ArrayMut<Element = A::Element>>(
        &self,
        right: &Matrix<B>,
        out: &mut Matrix<O>,
    )
        requires
            self.wf(),
            right.wf(),
            old(out).wf(),
            old(out).distinct(),
            self.ncols() == right.nrows(),
            old(out).nrows() == self.nrows(),
            old(out).ncols() == right.ncols(),
            self.product_defined(right),
        ensures
            final(out).wf(),
            final(out).same_layout(old(out)),
            self.multiplied(right, final(out)),
    {
        let f = |idx: [usize; 2]| -> (r: A::Element)
            requires
                idx[0] < self.nrows(),
                idx[1] < right.ncols(),
            ensures
                r == dot(self, right, idx[0] as int, idx[1] as int, self.ncols() as int),
            { self.dot_at(right, idx[0], idx[1]) };
        out.set_field(f);
        proof {
            assert forall|i: int, j: int| #[trigger] out.in_bounds(i, j) implies out.elem(i, j) == dot(
                self,
                right,
                i,
                j,
                self.ncols() as int,
            ) by {
                let idx = [i as usize, j as usize];
                assert(f.ensures((idx,), out.elem(idx[0] as int, idx[1] as int)));
            }
        }
    }
}

/// A defined dot product has defined prefixes.
proof fn lemma_dot_defined_prefix<A: Array, B: Array<Element = A::Element>>(
    a: &Matrix<A>,
    b: &Matrix<B>,
    i: int,
    j: int,
    n: int,
    m: int,
)
    where A::Element: Scalar
    requires
        dot_defined(a, b, i, j, n),
        m <= n,
    ensures
        dot_defined(a, b, i, j, m),
    decreases n - m,
{
    if m < n {
        lemma_dot_defined_prefix(a, b, i, j, n - 1, m);
    }
}

impl<A: ArrayMut> Matrix<A> where A::Element: Scalar {
    /// Replaces every element `self[i, j]` by `self[i, j] op right[i, j]`.
    pub fn zip_assign<B: Array<Element = A::Element>>(&mut self, right: &Matrix<B>, op: BinOp)
        requires
            old(self).wf(),
            old(self).distinct(),
            right.wf(),
            right.nrows() == old(self).nrows(),
            right.ncols() == old(self).ncols(),
            old(self).zip_defined(right, op),
        ensures
            final(self).wf(),
            final(self).same_layout(old(self)),
            forall|i: int, j: int| final(self).in_bounds(i, j) ==> #[trigger] final(self).elem(i, j) == op_spec(op, old(self).elem(i, j), right.elem(i, j)),
    {
        let shape = self.shape();
        let mut j: usize = 0;
        while j < shape[1]
            invariant
                self.wf(),
                self.distinct(),
                self.same_layout(old(self)),
                shape[0] == self.nrows(),
                shape[1] == self.ncols(),
                old(self).zip_defined(right, op),
                right.wf(),
                right.nrows() == shape[0],
                right.ncols() == shape[1],
                j <= shape[1],
                forall|a: int, b: int| self.in_bounds(a, b) ==> #[trigger] self.elem(a, b) == if b < j {
                        op_spec(op, old(self).elem(a, b), right.elem(a, b))
                    } else {
                        old(self).elem(a, b)
                    },
            decreases shape[1] - j,
        {
            let mut i: usize = 0;
            while i < shape[0]
                invariant
                    self.wf(),
                    self.distinct(),
                    self.same_layout(old(self)),
                    shape[0] == self.nrows(),
                    shape[1] == self.ncols(),
                    old(self).zip_defined(right, op),
                    right.wf(),
                    right.nrows() == shape[0],
                    right.ncols() == shape[1],
                    j < shape[1],
                    i <= shape[0],
                    forall|a: int, b: int| self.in_bounds(a, b) ==> #[trigger] self.elem(a, b) == if b < j || (b == j && a < i) {
                            op_spec(op, old(self).elem(a, b), right.elem(a, b))
                        } else {
                            old(self).elem(a, b)
                        },
                decreases shape[0] - i,
            {
                proof {
                    assert(self.in_bounds(i as int, j as int));
                    assert(old(self).in_bounds(i as int, j as int));
                }
                let v = apply(op, *self.get([i, j]), *right.get([i, j]));
                let ghost prev = *self;
                self.set([i, j], v);
                proof {
                    assert forall|a: int, b: int| #[trigger] self.in_bounds(a, b) implies self.elem(a, b) == if b < j || (b
                        == j && a <= i) {
                        op_spec(op, old(self).elem(a, b), right.elem(a, b))
                    } else {
                        old(self).elem(a, b)
                    } by {
                        if a != i || b != j {
                            assert(prev.in_bounds(a, b));
                            assert(self.elem(a, b) == prev.elem(a, b));
                        }
                    }
                }
                i = i + 1;
            }
            j = j + 1;
        }
    }

    /// Replaces every element `self[i, j]` by `self[i, j] op value`.
    pub fn scalar_assign(&mut self, op: BinOp, value: A::Element)
        requires
            old(self).wf(),
            old(self).distinct(),
            old(self).scalar_defined(op, value),
        ensures
            final(self).wf(),
            final(self).same_layout(old(self)),
            forall|i: int, j: int| final(self).in_bounds(i, j) ==> #[trigger] final(self).elem(i, j) == op_spec(op, old(self).elem(i, j), value),
    {
        let shape = self.shape();
        let mut j: usize = 0;
        while j < shape[1]
            invariant
                self.wf(),
                self.distinct(),
                self.same_layout(old(self)),
                shape[0] == self.nrows(),
                shape[1] == self.ncols(),
                old(self).scalar_defined(op, value),
                j <= shape[1],
                forall|a: int, b: int| self.in_bounds(a, b) ==> #[trigger] self.elem(a, b) == if b < j {
                        op_spec(op, old(self).elem(a, b), value)
                    } else {
                        old(self).elem(a, b)
                    },
            decreases shape[1] - j,
        {
            let mut i: usize = 0;
            while i < shape[0]
                invariant
                    self.wf(),
                    self.distinct(),
                    self.same_layout(old(self)),
                    shape[0] == self.nrows(),
                    shape[1] == self.ncols(),
                    old(self).scalar_defined(op, value),
                    j < shape[1],
                    i <= shape[0],
                    forall|a: int, b: int| self.in_bounds(a, b) ==> #[trigger] self.elem(a, b) == if b < j || (b == j && a < i) {
                            op_spec(op, old(self).elem(a, b), value)
                        } else {
                            old(self).elem(a, b)
                        },
                decreases shape[0] - i,
            {
                proof {
                    assert(self.in_bounds(i as int, j as int));
                    assert(old(self).in_bounds(i as int, j as int));
                }
                let v = apply(op, *self.get([i, j]), value);
                let ghost prev = *self;
                self.set([i, j], v);
                proof {
                    assert forall|a: int, b: int| #[trigger] self.in_bounds(a, b) implies self.elem(a, b) == if b < j || (b
                        == j && a <= i) {
                        op_spec(op, old(self).elem(a, b), value)
                    } else {
                        old(self).elem(a, b)
                    } by {
                        if a != i || b != j {
                            assert(prev.in_bounds(a, b));
                            assert(self.elem(a, b) == prev.elem(a, b));
                        }
                    }
                }
                i = i + 1;
            }
            j = j + 1;
        }
    }
}

impl<L, R: Dim, C: Dim> Matrix<L> where L: Array<R = R, C = C> + Compatible<R, C>, L::Element: Scalar {
    /// New matrix holding `self[i, j] + right[i, j]`; the shapes must be equal.
    pub fn matadd<B: Array<Element = L::Element>>(&self, right: &Matrix<B>) -> (r: Matrix<L::Owned>)
        requires
            self.wf(),
            right.wf(),
            right.nrows() == self.nrows(),
            right.ncols() == self.ncols(),
            self.zip_defined(right, BinOp::Add),
        ensures
            r.wf(),
            r.distinct(),
            self.zipped(right, BinOp::Add, &r),
    {
        self.zip(right, BinOp::Add)
    }

    /// New matrix holding `self[i, j] - right[i, j]`; the shapes must be equal.
    pub fn matsub<B: Array<Element = L::Element>>(&self, right: &Matrix<B>) -> (r: Matrix<L::Owned>)
        requires
            self.wf(),
            right.wf(),
            right.nrows() == self.nrows(),
            right.ncols() == self.ncols(),
            self.zip_defined(right, BinOp::Sub),
        ensures
            r.wf(),
            r.distinct(),
            self.zipped(right, BinOp::Sub, &r),
    {
        self.zip(right, BinOp::Sub)
    }

    /// New matrix holding `self[i, j] op right[i, j]`; the shapes must be equal.
    pub fn zip<B: Array<Element = L::Element>>(&self, right: &Matrix<B>, op: BinOp) -> (r: Matrix<L::Owned>)
        requires
            self.wf(),
            right.wf(),
            right.nrows() == self.nrows(),
            right.ncols() == self.ncols(),
            self.zip_defined(right, op),
        ensures
            r.wf(),
            r.distinct(),
            self.zipped(right, op, &r),
    {
        proof {
            self.0.lemma_inv();
        }
        let mut new = Matrix::<L::Owned>::new(self.shape());
        self.zip_to(right, op, &mut new);
        new
    }

    /// New matrix holding `self[i, j] op value`.
    pub fn scalar(&self, op: BinOp, value: L::Element) -> (r: Matrix<L::Owned>)
        requires
            self.wf(),
            self.scalar_defined(op, value),
        ensures
            r.wf(),
            r.distinct(),
            self.scaled(op, value, &r),
    {
        proof {
            self.0.lemma_inv();
        }
        let mut new = Matrix::<L::Owned>::new(self.shape());
        self.scalar_to(op, value, &mut new);
        new
    }
}

impl<L: Array> Matrix<L> where L::Element: Scalar {
    /// Matrix product: entry `[i, j]` is `sum_d self[i, d] * right[d, j]`, accumulated from zero
    /// in increasing `d`. The columns of `self` must match the rows of `right`.
    pub fn matmul<B, CO: Dim>(&self, right: &Matrix<B>) -> (r: Matrix<<L as Compatible<<L as Array>::R, CO>>::Owned>) where
        B: Array<Element = L::Element, C = CO>,
        L: Compatible<<L as Array>::R, CO>,

        requires
            self.wf(),
            right.wf(),
            self.ncols() == right.nrows(),
            self.nrows() * right.ncols() <= usize::MAX,
            self.product_defined(right),
        ensures
            r.wf(),
            r.distinct(),
            self.multiplied(right, &r),
    {
        proof {
            self.0.lemma_inv();
            right.0.lemma_inv();
        }
        let mut new = Matrix::<<L as Compatible<L::R, CO>>::Owned>::new([self.rows(), right.columns()]);
        self.product_to(right, &mut new);
        new
    }
}

/// Addition whose result goes into a caller-supplied output, without allocation.
pub trait AddTo<T, O> {
    /// What a call needs.
    spec fn add_to_requires(&self, right: &T, out: &O) -> bool;

    /// What a call leaves in the output, given its value before.
    spec fn add_to_ensures(&self, right: &T, before: &O, after: &O) -> bool;

    fn add_to(&self, right: &T, out: &mut O)
        requires
            self.add_to_requires(right, old(out)),
        ensures
            self.add_to_ensures(right, old(out), final(out)),
    ;
}

/// Subtraction whose result goes into a caller-supplied output, without allocation.
pub trait SubTo<T, O> {
    /// What a call needs.
    spec fn sub_to_requires(&self, right: &T, out: &O) -> bool;

    /// What a call leaves in the output, given its value before.
    spec fn sub_to_ensures(&self, right: &T, before: &O, after: &O) -> bool;

    fn sub_to(&self, right: &T, out: &mut O)
        requires
            self.sub_to_requires(right, old(out)),
        ensures
            self.sub_to_ensures(right, old(out), final(out)),
    ;
}

/// Multiplication whose result goes into a caller-supplied output, without allocation.
pub trait MulTo<T, O> {
    /// What a call needs.
    spec fn mul_to_requires(&self, right: &T, out: &O) -> bool;

    /// What a call leaves in the output, given its value before.
    spec fn mul_to_ensures(&self, right: &T, before: &O, after: &O) -> bool;

    fn mul_to(&self, right: &T, out: &mut O)
        requires
            self.mul_to_requires(right, old(out)),
        ensures
            self.mul_to_ensures(right, old(out), final(out)),
    ;
}

/// Division whose result goes into a caller-supplied output, without allocation.
pub trait DivTo<T, O> {
    /// What a call needs.
    spec fn div_to_requires(&self, right: &T, out: &O) -> bool;

    /// What a call leaves in the output, given its value before.
    spec fn div_to_ensures(&self, right: &T, before: &O, after: &O) -> bool;

    fn div_to(&self, right: &T, out: &mut O)
        requires
            self.div_to_requires(right, old(out)),
        ensures
            self.div_to_ensures(right, old(out), final(out)),
    ;
}

impl<L, B, O> AddTo<Matrix<B>, Matrix<O>> for Matrix<L> where
    L: Array,
    B: Array<Element = L::Element>,
    O: ArrayMut<Element = L::Element>,
    L::Element: Scalar,
 {
    open spec fn add_to_requires(&self, right: &Matrix<B>, out: &Matrix<O>) -> bool {
        &&& self.wf()
        &&& right.wf()
        &&& out.wf()
        &&& out.distinct()
        &&& right.nrows() == self.nrows()
        &&& right.ncols() == self.ncols()
        &&& out.nrows() == self.nrows()
        &&& out.ncols() == self.ncols()
        &&& self.zip_defined(right, BinOp::Add)
    }

    open spec fn add_to_ensures(&self, right: &Matrix<B>, before: &Matrix<O>, after: &Matrix<O>) -> bool {
        &&& after.wf()
        &&& after.same_layout(before)
        &&& self.zipped(right, BinOp::Add, after)
    }

    /// Elementwise operation.
    fn add_to(&self, right: &Matrix<B>, out: &mut Matrix<O>) {
        self.zip_to(right, BinOp::Add, out);
    }
}

impl<L, B, O> SubTo<Matrix<B>, Matrix<O>> for Matrix<L> where
    L: Array,
    B: Array<Element = L::Element>,
    O: ArrayMut<Element = L::Element>,
    L::Element: Scalar,
 {
    open spec fn sub_to_requires(&self, right: &Matrix<B>, out: &Matrix<O>) -> bool {
        &&& self.wf()
        &&& right.wf()
        &&& out.wf()
        &&& out.distinct()
        &&& right.nrows() == self.nrows()
        &&& right.ncols() == self.ncols()
        &&& out.nrows() == self.nrows()
        &&& out.ncols() == self.ncols()
        &&& self.zip_defined(right, BinOp::Sub)
    }

    open spec fn sub_to_ensures(&self, right: &Matrix<B>, before: &Matrix<O>, after: &Matrix<O>) -> bool {
        &&& after.wf()
        &&& after.same_layout(before)
        &&& self.zipped(right, BinOp::Sub, after)
    }

    /// Elementwise operation.
    fn sub_to(&self, right: &Matrix<B>, out: &mut Matrix<O>) {
        self.zip_to(right, BinOp::Sub, out);
    }
}

impl<L, B, O> MulTo<Matrix<B>, Matrix<O>> for Matrix<L> where
    L: Array,
    B: Array<Element = L::Element>,
    O: ArrayMut<Element = L::Element>,
    L::Element: Scalar,
 {
    open spec fn mul_to_requires(&self, right: &Matrix<B>, out: &Matrix<O>) -> bool {
        &&& self.wf()
        &&& right.wf()
        &&& out.wf()
        &&& out.distinct()
        &&& self.ncols() == right.nrows()
        &&& out.nrows() == self.nrows()
        &&& out.ncols() == right.ncols()
        &&& self.product_defined(right)
    }

    open spec fn mul_to_ensures(&self, right: &Matrix<B>, before: &Matrix<O>, after: &Matrix<O>) -> bool {
        &&& after.wf()
        &&& after.same_layout(before)
        &&& self.multiplied(right, after)
    }

    /// Matrix product.
    fn mul_to(&self, right: &Matrix<B>, out: &mut Matrix<O>) {
        self.product_to(right, out);
    }
}

impl<L, S, O> AddTo<S, Matrix<O>> for Matrix<L> where
    S: Scalar,
    L: Array<Element = S>,
    O: ArrayMut<Element = S>,
 {
    open spec fn add_to_requires(&self, right: &S, out: &Matrix<O>) -> bool {
        &&& self.wf()
        &&& out.wf()
        &&& out.distinct()
        &&& out.nrows() == self.nrows()
        &&& out.ncols() == self.ncols()
        &&& self.scalar_defined(BinOp::Add, *right)
    }

    open spec fn add_to_ensures(&self, right: &S, before: &Matrix<O>, after: &Matrix<O>) -> bool {
        &&& after.wf()
        &&& after.same_layout(before)
        &&& self.scaled(BinOp::Add, *right, after)
    }

    /// Operation with the same scalar at every element.
    fn add_to(&self, right: &S, out: &mut Matrix<O>) {
        self.scalar_to(BinOp::Add, *right, out);
    }
}

impl<L, S, O> SubTo<S, Matrix<O>> for Matrix<L> where
    S: Scalar,
    L: Array<Element = S>,
    O: ArrayMut<Element = S>,
 {
    open spec fn sub_to_requires(&self, right: &S, out: &Matrix<O>) -> bool {
        &&& self.wf()
        &&& out.wf()
        &&& out.distinct()
        &&& out.nrows() == self.nrows()
        &&& out.ncols() == self.ncols()
        &&& self.scalar_defined(BinOp::Sub, *right)
    }

    open spec fn sub_to_ensures(&self, right: &S, before: &Matrix<O>, after: &Matrix<O>) -> bool {
        &&& after.wf()
        &&& after.same_layout(before)
        &&& self.scaled(BinOp::Sub, *right, after)
    }

    /// Operation with the same scalar at every element.
    fn sub_to(&self, right: &S, out: &mut Matrix<O>) {
        self.scalar_to(BinOp::Sub, *right, out);
    }
}

impl<L, S, O> MulTo<S, Matrix<O>> for Matrix<L> where
    S: Scalar,
    L: Array<Element = S>,
    O: ArrayMut<Element = S>,
 {
    open spec fn mul_to_requires(&self, right: &S, out: &Matrix<O>) -> bool {
        &&& self.wf()
        &&& out.wf()
        &&& out.distinct()
        &&& out.nrows() == self.nrows()
        &&& out.ncols() == self.ncols()
        &&& self.scalar_defined(BinOp::Mul, *right)
    }

    open spec fn mul_to_ensures(&self, right: &S, before: &Matrix<O>, after: &Matrix<O>) -> bool {
        &&& after.wf()
        &&& after.same_layout(before)
        &&& self.scaled(BinOp::Mul, *right, after)
    }

    /// Operation with the same scalar at every element.
    fn mul_to(&self, right: &S, out: &mut Matrix<O>) {
        self.scalar_to(BinOp::Mul, *right, out);
    }
}

impl<L, S, O> DivTo<S, Matrix<O>> for Matrix<L> where
    S: Scalar,
    L: Array<Element = S>,
    O: ArrayMut<Element = S>,
 {
    open spec fn div_to_requires(&self, right: &S, out: &Matrix<O>) -> bool {
        &&& self.wf()
        &&& out.wf()
        &&& out.distinct()
        &&& out.nrows() == self.nrows()
        &&& out.ncols() == self.ncols()
        &&& self.scalar_defined(BinOp::Div, *right)
    }

    open spec fn div_to_ensures(&self, right: &S, before: &Matrix<O>, after: &Matrix<O>) -> bool {
        &&& after.wf()
        &&& after.same_layout(before)
        &&& self.scaled(BinOp::Div, *right, after)
    }

    /// Operation with the same scalar at every element.
    fn div_to(&self, right: &S, out: &mut Matrix<O>) {
        self.scalar_to(BinOp::Div, *right, out);
    }
}

/// Partial sums of a row of `a` against a column of an identity: zero before the diagonal, then
/// the element of `a`.
proof fn lemma_dot_right_identity<A: Array, B: Array<Element = A::Element>>(a: &Matrix<A>, id: &Matrix<B>, i: int, j: int, n: int)
    where A::Element: Scalar
    requires
        0 <= n <= id.nrows(),
        0 <= j < id.ncols(),
        forall|p: int, q: int| #[trigger] id.in_bounds(p, q) ==> id.elem(p, q) == identity_elem::<A::Element>(p, q),
    ensures
        dot(a, id, i, j, n) == if n <= j {
            A::Element::spec_zero()
        } else {
            a.elem(i, j)
        },
        dot_defined(a, id, i, j, n),
    decreases n,
{
    if n > 0 {
        lemma_dot_right_identity(a, id, i, j, n - 1);
        assert(id.in_bounds(n - 1, j));
        A::Element::lemma_mul_identities(a.elem(i, n - 1));
        if n - 1 == j {
            A::Element::lemma_zero_add(a.elem(i, j));
        } else {
            A::Element::lemma_add_zero(dot(a, id, i, j, n - 1));
        }
    }
}

/// Partial sums of a row of an identity against a column of `a`: zero before the diagonal, then
/// the element of `a`.
proof fn lemma_dot_left_identity<A: Array, B: Array<Element = A::Element>>(id: &Matrix<A>, a: &Matrix<B>, i: int, j: int, n: int)
    where A::Element: Scalar
    requires
        0 <= n <= id.ncols(),
        0 <= i < id.nrows(),
        forall|p: int, q: int| #[trigger] id.in_bounds(p, q) ==> id.elem(p, q) == identity_elem::<A::Element>(p, q),
    ensures
        dot(id, a, i, j, n) == if n <= i {
            A::Element::spec_zero()
        } else {
            a.elem(i, j)
        },
        dot_defined(id, a, i, j, n),
    decreases n,
{
    if n > 0 {
        lemma_dot_left_identity(id, a, i, j, n - 1);
        assert(id.in_bounds(i, n - 1));
        A::Element::lemma_mul_left_identities(a.elem(n - 1, j));
        if n - 1 == i {
            A::Element::lemma_zero_add(a.elem(i, j));
        } else {
            A::Element::lemma_add_zero(dot(id, a, i, j, n - 1));
        }
    }
}

/// The product of a matrix with a square identity of matching size on the right never
/// overflows, and gives back the matrix's elements unchanged.
pub proof fn lemma_product_right_identity<A: Array, B: Array<Element = A::Element>, O: Array<Element = A::Element>>(
    a: &Matrix<A>,
    id: &Matrix<B>,
    p: &Matrix<O>,
)
    where A::Element: Scalar
    requires
        a.ncols() == id.nrows() == id.ncols(),
        forall|i: int, j: int| #[trigger] id.in_bounds(i, j) ==> id.elem(i, j) == identity_elem::<A::Element>(i, j),
    ensures
        a.product_defined(id),
        a.multiplied(id, p) ==> p.same_elements(a),
{
    assert forall|i: int, j: int| 0 <= i < a.nrows() && 0 <= j < id.ncols() implies #[trigger] dot_defined(
        a,
        id,
        i,
        j,
        a.ncols() as int,
    ) by {
        lemma_dot_right_identity(a, id, i, j, a.ncols() as int);
    }
    if a.multiplied(id, p) {
        assert forall|i: int, j: int| p.in_bounds(i, j) implies #[trigger] p.elem(i, j) == a.elem(i, j) by {
            lemma_dot_right_identity(a, id, i, j, a.ncols() as int);
        }
    }
}

/// The product of a matrix with a square identity of matching size on the left never
/// overflows, and gives back the matrix's elements unchanged.
pub proof fn lemma_product_left_identity<A: Array, B: Array<Element = A::Element>, O: Array<Element = A::Element>>(
    id: &Matrix<A>,
    a: &Matrix<B>,
    p: &Matrix<O>,
)
    where A::Element: Scalar
    requires
        a.nrows() == id.nrows() == id.ncols(),
        forall|i: int, j: int| #[trigger] id.in_bounds(i, j) ==> id.elem(i, j) == identity_elem::<A::Element>(i, j),
    ensures
        id.product_defined(a),
        id.multiplied(a, p) ==> p.same_elements(a),
{
    assert forall|i: int, j: int| 0 <= i < id.nrows() && 0 <= j < a.ncols() implies #[trigger] dot_defined(
        id,
        a,
        i,
        j,
        id.ncols() as int,
    ) by {
        lemma_dot_left_identity(id, a, i, j, id.ncols() as int);
    }
    if id.multiplied(a, p) {
        assert forall|i: int, j: int| p.in_bounds(i, j) implies #[trigger] p.elem(i, j) == a.elem(i, j) by {
            lemma_dot_left_identity(id, a, i, j, id.ncols() as int);
        }
    }
}

} // verus!
