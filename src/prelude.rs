//! Axis descriptors and element traits.
use vstd::prelude::*;

verus! {

/// Size of one matrix axis: either carried at run time ([`Dyn`]) or fixed in the type ([`Stat`]).
pub trait Dim: Copy + Sized {
    /// The axis length this descriptor stands for.
    spec fn spec_value(&self) -> usize;

    /// Whether this kind of descriptor can stand for an axis of length `n`.
    spec fn admits(n: usize) -> bool;

    /// The concrete axis length.
    fn value(&self) -> (r: usize)
        ensures
            r == self.spec_value(),
    ;

    /// Descriptor for an axis of length `value`, or `None` when this kind cannot hold it.
    fn check(value: usize) -> (r: Option<Self>)
        ensures
            r is Some <==> Self::admits(value),
            r matches Some(d) ==> d.spec_value() == value,
    ;

    /// Every descriptor stands for a length that its kind admits.
    proof fn lemma_admits(d: Self)
        ensures
            Self::admits(d.spec_value()),
    ;
}

/// Axis length determined at run time.
#[derive(Copy, Clone, PartialEq, Eq, Structural)]
pub struct Dyn(pub usize);

impl Dim for Dyn {
    open spec fn spec_value(&self) -> usize {
        self.0
    }

    open spec fn admits(n: usize) -> bool {
        true
    }

    fn value(&self) -> (r: usize) {
        self.0
    }

    fn check(value: usize) -> (r: Option<Self>) {
        Some(Dyn(value))
    }

    proof fn lemma_admits(d: Self) {
    }
}

/// Axis length fixed at compile time to `N`.
#[derive(Copy, Clone)]
pub struct Stat<const N: usize> {}

impl<const N: usize> Dim for Stat<N> {
    open spec fn spec_value(&self) -> usize {
        N
    }

    open spec fn admits(n: usize) -> bool {
        n == N
    }

    fn value(&self) -> (r: usize) {
        N
    }

    fn check(value: usize) -> (r: Option<Self>) {
        if value == N {
            Some(Stat {})
        } else {
            None
        }
    }

    proof fn lemma_admits(d: Self) {
    }
}

/// What a matrix cell can hold.
pub trait Element: Copy {}

impl<T: Copy> Element for T {}

/// Element supporting the arithmetic of linear algebra, with its identities.
///
/// Each operation is modelled by a spec function; the operation is defined
/// (does not overflow or divide by zero) exactly where its `*_defined`
/// predicate holds.
pub trait Scalar: Element {
    /// The additive identity.
    spec fn spec_zero() -> Self;

    /// The multiplicative identity.
    spec fn spec_one() -> Self;

    /// The sum `a + b`.
    spec fn spec_add(a: Self, b: Self) -> Self;

    /// The difference `a - b`.
    spec fn spec_sub(a: Self, b: Self) -> Self;

    /// The product `a * b`.
    spec fn spec_mul(a: Self, b: Self) -> Self;

    /// The quotient `a / b`.
    spec fn spec_div(a: Self, b: Self) -> Self;

    /// `a + b` is representable.
    spec fn add_defined(a: Self, b: Self) -> bool;

    /// `a - b` is representable.
    spec fn sub_defined(a: Self, b: Self) -> bool;

    /// `a * b` is representable.
    spec fn mul_defined(a: Self, b: Self) -> bool;

    /// `b` is not zero and `a / b` is representable.
    spec fn div_defined(a: Self, b: Self) -> bool;

    /// The additive identity.
    fn zero() -> (r: Self)
        ensures
            r == Self::spec_zero(),
    ;

    /// The multiplicative identity.
    fn one() -> (r: Self)
        ensures
            r == Self::spec_one(),
    ;

    /// `self + b`.
    fn add(self, b: Self) -> (r: Self)
        requires
            Self::add_defined(self, b),
        ensures
            r == Self::spec_add(self, b),
    ;

    /// `self - b`.
    fn sub(self, b: Self) -> (r: Self)
        requires
            Self::sub_defined(self, b),
        ensures
            r == Self::spec_sub(self, b),
    ;

    /// `self * b`.
    fn mul(self, b: Self) -> (r: Self)
        requires
            Self::mul_defined(self, b),
        ensures
            r == Self::spec_mul(self, b),
    ;

    /// `self / b`, rounded toward zero.
    fn div(self, b: Self) -> (r: Self)
        requires
            Self::div_defined(self, b),
        ensures
            r == Self::spec_div(self, b),
    ;

    /// Zero is a right identity of addition, and adding it is always defined.
    proof fn lemma_add_zero(a: Self)
        ensures
            Self::add_defined(a, Self::spec_zero()),
            Self::spec_add(a, Self::spec_zero()) == a,
    ;

    /// Zero is a left identity of addition, and adding to it is always defined.
    proof fn lemma_zero_add(a: Self)
        ensures
            Self::add_defined(Self::spec_zero(), a),
            Self::spec_add(Self::spec_zero(), a) == a,
    ;

    /// One is a right identity of multiplication, and zero absorbs it.
    proof fn lemma_mul_identities(a: Self)
        ensures
            Self::mul_defined(a, Self::spec_one()),
            Self::spec_mul(a, Self::spec_one()) == a,
            Self::mul_defined(a, Self::spec_zero()),
            Self::spec_mul(a, Self::spec_zero()) == Self::spec_zero(),
    ;

    /// One is a left identity of multiplication, and zero absorbs it.
    proof fn lemma_mul_left_identities(a: Self)
        ensures
            Self::mul_defined(Self::spec_one(), a),
            Self::spec_mul(Self::spec_one(), a) == a,
            Self::mul_defined(Self::spec_zero(), a),
            Self::spec_mul(Self::spec_zero(), a) == Self::spec_zero(),
    ;
}

impl Scalar for i8 {
    open spec fn spec_zero() -> Self {
        0
    }

    open spec fn spec_one() -> Self {
        1
    }

    open spec fn spec_add(a: Self, b: Self) -> Self {
        (a + b) as i8
    }

    open spec fn spec_sub(a: Self, b: Self) -> Self {
        (a - b) as i8
    }

    open spec fn spec_mul(a: Self, b: Self) -> Self {
        (a * b) as i8
    }

    open spec fn spec_div(a: Self, b: Self) -> Self {
        a.checked_div(b).unwrap()
    }

    open spec fn add_defined(a: Self, b: Self) -> bool {
        i8::MIN <= a + b <= i8::MAX
    }

    open spec fn sub_defined(a: Self, b: Self) -> bool {
        i8::MIN <= a - b <= i8::MAX
    }

    open spec fn mul_defined(a: Self, b: Self) -> bool {
        i8::MIN <= a * b <= i8::MAX
    }

    open spec fn div_defined(a: Self, b: Self) -> bool {
        a.checked_div(b) is Some
    }

    fn zero() -> (r: Self) {
        0
    }

    fn one() -> (r: Self) {
        1
    }

    fn add(self, b: Self) -> (r: Self) {
        self + b
    }

    fn sub(self, b: Self) -> (r: Self) {
        self - b
    }

    fn mul(self, b: Self) -> (r: Self) {
        self * b
    }

    fn div(self, b: Self) -> (r: Self) {
        self.checked_div(b).unwrap()
    }

    proof fn lemma_add_zero(a: Self) {
    }

    proof fn lemma_zero_add(a: Self) {
    }

    proof fn lemma_mul_identities(a: Self) {
    }

    proof fn lemma_mul_left_identities(a: Self) {
    }
}

impl Scalar for i16 {
    open spec fn spec_zero() -> Self {
        0
    }

    open spec fn spec_one() -> Self {
        1
    }

    open spec fn spec_add(a: Self, b: Self) -> Self {
        (a + b) as i16
    }

    open spec fn spec_sub(a: Self, b: Self) -> Self {
        (a - b) as i16
    }

    open spec fn spec_mul(a: Self, b: Self) -> Self {
        (a * b) as i16
    }

    open spec fn spec_div(a: Self, b: Self) -> Self {
        a.checked_div(b).unwrap()
    }

    open spec fn add_defined(a: Self, b: Self) -> bool {
        i16::MIN <= a + b <= i16::MAX
    }

    open spec fn sub_defined(a: Self, b: Self) -> bool {
        i16::MIN <= a - b <= i16::MAX
    }

    open spec fn mul_defined(a: Self, b: Self) -> bool {
        i16::MIN <= a * b <= i16::MAX
    }

    open spec fn div_defined(a: Self, b: Self) -> bool {
        a.checked_div(b) is Some
    }

    fn zero() -> (r: Self) {
        0
    }

    fn one() -> (r: Self) {
        1
    }

    fn add(self, b: Self) -> (r: Self) {
        self + b
    }

    fn sub(self, b: Self) -> (r: Self) {
        self - b
    }

    fn mul(self, b: Self) -> (r: Self) {
        self * b
    }

    fn div(self, b: Self) -> (r: Self) {
        self.checked_div(b).unwrap()
    }

    proof fn lemma_add_zero(a: Self) {
    }

    proof fn lemma_zero_add(a: Self) {
    }

    proof fn lemma_mul_identities(a: Self) {
    }

    proof fn lemma_mul_left_identities(a: Self) {
    }
}

impl Scalar for i32 {
    open spec fn spec_zero() -> Self {
        0
    }

    open spec fn spec_one() -> Self {
        1
    }

    open spec fn spec_add(a: Self, b: Self) -> Self {
        (a + b) as i32
    }

    open spec fn spec_sub(a: Self, b: Self) -> Self {
        (a - b) as i32
    }

    open spec fn spec_mul(a: Self, b: Self) -> Self {
        (a * b) as i32
    }

    open spec fn spec_div(a: Self, b: Self) -> Self {
        a.checked_div(b).unwrap()
    }

    open spec fn add_defined(a: Self, b: Self) -> bool {
        i32::MIN <= a + b <= i32::MAX
    }

    open spec fn sub_defined(a: Self, b: Self) -> bool {
        i32::MIN <= a - b <= i32::MAX
    }

    open spec fn mul_defined(a: Self, b: Self) -> bool {
        i32::MIN <= a * b <= i32::MAX
    }

    open spec fn div_defined(a: Self, b: Self) -> bool {
        a.checked_div(b) is Some
    }

    fn zero() -> (r: Self) {
        0
    }

    fn one() -> (r: Self) {
        1
    }

    fn add(self, b: Self) -> (r: Self) {
        self + b
    }

    fn sub(self, b: Self) -> (r: Self) {
        self - b
    }

    fn mul(self, b: Self) -> (r: Self) {
        self * b
    }

    fn div(self, b: Self) -> (r: Self) {
        self.checked_div(b).unwrap()
    }

    proof fn lemma_add_zero(a: Self) {
    }

    proof fn lemma_zero_add(a: Self) {
    }

    proof fn lemma_mul_identities(a: Self) {
    }

    proof fn lemma_mul_left_identities(a: Self) {
    }
}

impl Scalar for i64 {
    open spec fn spec_zero() -> Self {
        0
    }

    open spec fn spec_one() -> Self {
        1
    }

    open spec fn spec_add(a: Self, b: Self) -> Self {
        (a + b) as i64
    }

    open spec fn spec_sub(a: Self, b: Self) -> Self {
        (a - b) as i64
    }

    open spec fn spec_mul(a: Self, b: Self) -> Self {
        (a * b) as i64
    }

    open spec fn spec_div(a: Self, b: Self) -> Self {
        a.checked_div(b).unwrap()
    }

    open spec fn add_defined(a: Self, b: Self) -> bool {
        i64::MIN <= a + b <= i64::MAX
    }

    open spec fn sub_defined(a: Self, b: Self) -> bool {
        i64::MIN <= a - b <= i64::MAX
    }

    open spec fn mul_defined(a: Self, b: Self) -> bool {
        i64::MIN <= a * b <= i64::MAX
    }

    open spec fn div_defined(a: Self, b: Self) -> bool {
        a.checked_div(b) is Some
    }

    fn zero() -> (r: Self) {
        0
    }

    fn one() -> (r: Self) {
        1
    }

    fn add(self, b: Self) -> (r: Self) {
        self + b
    }

    fn sub(self, b: Self) -> (r: Self) {
        self - b
    }

    fn mul(self, b: Self) -> (r: Self) {
        self * b
    }

    fn div(self, b: Self) -> (r: Self) {
        self.checked_div(b).unwrap()
    }

    proof fn lemma_add_zero(a: Self) {
    }

    proof fn lemma_zero_add(a: Self) {
    }

    proof fn lemma_mul_identities(a: Self) {
    }

    proof fn lemma_mul_left_identities(a: Self) {
    }
}

impl Scalar for i128 {
    open spec fn spec_zero() -> Self {
        0
    }

    open spec fn spec_one() -> Self {
        1
    }

    open spec fn spec_add(a: Self, b: Self) -> Self {
        (a + b) as i128
    }

    open spec fn spec_sub(a: Self, b: Self) -> Self {
        (a - b) as i128
    }

    open spec fn spec_mul(a: Self, b: Self) -> Self {
        (a * b) as i128
    }

    open spec fn spec_div(a: Self, b: Self) -> Self {
        a.checked_div(b).unwrap()
    }

    open spec fn add_defined(a: Self, b: Self) -> bool {
        i128::MIN <= a + b <= i128::MAX
    }

    open spec fn sub_defined(a: Self, b: Self) -> bool {
        i128::MIN <= a - b <= i128::MAX
    }

    open spec fn mul_defined(a: Self, b: Self) -> bool {
        i128::MIN <= a * b <= i128::MAX
    }

    open spec fn div_defined(a: Self, b: Self) -> bool {
        a.checked_div(b) is Some
    }

    fn zero() -> (r: Self) {
        0
    }

    fn one() -> (r: Self) {
        1
    }

    fn add(self, b: Self) -> (r: Self) {
        self + b
    }

    fn sub(self, b: Self) -> (r: Self) {
        self - b
    }

    fn mul(self, b: Self) -> (r: Self) {
        self * b
    }

    fn div(self, b: Self) -> (r: Self) {
        self.checked_div(b).unwrap()
    }

    proof fn lemma_add_zero(a: Self) {
    }

    proof fn lemma_zero_add(a: Self) {
    }

    proof fn lemma_mul_identities(a: Self) {
    }

    proof fn lemma_mul_left_identities(a: Self) {
    }
}

impl Scalar for isize {
    open spec fn spec_zero() -> Self {
        0
    }

    open spec fn spec_one() -> Self {
        1
    }

    open spec fn spec_add(a: Self, b: Self) -> Self {
        (a + b) as isize
    }

    open spec fn spec_sub(a: Self, b: Self) -> Self {
        (a - b) as isize
    }

    open spec fn spec_mul(a: Self, b: Self) -> Self {
        (a * b) as isize
    }

    open spec fn spec_div(a: Self, b: Self) -> Self {
        a.checked_div(b).unwrap()
    }

    open spec fn add_defined(a: Self, b: Self) -> bool {
        isize::MIN <= a + b <= isize::MAX
    }

    open spec fn sub_defined(a: Self, b: Self) -> bool {
        isize::MIN <= a - b <= isize::MAX
    }

    open spec fn mul_defined(a: Self, b: Self) -> bool {
        isize::MIN <= a * b <= isize::MAX
    }

    open spec fn div_defined(a: Self, b: Self) -> bool {
        a.checked_div(b) is Some
    }

    fn zero() -> (r: Self) {
        0
    }

    fn one() -> (r: Self) {
        1
    }

    fn add(self, b: Self) -> (r: Self) {
        self + b
    }

    fn sub(self, b: Self) -> (r: Self) {
        self - b
    }

    fn mul(self, b: Self) -> (r: Self) {
        self * b
    }

    fn div(self, b: Self) -> (r: Self) {
        self.checked_div(b).unwrap()
    }

    proof fn lemma_add_zero(a: Self) {
    }

    proof fn lemma_zero_add(a: Self) {
    }

    proof fn lemma_mul_identities(a: Self) {
    }

    proof fn lemma_mul_left_identities(a: Self) {
    }
}

impl Scalar for u8 {
    open spec fn spec_zero() -> Self {
        0
    }

    open spec fn spec_one() -> Self {
        1
    }

    open spec fn spec_add(a: Self, b: Self) -> Self {
        (a + b) as u8
    }

    open spec fn spec_sub(a: Self, b: Self) -> Self {
        (a - b) as u8
    }

    open spec fn spec_mul(a: Self, b: Self) -> Self {
        (a * b) as u8
    }

    open spec fn spec_div(a: Self, b: Self) -> Self {
        a.checked_div(b).unwrap()
    }

    open spec fn add_defined(a: Self, b: Self) -> bool {
        u8::MIN <= a + b <= u8::MAX
    }

    open spec fn sub_defined(a: Self, b: Self) -> bool {
        u8::MIN <= a - b <= u8::MAX
    }

    open spec fn mul_defined(a: Self, b: Self) -> bool {
        u8::MIN <= a * b <= u8::MAX
    }

    open spec fn div_defined(a: Self, b: Self) -> bool {
        a.checked_div(b) is Some
    }

    fn zero() -> (r: Self) {
        0
    }

    fn one() -> (r: Self) {
        1
    }

    fn add(self, b: Self) -> (r: Self) {
        self + b
    }

    fn sub(self, b: Self) -> (r: Self) {
        self - b
    }

    fn mul(self, b: Self) -> (r: Self) {
        self * b
    }

    fn div(self, b: Self) -> (r: Self) {
        self.checked_div(b).unwrap()
    }

    proof fn lemma_add_zero(a: Self) {
    }

    proof fn lemma_zero_add(a: Self) {
    }

    proof fn lemma_mul_identities(a: Self) {
    }

    proof fn lemma_mul_left_identities(a: Self) {
    }
}

impl Scalar for u16 {
    open spec fn spec_zero() -> Self {
        0
    }

    open spec fn spec_one() -> Self {
        1
    }

    open spec fn spec_add(a: Self, b: Self) -> Self {
        (a + b) as u16
    }

    open spec fn spec_sub(a: Self, b: Self) -> Self {
        (a - b) as u16
    }

    open spec fn spec_mul(a: Self, b: Self) -> Self {
        (a * b) as u16
    }

    open spec fn spec_div(a: Self, b: Self) -> Self {
        a.checked_div(b).unwrap()
    }

    open spec fn add_defined(a: Self, b: Self) -> bool {
        u16::MIN <= a + b <= u16::MAX
    }

    open spec fn sub_defined(a: Self, b: Self) -> bool {
        u16::MIN <= a - b <= u16::MAX
    }

    open spec fn mul_defined(a: Self, b: Self) -> bool {
        u16::MIN <= a * b <= u16::MAX
    }

    open spec fn div_defined(a: Self, b: Self) -> bool {
        a.checked_div(b) is Some
    }

    fn zero() -> (r: Self) {
        0
    }

    fn one() -> (r: Self) {
        1
    }

    fn add(self, b: Self) -> (r: Self) {
        self + b
    }

    fn sub(self, b: Self) -> (r: Self) {
        self - b
    }

    fn mul(self, b: Self) -> (r: Self) {
        self * b
    }

    fn div(self, b: Self) -> (r: Self) {
        self.checked_div(b).unwrap()
    }

    proof fn lemma_add_zero(a: Self) {
    }

    proof fn lemma_zero_add(a: Self) {
    }

    proof fn lemma_mul_identities(a: Self) {
    }

    proof fn lemma_mul_left_identities(a: Self) {
    }
}

impl Scalar for u32 {
    open spec fn spec_zero() -> Self {
        0
    }

    open spec fn spec_one() -> Self {
        1
    }

    open spec fn spec_add(a: Self, b: Self) -> Self {
        (a + b) as u32
    }

    open spec fn spec_sub(a: Self, b: Self) -> Self {
        (a - b) as u32
    }

    open spec fn spec_mul(a: Self, b: Self) -> Self {
        (a * b) as u32
    }

    open spec fn spec_div(a: Self, b: Self) -> Self {
        a.checked_div(b).unwrap()
    }

    open spec fn add_defined(a: Self, b: Self) -> bool {
        u32::MIN <= a + b <= u32::MAX
    }

    open spec fn sub_defined(a: Self, b: Self) -> bool {
        u32::MIN <= a - b <= u32::MAX
    }

    open spec fn mul_defined(a: Self, b: Self) -> bool {
        u32::MIN <= a * b <= u32::MAX
    }

    open spec fn div_defined(a: Self, b: Self) -> bool {
        a.checked_div(b) is Some
    }

    fn zero() -> (r: Self) {
        0
    }

    fn one() -> (r: Self) {
        1
    }

    fn add(self, b: Self) -> (r: Self) {
        self + b
    }

    fn sub(self, b: Self) -> (r: Self) {
        self - b
    }

    fn mul(self, b: Self) -> (r: Self) {
        self * b
    }

    fn div(self, b: Self) -> (r: Self) {
        self.checked_div(b).unwrap()
    }

    proof fn lemma_add_zero(a: Self) {
    }

    proof fn lemma_zero_add(a: Self) {
    }

    proof fn lemma_mul_identities(a: Self) {
    }

    proof fn lemma_mul_left_identities(a: Self) {
    }
}

impl Scalar for u64 {
    open spec fn spec_zero() -> Self {
        0
    }

    open spec fn spec_one() -> Self {
        1
    }

    open spec fn spec_add(a: Self, b: Self) -> Self {
        (a + b) as u64
    }

    open spec fn spec_sub(a: Self, b: Self) -> Self {
        (a - b) as u64
    }

    open spec fn spec_mul(a: Self, b: Self) -> Self {
        (a * b) as u64
    }

    open spec fn spec_div(a: Self, b: Self) -> Self {
        a.checked_div(b).unwrap()
    }

    open spec fn add_defined(a: Self, b: Self) -> bool {
        u64::MIN <= a + b <= u64::MAX
    }

    open spec fn sub_defined(a: Self, b: Self) -> bool {
        u64::MIN <= a - b <= u64::MAX
    }

    open spec fn mul_defined(a: Self, b: Self) -> bool {
        u64::MIN <= a * b <= u64::MAX
    }

    open spec fn div_defined(a: Self, b: Self) -> bool {
        a.checked_div(b) is Some
    }

    fn zero() -> (r: Self) {
        0
    }

    fn one() -> (r: Self) {
        1
    }

    fn add(self, b: Self) -> (r: Self) {
        self + b
    }

    fn sub(self, b: Self) -> (r: Self) {
        self - b
    }

    fn mul(self, b: Self) -> (r: Self) {
        self * b
    }

    fn div(self, b: Self) -> (r: Self) {
        self.checked_div(b).unwrap()
    }

    proof fn lemma_add_zero(a: Self) {
    }

    proof fn lemma_zero_add(a: Self) {
    }

    proof fn lemma_mul_identities(a: Self) {
    }

    proof fn lemma_mul_left_identities(a: Self) {
    }
}

impl Scalar for u128 {
    open spec fn spec_zero() -> Self {
        0
    }

    open spec fn spec_one() -> Self {
        1
    }

    open spec fn spec_add(a: Self, b: Self) -> Self {
        (a + b) as u128
    }

    open spec fn spec_sub(a: Self, b: Self) -> Self {
        (a - b) as u128
    }

    open spec fn spec_mul(a: Self, b: Self) -> Self {
        (a * b) as u128
    }

    open spec fn spec_div(a: Self, b: Self) -> Self {
        a.checked_div(b).unwrap()
    }

    open spec fn add_defined(a: Self, b: Self) -> bool {
        u128::MIN <= a + b <= u128::MAX
    }

    open spec fn sub_defined(a: Self, b: Self) -> bool {
        u128::MIN <= a - b <= u128::MAX
    }

    open spec fn mul_defined(a: Self, b: Self) -> bool {
        u128::MIN <= a * b <= u128::MAX
    }

    open spec fn div_defined(a: Self, b: Self) -> bool {
        a.checked_div(b) is Some
    }

    fn zero() -> (r: Self) {
        0
    }

    fn one() -> (r: Self) {
        1
    }

    fn add(self, b: Self) -> (r: Self) {
        self + b
    }

    fn sub(self, b: Self) -> (r: Self) {
        self - b
    }

    fn mul(self, b: Self) -> (r: Self) {
        self * b
    }

    fn div(self, b: Self) -> (r: Self) {
        self.checked_div(b).unwrap()
    }

    proof fn lemma_add_zero(a: Self) {
    }

    proof fn lemma_zero_add(a: Self) {
    }

    proof fn lemma_mul_identities(a: Self) {
    }

    proof fn lemma_mul_left_identities(a: Self) {
    }
}

impl Scalar for usize {
    open spec fn spec_zero() -> Self {
        0
    }

    open spec fn spec_one() -> Self {
        1
    }

    open spec fn spec_add(a: Self, b: Self) -> Self {
        (a + b) as usize
    }

    open spec fn spec_sub(a: Self, b: Self) -> Self {
        (a - b) as usize
    }

    open spec fn spec_mul(a: Self, b: Self) -> Self {
        (a * b) as usize
    }

    open spec fn spec_div(a: Self, b: Self) -> Self {
        a.checked_div(b).unwrap()
    }

    open spec fn add_defined(a: Self, b: Self) -> bool {
        usize::MIN <= a + b <= usize::MAX
    }

    open spec fn sub_defined(a: Self, b: Self) -> bool {
        usize::MIN <= a - b <= usize::MAX
    }

    open spec fn mul_defined(a: Self, b: Self) -> bool {
        usize::MIN <= a * b <= usize::MAX
    }

    open spec fn div_defined(a: Self, b: Self) -> bool {
        a.checked_div(b) is Some
    }

    fn zero() -> (r: Self) {
        0
    }

    fn one() -> (r: Self) {
        1
    }

    fn add(self, b: Self) -> (r: Self) {
        self + b
    }

    fn sub(self, b: Self) -> (r: Self) {
        self - b
    }

    fn mul(self, b: Self) -> (r: Self) {
        self * b
    }

    fn div(self, b: Self) -> (r: Self) {
        self.checked_div(b).unwrap()
    }

    proof fn lemma_add_zero(a: Self) {
    }

    proof fn lemma_zero_add(a: Self) {
    }

    proof fn lemma_mul_identities(a: Self) {
    }

    proof fn lemma_mul_left_identities(a: Self) {
    }
}

} // verus!
