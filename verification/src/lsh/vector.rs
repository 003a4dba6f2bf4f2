//! What the index asks of a vector.

use vstd::prelude::*;

verus! {

/// Element-wise and scalar arithmetic on vectors of one fixed dimension.
///
/// A vector is described by its elements, single-precision values carried
/// as IEEE-754 bit patterns, and each result is named as a function of the
/// operands' elements.
pub trait VectorArithmetic: Sized {
    /// The elements in canonical order.
    spec fn elements(&self) -> Seq<u32>;

    /// The number of elements of every vector of this type.
    spec fn dimension_spec() -> nat;

    spec fn add_spec(a: Seq<u32>, b: Seq<u32>) -> Seq<u32>;

    spec fn sub_spec(a: Seq<u32>, b: Seq<u32>) -> Seq<u32>;

    spec fn mul_spec(a: Seq<u32>, b: Seq<u32>) -> Seq<u32>;

    spec fn div_spec(a: Seq<u32>, b: Seq<u32>) -> Seq<u32>;

    spec fn mul_scalar_spec(a: Seq<u32>, c: u32) -> Seq<u32>;

    spec fn div_scalar_spec(a: Seq<u32>, c: u32) -> Seq<u32>;

    spec fn sqrt_spec(x: u32) -> u32;

    spec fn scalar_sub_spec(x: u32, y: u32) -> u32;

    /// Every vector has `dimension_spec()` elements.
    proof fn lemma_dimension(&self)
        ensures
            self.elements().len() == Self::dimension_spec(),
    ;

    /// The zero vector.
    fn zero() -> (r: Self)
        ensures
            r.elements() == Seq::new(Self::dimension_spec(), |k: int| 0u32),
    ;

    fn add(self, other: Self) -> (r: Self)
        ensures
            r.elements() == Self::add_spec(self.elements(), other.elements()),
    ;

    fn sub(self, other: Self) -> (r: Self)
        ensures
            r.elements() == Self::sub_spec(self.elements(), other.elements()),
    ;

    fn mul(self, other: Self) -> (r: Self)
        ensures
            r.elements() == Self::mul_spec(self.elements(), other.elements()),
    ;

    fn div(self, other: Self) -> (r: Self)
        ensures
            r.elements() == Self::div_spec(self.elements(), other.elements()),
    ;

    /// `self * c` for a scalar `c`.
    fn mul_scalar(self, c: u32) -> (r: Self)
        ensures
            r.elements() == Self::mul_scalar_spec(self.elements(), c),
    ;

    /// `self / c` for a scalar `c`.
    fn div_scalar(self, c: u32) -> (r: Self)
        ensures
            r.elements() == Self::div_scalar_spec(self.elements(), c),
    ;

    /// The square root of a scalar.
    fn sqrt(x: u32) -> (r: u32)
        ensures
            r == Self::sqrt_spec(x),
    ;

    /// The difference of two scalars.
    fn scalar_sub(x: u32, y: u32) -> (r: u32)
        ensures
            r == Self::scalar_sub_spec(x, y),
    ;
}

/// A dense vector that can be built from and read back as a sequence of
/// elements, with an inner product and a Euclidean distance.
pub trait Vector: VectorArithmetic {
    spec fn dot_spec(a: Seq<u32>, b: Seq<u32>) -> u32;

    spec fn distance_spec(a: Seq<u32>, b: Seq<u32>) -> u32;

    /// Builds a vector from a sequence of elements, `+0.0` standing in for
    /// what the sequence lacks and what it has too much being dropped.
    fn from_iter(elts: Vec<u32>) -> (r: Self)
        ensures
            r.elements() == crate::simd::vec::pad_or_truncate(elts@, Self::dimension_spec()),
    ;

    /// The elements in canonical order.
    fn to_vec(&self) -> (v: Vec<u32>)
        ensures
            v@ == self.elements(),
    ;

    /// The Euclidean distance to `other`.
    fn distance(&self, other: &Self) -> (r: u32)
        ensures
            r == Self::distance_spec(self.elements(), other.elements()),
    ;

    /// The inner product with `other`.
    fn dot(&self, other: &Self) -> (r: u32)
        ensures
            r == Self::dot_spec(self.elements(), other.elements()),
    ;

    /// The number of elements, or `usize::MAX` where that does not fit.
    fn dimension(&self) -> (d: usize)
        ensures
            d == if Self::dimension_spec() <= usize::MAX {
                Self::dimension_spec()
            } else {
                usize::MAX as nat
            },
    ;
}

} // verus!
