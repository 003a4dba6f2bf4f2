//! The lane-packed primitive: a register of single-precision lanes with
//! element-wise arithmetic, fused multiply-add and a horizontal sum.

use vstd::prelude::*;
use vstd::std_specs::cmp::PartialEqSpecImpl;

verus! {

/// The first `n` entries of `s`.
pub open spec fn leading(n: nat, s: Seq<u32>) -> Seq<u32> {
    Seq::new(n, |i: int| s[i])
}

/// A native register of four or eight single-precision lanes.
///
/// This is the one place where floating-point hardware enters the library,
/// and nothing here is proved of an implementation: the contracts below are
/// what the library assumes of it.  Lanes are exchanged as IEEE-754 bit
/// patterns.  `setzero`, `load` and `extract` move bit patterns unchanged.
/// Each arithmetic method names the lanes of its result with the matching
/// `*_bits` function, which claims only that they are determined by the
/// lanes of the operands.
///
/// The spec functions have a default body, which is never unfolded, so that
/// an implementation written outside the verifier need not mention them; for
/// such an implementation each name stands for what the method of the same
/// name computes.
pub trait SimdNativeType: Copy + Sized {
    /// Number of lanes in the register.
    closed spec fn lanes_spec() -> nat {
        vstd::pervasive::arbitrary()
    }

    /// The bit pattern of lane `i` at index `i`.
    closed spec fn bits(self) -> Seq<u32> {
        vstd::pervasive::arbitrary()
    }

    closed spec fn add_bits(a: Seq<u32>, b: Seq<u32>) -> Seq<u32> {
        vstd::pervasive::arbitrary()
    }

    closed spec fn sub_bits(a: Seq<u32>, b: Seq<u32>) -> Seq<u32> {
        vstd::pervasive::arbitrary()
    }

    closed spec fn mul_bits(a: Seq<u32>, b: Seq<u32>) -> Seq<u32> {
        vstd::pervasive::arbitrary()
    }

    closed spec fn div_bits(a: Seq<u32>, b: Seq<u32>) -> Seq<u32> {
        vstd::pervasive::arbitrary()
    }

    /// `a * b + c` with a single rounding per lane.
    closed spec fn fmadd_bits(a: Seq<u32>, b: Seq<u32>, c: Seq<u32>) -> Seq<u32> {
        vstd::pervasive::arbitrary()
    }

    /// `sum` plus the horizontal sum of the lanes `a`.
    closed spec fn reduce_add_bits(a: Seq<u32>, sum: u32) -> u32 {
        vstd::pervasive::arbitrary()
    }

    /// Every lane of `a` multiplied by the scalar `c`.
    closed spec fn scale_bits(a: Seq<u32>, c: u32) -> Seq<u32> {
        vstd::pervasive::arbitrary()
    }

    closed spec fn scalar_sqrt_spec(x: u32) -> u32 {
        vstd::pervasive::arbitrary()
    }

    closed spec fn scalar_sub_spec(x: u32, y: u32) -> u32 {
        vstd::pervasive::arbitrary()
    }

    closed spec fn scalar_div_spec(x: u32, y: u32) -> u32 {
        vstd::pervasive::arbitrary()
    }

    fn lanes() -> (n: usize)
        ensures
            n == Self::lanes_spec(),
            n == 4 || n == 8,
    ;

    /// All lanes `+0.0`.
    fn setzero() -> (r: Self)
        ensures
            leading(Self::lanes_spec(), r.bits()) == Seq::new(Self::lanes_spec(), |i: int| 0u32),
    ;

    /// Loads `elts[i]` into lane `i`.
    fn load(elts: &Vec<u32>) -> (r: Self)
        requires
            elts@.len() == Self::lanes_spec(),
        ensures
            leading(Self::lanes_spec(), r.bits()) == elts@,
    ;

    /// Reads lane `i`.
    fn extract(self, i: usize) -> (w: u32)
        requires
            i < Self::lanes_spec(),
        ensures
            w == self.bits()[i as int],
    ;

    fn add(self, rhs: Self) -> (r: Self)
        ensures
            leading(Self::lanes_spec(), r.bits()) == Self::add_bits(
                leading(Self::lanes_spec(), self.bits()),
                leading(Self::lanes_spec(), rhs.bits()),
            ),
    ;

    fn sub(self, rhs: Self) -> (r: Self)
        ensures
            leading(Self::lanes_spec(), r.bits()) == Self::sub_bits(
                leading(Self::lanes_spec(), self.bits()),
                leading(Self::lanes_spec(), rhs.bits()),
            ),
    ;

    fn mul(self, rhs: Self) -> (r: Self)
        ensures
            leading(Self::lanes_spec(), r.bits()) == Self::mul_bits(
                leading(Self::lanes_spec(), self.bits()),
                leading(Self::lanes_spec(), rhs.bits()),
            ),
    ;

    fn div(self, rhs: Self) -> (r: Self)
        ensures
            leading(Self::lanes_spec(), r.bits()) == Self::div_bits(
                leading(Self::lanes_spec(), self.bits()),
                leading(Self::lanes_spec(), rhs.bits()),
            ),
    ;

    fn fmadd(self, b: Self, c: Self) -> (r: Self)
        ensures
            leading(Self::lanes_spec(), r.bits()) == Self::fmadd_bits(
                leading(Self::lanes_spec(), self.bits()),
                leading(Self::lanes_spec(), b.bits()),
                leading(Self::lanes_spec(), c.bits()),
            ),
    ;

    fn reduce_add(self, sum: u32) -> (r: u32)
        ensures
            r == Self::reduce_add_bits(leading(Self::lanes_spec(), self.bits()), sum),
    ;

    fn scale(self, c: u32) -> (r: Self)
        ensures
            leading(Self::lanes_spec(), r.bits()) == Self::scale_bits(
                leading(Self::lanes_spec(), self.bits()),
                c,
            ),
    ;

    fn scalar_sqrt(x: u32) -> (r: u32)
        ensures
            r == Self::scalar_sqrt_spec(x),
    ;

    fn scalar_sub(x: u32, y: u32) -> (r: u32)
        ensures
            r == Self::scalar_sub_spec(x, y),
    ;

    fn scalar_div(x: u32, y: u32) -> (r: u32)
        ensures
            r == Self::scalar_div_spec(x, y),
    ;
}

/// The lanes of a native register: exactly `lanes_spec()` bit patterns.
pub open spec fn lanes_of<N: SimdNativeType>(x: N) -> Seq<u32> {
    leading(N::lanes_spec(), x.bits())
}

/// Fused multiply-add: `self * b + c` in one lane-parallel step.
pub trait FusedMulAdd: Sized {
    /// The lanes' bit patterns, lane 0 first.
    spec fn lane_bits(self) -> Seq<u32>;

    /// The lanes of `a * b + c`.
    spec fn fmadd_spec(a: Seq<u32>, b: Seq<u32>, c: Seq<u32>) -> Seq<u32>;

    fn fmadd(self, b: Self, c: Self) -> (r: Self)
        ensures
            r.lane_bits() == Self::fmadd_spec(self.lane_bits(), b.lane_bits(), c.lane_bits()),
    ;
}

/// The lane-packed element type that a fixed-dimension vector is built from.
///
/// Elements are single-precision values held as IEEE-754 bit patterns, and a
/// chunk is described by `lane_bits`, the patterns of its lanes.
pub trait SimdType: Copy + Sized + FusedMulAdd {
    /// Number of lanes, `LANES` in prose.
    spec fn lanes_spec() -> nat;

    spec fn add_spec(a: Seq<u32>, b: Seq<u32>) -> Seq<u32>;

    spec fn sub_spec(a: Seq<u32>, b: Seq<u32>) -> Seq<u32>;

    spec fn mul_spec(a: Seq<u32>, b: Seq<u32>) -> Seq<u32>;

    spec fn div_spec(a: Seq<u32>, b: Seq<u32>) -> Seq<u32>;

    /// `sum += chunk`: `sum` plus the horizontal sum of the lanes.
    spec fn accumulate_spec(sum: u32, chunk: Seq<u32>) -> u32;

    /// `c * chunk`: every lane multiplied by the scalar `c`.
    spec fn scale_spec(c: u32, chunk: Seq<u32>) -> Seq<u32>;

    spec fn element_sqrt_spec(x: u32) -> u32;

    spec fn element_sub_spec(x: u32, y: u32) -> u32;

    spec fn element_div_spec(x: u32, y: u32) -> u32;

    /// A chunk has exactly `lanes_spec()` lanes.
    proof fn lemma_lane_bits_len(self)
        ensures
            self.lane_bits().len() == Self::lanes_spec(),
    ;

    fn lanes() -> (n: usize)
        ensures
            n == Self::lanes_spec(),
            n == 4 || n == 8,
    ;

    /// The chunk whose lanes are all `+0.0`.
    fn zero() -> (r: Self)
        ensures
            r.lane_bits() == Seq::new(Self::lanes_spec(), |i: int| 0u32),
    ;

    /// Packs exactly `LANES` elements into a chunk, `elts[i]` into lane `i`.
    fn pack(elts: &Vec<u32>) -> (r: Self)
        requires
            elts@.len() == Self::lanes_spec(),
        ensures
            r.lane_bits() == elts@,
    ;

    /// Reads lane `i`.
    fn lane(self, i: usize) -> (w: u32)
        requires
            i < Self::lanes_spec(),
        ensures
            w == self.lane_bits()[i as int],
    ;

    /// Equality of chunks: every lane bit-equal.
    fn bit_eq(self, other: Self) -> (b: bool)
        ensures
            b <==> self.lane_bits() == other.lane_bits(),
    ;

    fn add(self, rhs: Self) -> (r: Self)
        ensures
            r.lane_bits() == Self::add_spec(self.lane_bits(), rhs.lane_bits()),
    ;

    fn sub(self, rhs: Self) -> (r: Self)
        ensures
            r.lane_bits() == Self::sub_spec(self.lane_bits(), rhs.lane_bits()),
    ;

    fn mul(self, rhs: Self) -> (r: Self)
        ensures
            r.lane_bits() == Self::mul_spec(self.lane_bits(), rhs.lane_bits()),
    ;

    fn div(self, rhs: Self) -> (r: Self)
        ensures
            r.lane_bits() == Self::div_spec(self.lane_bits(), rhs.lane_bits()),
    ;

    fn accumulate(sum: u32, chunk: Self) -> (r: u32)
        ensures
            r == Self::accumulate_spec(sum, chunk.lane_bits()),
    ;

    fn scale(c: u32, chunk: Self) -> (r: Self)
        ensures
            r.lane_bits() == Self::scale_spec(c, chunk.lane_bits()),
    ;

    fn element_sqrt(x: u32) -> (r: u32)
        ensures
            r == Self::element_sqrt_spec(x),
    ;

    fn element_sub(x: u32, y: u32) -> (r: u32)
        ensures
            r == Self::element_sub_spec(x, y),
    ;

    fn element_div(x: u32, y: u32) -> (r: u32)
        ensures
            r == Self::element_div_spec(x, y),
    ;
}

/// Why some elements do not make a chunk.
#[derive(Clone, Copy, Debug, PartialEq, Eq, Structural)]
pub struct PackError {
    /// The number of lanes of the chunk.
    pub expected: usize,
    /// The number of elements offered.
    pub found: usize,
}

/// Packs `elts` into a chunk when there are exactly as many as the chunk has
/// lanes, and says how many there should have been when not.
pub fn try_pack<T: SimdType>(elts: &Vec<u32>) -> (r: Result<T, PackError>)
    ensures
        match r {
            Ok(chunk) => elts@.len() == T::lanes_spec() && chunk.lane_bits() == elts@,
            Err(e) => elts@.len() != T::lanes_spec() && e.expected == T::lanes_spec() && e.found
                == elts@.len(),
        },
{
    let lanes: usize = T::lanes();
    if elts.len() == lanes {
        Ok(T::pack(elts))
    } else {
        Err(PackError { expected: lanes, found: elts.len() })
    }
}

/// A native register wrapped so that it carries the library's lane
/// operations.
#[derive(Debug, Copy, Clone)]
pub struct SimdTypeProxy<T: SimdNativeType>(pub T);

impl<T: SimdNativeType> SimdTypeProxy<T> {
    pub fn new(x: T) -> (r: Self)
        ensures
            r.0 == x,
    {
        SimdTypeProxy(x)
    }
}

impl<T: SimdNativeType> PartialEq for SimdTypeProxy<T> {
    /// Equality of chunks: every lane bit-equal.
    fn eq(&self, other: &Self) -> (b: bool) {
        self.bit_eq(*other)
    }
}

impl<T: SimdNativeType> PartialEqSpecImpl for SimdTypeProxy<T> {
    open spec fn obeys_eq_spec() -> bool {
        true
    }

    open spec fn eq_spec(&self, other: &Self) -> bool {
        self.lane_bits() == other.lane_bits()
    }
}

impl<T: SimdNativeType> FusedMulAdd for SimdTypeProxy<T> {
    open spec fn lane_bits(self) -> Seq<u32> {
        lanes_of(self.0)
    }

    open spec fn fmadd_spec(a: Seq<u32>, b: Seq<u32>, c: Seq<u32>) -> Seq<u32> {
        T::fmadd_bits(a, b, c)
    }

    fn fmadd(self, b: Self, c: Self) -> (r: Self) {
        SimdTypeProxy(self.0.fmadd(b.0, c.0))
    }
}

impl<T: SimdNativeType> SimdType for SimdTypeProxy<T> {
    open spec fn lanes_spec() -> nat {
        T::lanes_spec()
    }

    open spec fn add_spec(a: Seq<u32>, b: Seq<u32>) -> Seq<u32> {
        T::add_bits(a, b)
    }

    open spec fn sub_spec(a: Seq<u32>, b: Seq<u32>) -> Seq<u32> {
        T::sub_bits(a, b)
    }

    open spec fn mul_spec(a: Seq<u32>, b: Seq<u32>) -> Seq<u32> {
        T::mul_bits(a, b)
    }

    open spec fn div_spec(a: Seq<u32>, b: Seq<u32>) -> Seq<u32> {
        T::div_bits(a, b)
    }

    open spec fn accumulate_spec(sum: u32, chunk: Seq<u32>) -> u32 {
        T::reduce_add_bits(chunk, sum)
    }

    open spec fn scale_spec(c: u32, chunk: Seq<u32>) -> Seq<u32> {
        T::scale_bits(chunk, c)
    }

    open spec fn element_sqrt_spec(x: u32) -> u32 {
        T::scalar_sqrt_spec(x)
    }

    open spec fn element_sub_spec(x: u32, y: u32) -> u32 {
        T::scalar_sub_spec(x, y)
    }

    open spec fn element_div_spec(x: u32, y: u32) -> u32 {
        T::scalar_div_spec(x, y)
    }

    proof fn lemma_lane_bits_len(self) {
    }

    fn lanes() -> (n: usize) {
        T::lanes()
    }

    fn zero() -> (r: Self) {
        SimdTypeProxy(T::setzero())
    }

    fn pack(elts: &Vec<u32>) -> (r: Self) {
        SimdTypeProxy(T::load(elts))
    }

    fn lane(self, i: usize) -> (w: u32) {
        self.0.extract(i)
    }

    fn bit_eq(self, other: Self) -> (b: bool) {
        let n: usize = T::lanes();
        let mut i: usize = 0;
        while i < n
            invariant
                i <= n,
                n == T::lanes_spec(),
                forall|k: int| 0 <= k < i ==> self.0.bits()[k] == other.0.bits()[k],
            decreases n - i,
        {
            if self.0.extract(i) != other.0.extract(i) {
                assert(self.lane_bits()[i as int] != other.lane_bits()[i as int]);
                return false;
            }
            i += 1;
        }
        assert(self.lane_bits() =~= other.lane_bits());
        true
    }

    fn add(self, rhs: Self) -> (r: Self) {
        SimdTypeProxy(self.0.add(rhs.0))
    }

    fn sub(self, rhs: Self) -> (r: Self) {
        SimdTypeProxy(self.0.sub(rhs.0))
    }

    fn mul(self, rhs: Self) -> (r: Self) {
        SimdTypeProxy(self.0.mul(rhs.0))
    }

    fn div(self, rhs: Self) -> (r: Self) {
        SimdTypeProxy(self.0.div(rhs.0))
    }

    fn accumulate(sum: u32, chunk: Self) -> (r: u32) {
        chunk.0.reduce_add(sum)
    }

    fn scale(c: u32, chunk: Self) -> (r: Self) {
        SimdTypeProxy(chunk.0.scale(c))
    }

    fn element_sqrt(x: u32) -> (r: u32) {
        T::scalar_sqrt(x)
    }

    fn element_sub(x: u32, y: u32) -> (r: u32) {
        T::scalar_sub(x, y)
    }

    fn element_div(x: u32, y: u32) -> (r: u32) {
        T::scalar_div(x, y)
    }
}

} // verus!
