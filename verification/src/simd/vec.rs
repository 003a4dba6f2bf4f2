//! The fixed-dimension vector: an array of lane-packed chunks.

use crate::lsh::lsh_database::Cacheable;
use crate::lsh::vector::{Vector, VectorArithmetic};
use crate::simd::base::SimdType;
use crate::simd::murmur::murmur3_x64_128;
use crate::simd::single::ONE_BITS;
use vstd::prelude::*;
use vstd::std_specs::cmp::PartialEqSpecImpl;

verus! {

/// The elements held by a run of chunks, chunk-major and lane-minor.
pub open spec fn elements_of<T: SimdType>(chunks: Seq<T>) -> Seq<u32> {
    Seq::new(
        chunks.len() * T::lanes_spec(),
        |k: int| chunks[k / T::lanes_spec() as int].lane_bits()[k % T::lanes_spec() as int],
    )
}

/// The first `d` elements of `s`, with `+0.0` standing in for every element
/// that `s` does not have.
pub open spec fn pad_or_truncate(s: Seq<u32>, d: nat) -> Seq<u32> {
    Seq::new(
        d,
        |k: int|
            if k < s.len() {
                s[k]
            } else {
                0u32
            },
    )
}

/// The four element-wise operations on chunks.
#[derive(Clone, Copy, Debug, PartialEq, Eq, Structural)]
pub enum LaneOp {
    Add,
    Sub,
    Mul,
    Div,
}

/// The lanes of chunk `i` of a vector with the elements `elts`.
pub open spec fn chunk_bits<T: SimdType>(elts: Seq<u32>, i: int) -> Seq<u32> {
    Seq::new(T::lanes_spec(), |l: int| elts[i * T::lanes_spec() + l])
}

/// A chunk of `+0.0` lanes.
pub open spec fn zero_bits<T: SimdType>() -> Seq<u32> {
    Seq::new(T::lanes_spec(), |l: int| 0u32)
}

/// What `op` makes of the chunks `a` and `b`.
pub open spec fn lane_op_spec<T: SimdType>(op: LaneOp, a: Seq<u32>, b: Seq<u32>) -> Seq<u32> {
    match op {
        LaneOp::Add => T::add_spec(a, b),
        LaneOp::Sub => T::sub_spec(a, b),
        LaneOp::Mul => T::mul_spec(a, b),
        LaneOp::Div => T::div_spec(a, b),
    }
}

/// The elements of the vector whose chunk `i` is `op` applied to chunk `i`
/// of `a` and of `b`.
pub open spec fn lanewise<T: SimdType>(op: LaneOp, a: Seq<u32>, b: Seq<u32>) -> Seq<u32> {
    Seq::new(
        a.len(),
        |k: int|
            lane_op_spec::<T>(
                op,
                chunk_bits::<T>(a, k / T::lanes_spec() as int),
                chunk_bits::<T>(b, k / T::lanes_spec() as int),
            )[k % T::lanes_spec() as int],
    )
}

/// The elements of the vector whose chunk `i` is chunk `i` of `a` scaled by
/// `c`.
pub open spec fn scaled<T: SimdType>(c: u32, a: Seq<u32>) -> Seq<u32> {
    Seq::new(
        a.len(),
        |k: int|
            T::scale_spec(c, chunk_bits::<T>(a, k / T::lanes_spec() as int))[k
                % T::lanes_spec() as int],
    )
}

/// One accumulator update of a reduction over chunk pairs: a fused
/// multiply-add for the dot product, the squared difference added to the
/// accumulator for the squared distance.
pub open spec fn step_spec<T: SimdType>(
    squared: bool,
    a: Seq<u32>,
    b: Seq<u32>,
    acc: Seq<u32>,
) -> Seq<u32> {
    if squared {
        T::add_spec(T::mul_spec(T::sub_spec(a, b), T::sub_spec(a, b)), acc)
    } else {
        T::fmadd_spec(a, b, acc)
    }
}

/// Accumulator `k` of four after the first `n` chunk pairs of the vectors
/// with elements `x` and `y`, where pair `j` is fed to accumulator `j % 4`.
pub open spec fn strided_acc<T: SimdType>(
    squared: bool,
    x: Seq<u32>,
    y: Seq<u32>,
    k: int,
    n: nat,
) -> Seq<u32>
    decreases n,
{
    if n == 0 {
        zero_bits::<T>()
    } else {
        let prev = strided_acc::<T>(squared, x, y, k, (n - 1) as nat);
        if (n - 1) % 4 == k {
            step_spec::<T>(squared, chunk_bits::<T>(x, n - 1), chunk_bits::<T>(y, n - 1), prev)
        } else {
            prev
        }
    }
}

/// The four accumulators summed pairwise, then reduced horizontally into a
/// scalar that starts at `+0.0`.
pub open spec fn reduce_four<T: SimdType>(
    a0: Seq<u32>,
    a1: Seq<u32>,
    a2: Seq<u32>,
    a3: Seq<u32>,
) -> u32 {
    T::accumulate_spec(0u32, T::add_spec(T::add_spec(a0, a1), T::add_spec(a2, a3)))
}

/// The reduction of the first `blocks` chunk pairs of `x` and `y` through
/// four accumulators.
pub open spec fn reduction_of<T: SimdType>(
    squared: bool,
    x: Seq<u32>,
    y: Seq<u32>,
    blocks: nat,
) -> u32 {
    reduce_four::<T>(
        strided_acc::<T>(squared, x, y, 0, blocks),
        strided_acc::<T>(squared, x, y, 1, blocks),
        strided_acc::<T>(squared, x, y, 2, blocks),
        strided_acc::<T>(squared, x, y, 3, blocks),
    )
}

/// The inner product of two vectors of `blocks` chunks.
pub open spec fn dot_of<T: SimdType>(x: Seq<u32>, y: Seq<u32>, blocks: nat) -> u32 {
    reduction_of::<T>(false, x, y, blocks)
}

/// The Euclidean distance between two vectors of `blocks` chunks.
pub open spec fn distance_of<T: SimdType>(x: Seq<u32>, y: Seq<u32>, blocks: nat) -> u32 {
    T::element_sqrt_spec(reduction_of::<T>(true, x, y, blocks))
}

/// Pairs up two slices of equal length with `itertools::zip_eq`, which walks
/// both in step and panics when one ends before the other: element `i` of the
/// result is `(a[i], b[i])`.
#[verifier::external_body]
fn zip_eq<T: Copy>(a: &[T], b: &[T]) -> (r: Vec<(T, T)>)
    requires
        a@.len() == b@.len(),
    ensures
        r@.len() == a@.len(),
        forall|i: int| 0 <= i < a@.len() ==> r@[i] == (a@[i], b@[i]),
{
    itertools::zip_eq(a.iter().copied(), b.iter().copied()).collect()
}

/// A vector of `MMBLOCKS * LANES` single-precision elements.
#[derive(Debug)]
pub struct SimdVecImpl<T: SimdType, const MMBLOCKS: usize> {
    chunks: [T; MMBLOCKS],
}

impl<T: SimdType, const MMBLOCKS: usize> View for SimdVecImpl<T, MMBLOCKS> {
    type V = Seq<u32>;

    /// The elements in canonical order.
    open spec fn view(&self) -> Seq<u32> {
        elements_of(self.chunk_seq())
    }
}

/// Walks the elements of a vector in canonical order.
pub struct SimdVecImplElementIterator<'a, T: SimdType, const MMBLOCKS: usize> {
    obj: &'a SimdVecImpl<T, MMBLOCKS>,
    chunk: usize,
    lane: usize,
}

impl<'a, T: SimdType, const MMBLOCKS: usize> SimdVecImplElementIterator<'a, T, MMBLOCKS> {
    #[verifier::type_invariant]
    spec fn inv(&self) -> bool {
        &&& self.chunk <= MMBLOCKS
        &&& self.chunk < MMBLOCKS ==> self.lane < T::lanes_spec()
        &&& self.chunk == MMBLOCKS ==> self.lane == 0
    }

    /// The elements of the vector being walked.
    pub closed spec fn source(&self) -> Seq<u32> {
        self.obj@
    }

    /// How many elements have been handed out.
    pub closed spec fn position(&self) -> nat {
        self.chunk as nat * T::lanes_spec() + self.lane as nat
    }

    /// The next element, or `None` once all `D` have been handed out.
    pub fn next(&mut self) -> (r: Option<u32>)
        ensures
            final(self).source() == old(self).source(),
            match r {
                Some(w) => {
                    &&& old(self).position() < old(self).source().len()
                    &&& w == old(self).source()[old(self).position() as int]
                    &&& final(self).position() == old(self).position() + 1
                },
                None => {
                    &&& old(self).position() >= old(self).source().len()
                    &&& final(self).position() == old(self).position()
                },
            },
    {
        proof {
            use_type_invariant(&*self);
        }
        let lanes: usize = T::lanes();
        if self.chunk >= MMBLOCKS {
            assert(self.position() >= self.source().len()) by (nonlinear_arith)
                requires
                    self.position() == self.chunk as nat * T::lanes_spec() + self.lane as nat,
                    self.source().len() == MMBLOCKS as nat * T::lanes_spec(),
                    self.chunk >= MMBLOCKS,
            ;
            None
        } else {
            let w: u32 = self.obj.chunks[self.chunk].lane(self.lane);
            proof {
                let n = T::lanes_spec() as int;
                let k = self.chunk as int * n + self.lane as int;
                vstd::arithmetic::div_mod::lemma_fundamental_div_mod_converse(
                    k,
                    n,
                    self.chunk as int,
                    self.lane as int,
                );
                assert(k < MMBLOCKS * n) by (nonlinear_arith)
                    requires
                        k == self.chunk as int * n + self.lane as int,
                        self.chunk < MMBLOCKS,
                        self.lane < n,
                ;
                assert(self.source()[k] == w);
            }
            if self.lane + 1 == lanes {
                assert((self.chunk + 1) * lanes == self.chunk * lanes + self.lane + 1)
                    by (nonlinear_arith)
                    requires
                        self.lane + 1 == lanes,
                ;
                self.lane = 0;
                self.chunk = self.chunk + 1;
            } else {
                self.lane = self.lane + 1;
            }
            Some(w)
        }
    }
}

/// Walks the chunks of a vector in groups of four.
pub struct SimdVecImplIterator<'a, T: SimdType, const MMBLOCKS: usize> {
    obj: &'a SimdVecImpl<T, MMBLOCKS>,
    cur: usize,
}

impl<'a, T: SimdType, const MMBLOCKS: usize> SimdVecImplIterator<'a, T, MMBLOCKS> {
    /// The chunks of the vector being walked.
    pub closed spec fn source(&self) -> Seq<T> {
        self.obj.chunk_seq()
    }

    /// How many chunks have been handed out.
    pub closed spec fn position(&self) -> nat {
        self.cur as nat
    }

    /// The next four chunks, or `None` when fewer than four are left.
    pub fn next(&mut self) -> (r: Option<(T, T, T, T)>)
        ensures
            final(self).source() == old(self).source(),
            match r {
                Some(g) => {
                    let at = old(self).position() as int;
                    &&& at + 4 <= MMBLOCKS
                    &&& g.0 == old(self).source()[at]
                    &&& g.1 == old(self).source()[at + 1]
                    &&& g.2 == old(self).source()[at + 2]
                    &&& g.3 == old(self).source()[at + 3]
                    &&& final(self).position() == at + 4
                },
                None => {
                    &&& old(self).position() + 4 > MMBLOCKS
                    &&& final(self).position() == old(self).position()
                },
            },
    {
        if self.cur <= MMBLOCKS && MMBLOCKS - self.cur >= 4 {
            let arr = &self.obj.chunks;
            let g = (arr[self.cur], arr[self.cur + 1], arr[self.cur + 2], arr[self.cur + 3]);
            self.cur = self.cur + 4;
            Some(g)
        } else {
            None
        }
    }
}

impl<T: SimdType, const MMBLOCKS: usize> SimdVecImpl<T, MMBLOCKS> {
    /// The chunks in order; always `MMBLOCKS` of them.
    pub closed spec fn chunk_seq(&self) -> Seq<T> {
        self.chunks@
    }

    /// The number of elements, `D`.
    pub open spec fn dimension_spec() -> nat {
        MMBLOCKS as nat * T::lanes_spec()
    }

    pub proof fn lemma_chunk_count(&self)
        ensures
            self.chunk_seq().len() == MMBLOCKS,
            self@.len() == Self::dimension_spec(),
    {
    }

    /// The lanes of chunk `i` are the elements `i * LANES ..`.
    pub proof fn lemma_chunk_lanes(&self, i: int)
        requires
            T::lanes_spec() > 0,
            0 <= i < MMBLOCKS,
        ensures
            self.chunk_seq()[i].lane_bits() == chunk_bits::<T>(self@, i),
    {
        lemma_chunk_bits(self.chunk_seq(), i);
    }

    /// The zero vector.
    pub fn new() -> (r: Self)
        ensures
            r@ == Seq::new(Self::dimension_spec(), |k: int| 0u32),
    {
        let lanes: usize = T::lanes();
        let chunks: [T; MMBLOCKS] = [T::zero(); MMBLOCKS];
        let r = SimdVecImpl::<T, MMBLOCKS> { chunks };
        proof {
            lemma_elements_by_chunk(
                r.chunk_seq(),
                Seq::new(Self::dimension_spec(), |k: int| 0u32),
            );
        }
        r
    }

    /// Replaces chunk `idx`.
    pub fn set_chunk(&mut self, idx: usize, data: T)
        requires
            idx < MMBLOCKS,
        ensures
            final(self).chunk_seq() == old(self).chunk_seq().update(idx as int, data),
    {
        self.chunks[idx] = data;
    }

    /// Reads chunk `idx`.
    pub fn chunk(&self, idx: usize) -> (c: T)
        requires
            idx < MMBLOCKS,
        ensures
            c == self.chunk_seq()[idx as int],
    {
        self.chunks[idx]
    }

    /// Builds a vector from a sequence of elements: the chunks are filled in
    /// order, missing elements are `+0.0`, and elements beyond the dimension
    /// are dropped.
    pub fn from_iter(elts: Vec<u32>) -> (r: Self)
        ensures
            r@ == pad_or_truncate(elts@, Self::dimension_spec()),
    {
        let lanes: usize = T::lanes();
        let mut result = Self::new();
        let mut taken: usize = 0;
        let mut c: usize = 0;
        while c < MMBLOCKS
            invariant
                c <= MMBLOCKS,
                lanes == T::lanes_spec(),
                lanes > 0,
                taken <= elts.len(),
                taken as int == if c * lanes <= elts.len() {
                    c * lanes
                } else {
                    elts.len() as int
                },
                result.chunk_seq().len() == MMBLOCKS,
                forall|i: int, l: int|
                    0 <= i < c && 0 <= l < lanes ==> #[trigger] result.chunk_seq()[i].lane_bits()[l]
                        == pad_or_truncate(elts@, Self::dimension_spec())[i * lanes + l],
            decreases MMBLOCKS - c,
        {
            let mut chunk_vec: Vec<u32> = Vec::new();
            let mut l: usize = 0;
            proof {
                assert(c * lanes + lanes == (c + 1) * lanes) by (nonlinear_arith);
                assert((c + 1) * lanes <= MMBLOCKS * lanes) by (nonlinear_arith)
                    requires
                        c + 1 <= MMBLOCKS,
                        lanes > 0,
                ;
            }
            while l < lanes
                invariant
                    l <= lanes,
                    c < MMBLOCKS,
                    lanes == T::lanes_spec(),
                    c * lanes + lanes <= MMBLOCKS * lanes,
                    taken <= elts.len(),
                    chunk_vec@.len() == l,
                    taken as int == if c * lanes + l <= elts.len() {
                        c * lanes + l
                    } else {
                        elts.len() as int
                    },
                    forall|j: int|
                        0 <= j < l ==> #[trigger] chunk_vec@[j] == pad_or_truncate(
                            elts@,
                            Self::dimension_spec(),
                        )[c * lanes + j],
                decreases lanes - l,
            {
                if taken < elts.len() {
                    chunk_vec.push(elts[taken]);
                    taken += 1;
                } else {
                    chunk_vec.push(0u32);
                }
                l += 1;
            }
            let ghost before = result.chunk_seq();
            result.set_chunk(c, T::pack(&chunk_vec));
            assert forall|i: int, l: int| 0 <= i < c + 1 && 0 <= l < lanes
                implies #[trigger] result.chunk_seq()[i].lane_bits()[l]
                == pad_or_truncate(elts@, Self::dimension_spec())[i * lanes + l] by {
                if i < c {
                    assert(result.chunk_seq()[i] == before[i]);
                }
            }
            c += 1;
        }
        proof {
            lemma_elements_by_chunk(
                result.chunk_seq(),
                pad_or_truncate(elts@, Self::dimension_spec()),
            );
        }
        result
    }

    /// An iterator over the elements, in canonical order.
    pub fn iter<'a>(&'a self) -> (it: SimdVecImplElementIterator<'a, T, MMBLOCKS>)
        ensures
            it.source() == self@,
            it.position() == 0,
    {
        let lanes: usize = T::lanes();
        SimdVecImplElementIterator { obj: self, chunk: 0, lane: 0 }
    }

    /// An iterator over the chunks, four at a time.
    pub fn chunk_iter<'a>(&'a self) -> (it: SimdVecImplIterator<'a, T, MMBLOCKS>)
        ensures
            it.source() == self.chunk_seq(),
            it.position() == 0,
    {
        SimdVecImplIterator { obj: self, cur: 0 }
    }

    /// All `D` elements in canonical order.
    pub fn to_vec(&self) -> (v: Vec<u32>)
        ensures
            v@ == self@,
    {
        let mut v: Vec<u32> = Vec::new();
        let mut it = self.iter();
        loop
            invariant
                it.source() == self@,
                it.position() == v@.len(),
                it.position() <= self@.len(),
                forall|k: int| 0 <= k < v@.len() ==> v@[k] == self@[k],
            ensures
                v@.len() == self@.len(),
            decreases self@.len() - it.position(),
        {
            match it.next() {
                Some(w) => {
                    v.push(w);
                },
                None => {
                    break ;
                },
            }
        }
        assert(v@ =~= self@);
        v
    }

    /// The number of elements, or `usize::MAX` where that number does not fit.
    pub fn dimension(&self) -> (d: usize)
        ensures
            d == if Self::dimension_spec() <= usize::MAX {
                Self::dimension_spec()
            } else {
                usize::MAX as nat
            },
    {
        let lanes: usize = T::lanes();
        match MMBLOCKS.checked_mul(lanes) {
            Some(d) => d,
            None => usize::MAX,
        }
    }

    /// Equality of vectors: every chunk bit-equal, which is to say every
    /// element bit-equal.
    pub fn equals(&self, other: &Self) -> (b: bool)
        ensures
            b <==> self@ == other@,
    {
        let lanes: usize = T::lanes();
        let pairs = zip_eq(self.chunks.as_slice(), other.chunks.as_slice());
        let mut all: bool = true;
        let mut i: usize = 0;
        while i < MMBLOCKS
            invariant
                i <= MMBLOCKS,
                pairs@.len() == MMBLOCKS,
                forall|j: int|
                    0 <= j < MMBLOCKS ==> #[trigger] pairs@[j] == (
                        self.chunk_seq()[j],
                        other.chunk_seq()[j],
                    ),
                all <==> forall|j: int|
                    0 <= j < i ==> (#[trigger] self.chunk_seq()[j]).lane_bits()
                        == other.chunk_seq()[j].lane_bits(),
            decreases MMBLOCKS - i,
        {
            let (x, y) = pairs[i];
            let same: bool = x.bit_eq(y);
            assert(pairs@[i as int] == (self.chunk_seq()[i as int], other.chunk_seq()[i as int]));
            all = all && same;
            i += 1;
        }
        proof {
            lemma_equal_by_chunk(self.chunk_seq(), other.chunk_seq());
        }
        all
    }

    /// Applies `op` to every pair of chunks.
    fn zip_with(&self, other: &Self, op: LaneOp) -> (r: Self)
        ensures
            r@ == lanewise::<T>(op, self@, other@),
    {
        let lanes: usize = T::lanes();
        let pairs = zip_eq(self.chunks.as_slice(), other.chunks.as_slice());
        let mut result = Self::new();
        let mut i: usize = 0;
        while i < MMBLOCKS
            invariant
                i <= MMBLOCKS,
                lanes == T::lanes_spec(),
                lanes > 0,
                pairs@.len() == MMBLOCKS,
                result.chunk_seq().len() == MMBLOCKS,
                forall|j: int|
                    0 <= j < MMBLOCKS ==> #[trigger] pairs@[j] == (
                        self.chunk_seq()[j],
                        other.chunk_seq()[j],
                    ),
                forall|j: int|
                    0 <= j < i ==>
                        (#[trigger] result.chunk_seq()[j]).lane_bits() == lane_op_spec::<T>(
                        op,
                        self.chunk_seq()[j].lane_bits(),
                        other.chunk_seq()[j].lane_bits(),
                    ),
            decreases MMBLOCKS - i,
        {
            let (a, b) = pairs[i];
            assert(pairs@[i as int] == (self.chunk_seq()[i as int], other.chunk_seq()[i as int]));
            let c = match op {
                LaneOp::Add => a.add(b),
                LaneOp::Sub => a.sub(b),
                LaneOp::Mul => a.mul(b),
                LaneOp::Div => a.div(b),
            };
            result.set_chunk(i, c);
            i += 1;
        }
        proof {
            let target = lanewise::<T>(op, self@, other@);
            let n = lanes as int;
            assert forall|j: int, l: int| 0 <= j < MMBLOCKS && 0 <= l < n
                implies #[trigger] result.chunk_seq()[j].lane_bits()[l]
                == target[j * n + l] by {
                lemma_flat_index(j, l, MMBLOCKS as int, n);
                self.lemma_chunk_lanes(j);
                other.lemma_chunk_lanes(j);
            }
            lemma_elements_by_chunk(result.chunk_seq(), target);
        }
        result
    }

    /// Element-wise sum.
    pub fn add(self, other: Self) -> (r: Self)
        ensures
            r@ == lanewise::<T>(LaneOp::Add, self@, other@),
    {
        self.zip_with(&other, LaneOp::Add)
    }

    /// Element-wise difference.
    pub fn sub(self, other: Self) -> (r: Self)
        ensures
            r@ == lanewise::<T>(LaneOp::Sub, self@, other@),
    {
        self.zip_with(&other, LaneOp::Sub)
    }

    /// Element-wise product.
    pub fn mul(self, other: Self) -> (r: Self)
        ensures
            r@ == lanewise::<T>(LaneOp::Mul, self@, other@),
    {
        self.zip_with(&other, LaneOp::Mul)
    }

    /// Element-wise quotient.
    pub fn div(self, other: Self) -> (r: Self)
        ensures
            r@ == lanewise::<T>(LaneOp::Div, self@, other@),
    {
        self.zip_with(&other, LaneOp::Div)
    }

    /// Every element multiplied by the scalar `c`.
    pub fn mul_scalar(self, c: u32) -> (r: Self)
        ensures
            r@ == scaled::<T>(c, self@),
    {
        let lanes: usize = T::lanes();
        let mut result = Self::new();
        let mut i: usize = 0;
        while i < MMBLOCKS
            invariant
                i <= MMBLOCKS,
                result.chunk_seq().len() == MMBLOCKS,
                self.chunk_seq().len() == MMBLOCKS,
                forall|j: int|
                    0 <= j < i ==> (#[trigger] result.chunk_seq()[j]).lane_bits() == T::scale_spec(
                        c,
                        self.chunk_seq()[j].lane_bits(),
                    ),
            decreases MMBLOCKS - i,
        {
            result.set_chunk(i, T::scale(c, self.chunks[i]));
            i += 1;
        }
        proof {
            let target = scaled::<T>(c, self@);
            let n = lanes as int;
            assert forall|j: int, l: int| 0 <= j < MMBLOCKS && 0 <= l < n
                implies #[trigger] result.chunk_seq()[j].lane_bits()[l]
                == target[j * n + l] by {
                lemma_flat_index(j, l, MMBLOCKS as int, n);
                self.lemma_chunk_lanes(j);
            }
            lemma_elements_by_chunk(result.chunk_seq(), target);
        }
        result
    }

    /// Every element divided by the scalar `c`, computed as a product with
    /// `1.0 / c`.
    pub fn div_scalar(self, c: u32) -> (r: Self)
        ensures
            r@ == scaled::<T>(T::element_div_spec(ONE_BITS, c), self@),
    {
        self.mul_scalar(T::element_div(ONE_BITS, c))
    }

    /// One accumulator update.
    fn step(squared: bool, a: T, b: T, acc: T) -> (r: T)
        ensures
            r.lane_bits() == step_spec::<T>(
                squared,
                a.lane_bits(),
                b.lane_bits(),
                acc.lane_bits(),
            ),
    {
        if squared {
            let delta = a.sub(b);
            delta.mul(delta).add(acc)
        } else {
            a.fmadd(b, acc)
        }
    }

    /// Feeds every chunk pair to one of four independent accumulators and
    /// reduces them to a scalar.
    fn reduce_pairs(&self, other: &Self, squared: bool) -> (r: u32)
        ensures
            r == reduction_of::<T>(squared, self@, other@, MMBLOCKS as nat),
    {
        let lanes: usize = T::lanes();
        let ghost x = self@;
        let ghost y = other@;
        let mut a0 = T::zero();
        let mut a1 = T::zero();
        let mut a2 = T::zero();
        let mut a3 = T::zero();
        let mut xs = self.chunk_iter();
        let mut ys = other.chunk_iter();
        loop
            invariant
                T::lanes_spec() > 0,
                x == self@,
                y == other@,
                xs.source() == self.chunk_seq(),
                ys.source() == other.chunk_seq(),
                xs.position() == ys.position(),
                xs.position() <= MMBLOCKS,
                xs.position() % 4 == 0,
                a0.lane_bits() == strided_acc::<T>(squared, x, y, 0, xs.position()),
                a1.lane_bits() == strided_acc::<T>(squared, x, y, 1, xs.position()),
                a2.lane_bits() == strided_acc::<T>(squared, x, y, 2, xs.position()),
                a3.lane_bits() == strided_acc::<T>(squared, x, y, 3, xs.position()),
            ensures
                xs.position() + 4 > MMBLOCKS,
            decreases MMBLOCKS - xs.position(),
        {
            let ghost at = xs.position();
            let gx = xs.next();
            let gy = ys.next();
            match (gx, gy) {
                (Some(p), Some(q)) => {
                    proof {
                        self.lemma_chunk_lanes(at as int);
                        self.lemma_chunk_lanes(at as int + 1);
                        self.lemma_chunk_lanes(at as int + 2);
                        self.lemma_chunk_lanes(at as int + 3);
                        other.lemma_chunk_lanes(at as int);
                        other.lemma_chunk_lanes(at as int + 1);
                        other.lemma_chunk_lanes(at as int + 2);
                        other.lemma_chunk_lanes(at as int + 3);
                        lemma_strided_group::<T>(squared, x, y, 0, at);
                        lemma_strided_group::<T>(squared, x, y, 1, at);
                        lemma_strided_group::<T>(squared, x, y, 2, at);
                        lemma_strided_group::<T>(squared, x, y, 3, at);
                    }
                    a0 = Self::step(squared, p.0, q.0, a0);
                    a1 = Self::step(squared, p.1, q.1, a1);
                    a2 = Self::step(squared, p.2, q.2, a2);
                    a3 = Self::step(squared, p.3, q.3, a3);
                },
                _ => {
                    break ;
                },
            }
        }
        let mut j: usize = MMBLOCKS - MMBLOCKS % 4;
        assert(j == xs.position());
        while j < MMBLOCKS
            invariant
                T::lanes_spec() > 0,
                x == self@,
                y == other@,
                MMBLOCKS - MMBLOCKS % 4 <= j <= MMBLOCKS,
                a0.lane_bits() == strided_acc::<T>(squared, x, y, 0, j as nat),
                a1.lane_bits() == strided_acc::<T>(squared, x, y, 1, j as nat),
                a2.lane_bits() == strided_acc::<T>(squared, x, y, 2, j as nat),
                a3.lane_bits() == strided_acc::<T>(squared, x, y, 3, j as nat),
            decreases MMBLOCKS - j,
        {
            let p = self.chunks[j];
            let q = other.chunks[j];
            proof {
                self.lemma_chunk_lanes(j as int);
                other.lemma_chunk_lanes(j as int);
                lemma_strided_next::<T>(squared, x, y, 0, j as nat);
                lemma_strided_next::<T>(squared, x, y, 1, j as nat);
                lemma_strided_next::<T>(squared, x, y, 2, j as nat);
                lemma_strided_next::<T>(squared, x, y, 3, j as nat);
            }
            let k: usize = j % 4;
            if k == 0 {
                a0 = Self::step(squared, p, q, a0);
            } else if k == 1 {
                a1 = Self::step(squared, p, q, a1);
            } else if k == 2 {
                a2 = Self::step(squared, p, q, a2);
            } else {
                a3 = Self::step(squared, p, q, a3);
            }
            j += 1;
        }
        let r1 = a0.add(a1);
        let r2 = a2.add(a3);
        T::accumulate(0u32, r1.add(r2))
    }

    /// The inner product, reduced through four independent accumulators
    /// that are updated by fused multiply-add.
    pub fn dot(&self, other: &Self) -> (r: u32)
        ensures
            r == dot_of::<T>(self@, other@, MMBLOCKS as nat),
    {
        self.reduce_pairs(other, false)
    }

    /// The Euclidean distance: the square root of the sum of squared
    /// differences, reduced through four independent accumulators.
    pub fn distance(&self, other: &Self) -> (r: u32)
        ensures
            r == distance_of::<T>(self@, other@, MMBLOCKS as nat),
    {
        T::element_sqrt(self.reduce_pairs(other, true))
    }
}

/// Where lane `l` of chunk `i` lies among the elements of `c` chunks of `n`
/// lanes each.
pub proof fn lemma_flat_index(i: int, l: int, c: int, n: int)
    requires
        0 <= i < c,
        0 <= l < n,
    ensures
        0 <= i * n + l < c * n,
        (i * n + l) / n == i,
        (i * n + l) % n == l,
{
    assert(0 <= i * n + l < c * n) by (nonlinear_arith)
        requires
            0 <= i < c,
            0 <= l < n,
    ;
    vstd::arithmetic::div_mod::lemma_fundamental_div_mod_converse(i * n + l, n, i, l);
}

/// The lanes of chunk `i`, read off the elements.
pub proof fn lemma_chunk_bits<T: SimdType>(chunks: Seq<T>, i: int)
    requires
        T::lanes_spec() > 0,
        0 <= i < chunks.len(),
    ensures
        chunk_bits::<T>(elements_of(chunks), i) == chunks[i].lane_bits(),
{
    let n = T::lanes_spec() as int;
    chunks[i].lemma_lane_bits_len();
    assert forall|l: int| 0 <= l < n implies chunk_bits::<T>(elements_of(chunks), i)[l]
        == chunks[i].lane_bits()[l] by {
        lemma_flat_index(i, l, chunks.len() as int, n);
    }
    assert(chunk_bits::<T>(elements_of(chunks), i) =~= chunks[i].lane_bits());
}

/// Two chunk sequences hold the same elements exactly when their chunks
    /// agree lane by lane.
    pub proof fn lemma_equal_by_chunk<T: SimdType>(x: Seq<T>, y: Seq<T>)
        requires
            T::lanes_spec() > 0,
            x.len() == y.len(),
        ensures
            elements_of(x) == elements_of(y) <==> forall|j: int|
                0 <= j < x.len() ==> (#[trigger] x[j]).lane_bits() == y[j].lane_bits(),
    {
        let n = T::lanes_spec() as int;
        if forall|j: int| 0 <= j < x.len() ==> (#[trigger] x[j]).lane_bits() == y[j].lane_bits() {
            assert forall|k: int| 0 <= k < elements_of(x).len() implies elements_of(x)[k]
                == elements_of(y)[k] by {
                vstd::arithmetic::div_mod::lemma_fundamental_div_mod(k, n);
                vstd::arithmetic::div_mod::lemma_div_pos_is_pos(k, n);
                vstd::arithmetic::div_mod::lemma_mod_bound(k, n);
                assert(k / n < x.len()) by (nonlinear_arith)
                    requires
                        k < x.len() * n,
                        k == n * (k / n) + (k % n),
                        0 <= k % n,
                        n > 0,
                ;
                assert(x[k / n].lane_bits() == y[k / n].lane_bits());
            }
            assert(elements_of(x) =~= elements_of(y));
        }
        if elements_of(x) == elements_of(y) {
            assert forall|j: int| 0 <= j < x.len() implies (#[trigger] x[j]).lane_bits()
                == y[j].lane_bits() by {
                x[j].lemma_lane_bits_len();
                y[j].lemma_lane_bits_len();
                assert forall|l: int| 0 <= l < n
                    implies x[j].lane_bits()[l] == y[j].lane_bits()[l] by {
                    let k = j * n + l;
                    vstd::arithmetic::div_mod::lemma_fundamental_div_mod_converse(k, n, j, l);
                    assert(k < x.len() * n) by (nonlinear_arith)
                        requires
                            k == j * n + l,
                            0 <= j < x.len(),
                            0 <= l < n,
                    ;
                    assert(elements_of(x)[k] == x[j].lane_bits()[l]);
                    assert(elements_of(y)[k] == y[j].lane_bits()[l]);
                }
                assert(x[j].lane_bits() =~= y[j].lane_bits());
            }
        }
    }

    /// Two element sequences agree when they agree chunk by chunk and lane by
    /// lane.
    pub proof fn lemma_elements_by_chunk<T: SimdType>(chunks: Seq<T>, elts: Seq<u32>)
        requires
            T::lanes_spec() > 0,
            elts.len() == chunks.len() * T::lanes_spec(),
            forall|i: int, l: int|
                0 <= i < chunks.len() && 0 <= l < T::lanes_spec() ==>
                    #[trigger] chunks[i].lane_bits()[l]
                    == elts[i * T::lanes_spec() + l],
        ensures
            elements_of(chunks) == elts,
    {
        let n = T::lanes_spec() as int;
        assert forall|k: int| 0 <= k < elts.len() implies elements_of(chunks)[k] == elts[k] by {
            vstd::arithmetic::div_mod::lemma_fundamental_div_mod(k, n);
            vstd::arithmetic::div_mod::lemma_div_pos_is_pos(k, n);
            vstd::arithmetic::div_mod::lemma_mod_bound(k, n);
            assert((k / n) * n == n * (k / n)) by (nonlinear_arith);
            assert(k / n < chunks.len()) by (nonlinear_arith)
                requires
                    k < chunks.len() * n,
                    k == n * (k / n) + (k % n),
                    0 <= k % n,
                    n > 0,
            ;
            assert(chunks[k / n].lane_bits()[k % n] == elts[(k / n) * n + k % n]);
        }
        assert(elements_of(chunks) =~= elts);
    }

/// One more chunk pair updates the accumulator that it is fed to.
proof fn lemma_strided_next<T: SimdType>(squared: bool, x: Seq<u32>, y: Seq<u32>, k: int, n: nat)
    ensures
        strided_acc::<T>(squared, x, y, k, n + 1) == if n % 4 == k {
            step_spec::<T>(
                squared,
                chunk_bits::<T>(x, n as int),
                chunk_bits::<T>(y, n as int),
                strided_acc::<T>(squared, x, y, k, n),
            )
        } else {
            strided_acc::<T>(squared, x, y, k, n)
        },
{
    assert(strided_acc::<T>(squared, x, y, k, ((n + 1) - 1) as nat) == strided_acc::<T>(
        squared,
        x,
        y,
        k,
        n,
    ));
}

/// A whole group of four chunk pairs updates each accumulator exactly once.
proof fn lemma_strided_group<T: SimdType>(squared: bool, x: Seq<u32>, y: Seq<u32>, k: int, at: nat)
    requires
        0 <= k < 4,
        at % 4 == 0,
    ensures
        strided_acc::<T>(squared, x, y, k, at + 4) == step_spec::<T>(
            squared,
            chunk_bits::<T>(x, at + k),
            chunk_bits::<T>(y, at + k),
            strided_acc::<T>(squared, x, y, k, at),
        ),
{
    lemma_strided_next::<T>(squared, x, y, k, at);
    lemma_strided_next::<T>(squared, x, y, k, at + 1);
    lemma_strided_next::<T>(squared, x, y, k, at + 2);
    lemma_strided_next::<T>(squared, x, y, k, at + 3);
}

impl<T: SimdType, const MMBLOCKS: usize> VectorArithmetic for SimdVecImpl<T, MMBLOCKS> {
    open spec fn elements(&self) -> Seq<u32> {
        self@
    }

    open spec fn dimension_spec() -> nat {
        MMBLOCKS as nat * T::lanes_spec()
    }

    open spec fn add_spec(a: Seq<u32>, b: Seq<u32>) -> Seq<u32> {
        lanewise::<T>(LaneOp::Add, a, b)
    }

    open spec fn sub_spec(a: Seq<u32>, b: Seq<u32>) -> Seq<u32> {
        lanewise::<T>(LaneOp::Sub, a, b)
    }

    open spec fn mul_spec(a: Seq<u32>, b: Seq<u32>) -> Seq<u32> {
        lanewise::<T>(LaneOp::Mul, a, b)
    }

    open spec fn div_spec(a: Seq<u32>, b: Seq<u32>) -> Seq<u32> {
        lanewise::<T>(LaneOp::Div, a, b)
    }

    open spec fn mul_scalar_spec(a: Seq<u32>, c: u32) -> Seq<u32> {
        scaled::<T>(c, a)
    }

    open spec fn div_scalar_spec(a: Seq<u32>, c: u32) -> Seq<u32> {
        scaled::<T>(T::element_div_spec(ONE_BITS, c), a)
    }

    open spec fn sqrt_spec(x: u32) -> u32 {
        T::element_sqrt_spec(x)
    }

    open spec fn scalar_sub_spec(x: u32, y: u32) -> u32 {
        T::element_sub_spec(x, y)
    }

    proof fn lemma_dimension(&self) {
        self.lemma_chunk_count();
    }

    fn zero() -> (r: Self) {
        SimdVecImpl::new()
    }

    fn add(self, other: Self) -> (r: Self) {
        SimdVecImpl::add(self, other)
    }

    fn sub(self, other: Self) -> (r: Self) {
        SimdVecImpl::sub(self, other)
    }

    fn mul(self, other: Self) -> (r: Self) {
        SimdVecImpl::mul(self, other)
    }

    fn div(self, other: Self) -> (r: Self) {
        SimdVecImpl::div(self, other)
    }

    fn mul_scalar(self, c: u32) -> (r: Self) {
        SimdVecImpl::mul_scalar(self, c)
    }

    fn div_scalar(self, c: u32) -> (r: Self) {
        SimdVecImpl::div_scalar(self, c)
    }

    fn sqrt(x: u32) -> (r: u32) {
        T::element_sqrt(x)
    }

    fn scalar_sub(x: u32, y: u32) -> (r: u32) {
        T::element_sub(x, y)
    }
}

impl<T: SimdType, const MMBLOCKS: usize> Vector for SimdVecImpl<T, MMBLOCKS> {
    open spec fn dot_spec(a: Seq<u32>, b: Seq<u32>) -> u32 {
        dot_of::<T>(a, b, MMBLOCKS as nat)
    }

    open spec fn distance_spec(a: Seq<u32>, b: Seq<u32>) -> u32 {
        distance_of::<T>(a, b, MMBLOCKS as nat)
    }

    fn from_iter(elts: Vec<u32>) -> (r: Self) {
        SimdVecImpl::from_iter(elts)
    }

    fn to_vec(&self) -> (v: Vec<u32>) {
        SimdVecImpl::to_vec(self)
    }

    fn distance(&self, other: &Self) -> (r: u32) {
        SimdVecImpl::distance(self, other)
    }

    fn dot(&self, other: &Self) -> (r: u32) {
        SimdVecImpl::dot(self, other)
    }

    fn dimension(&self) -> (d: usize) {
        SimdVecImpl::dimension(self)
    }
}

impl<T: SimdType, const MMBLOCKS: usize> Cacheable for SimdVecImpl<T, MMBLOCKS> {
    /// MurmurHash3_x64_128, seed 0, of the elements' byte image.
    open spec fn cache_id_spec(&self) -> u128 {
        crate::simd::murmur::murmur3_x64_128_spec(self@, 0)
    }

    fn cache_id(&self) -> (id: u128) {
        murmur3_x64_128(self.chunks.as_slice(), 0u32)
    }
}

impl<T: SimdType, const MMBLOCKS: usize> PartialEq for SimdVecImpl<T, MMBLOCKS> {
    /// Equality of vectors: every element bit-equal.
    fn eq(&self, other: &Self) -> (b: bool) {
        self.equals(other)
    }
}

impl<T: SimdType, const MMBLOCKS: usize> PartialEqSpecImpl for SimdVecImpl<T, MMBLOCKS> {
    open spec fn obeys_eq_spec() -> bool {
        true
    }

    open spec fn eq_spec(&self, other: &Self) -> bool {
        self@ == other@
    }
}

impl<T: SimdType, const MMBLOCKS: usize> Default for SimdVecImpl<T, MMBLOCKS> {
    fn default() -> (r: Self)
        ensures
            r@ == Seq::new(Self::dimension_spec(), |k: int| 0u32),
    {
        SimdVecImpl::new()
    }
}

} // verus!
