//! A random projection: a unit vector, and the sign of its inner product
//! with a vector as a one-bit hash.

use crate::codec::{decode, encode, DecodeError};
use crate::lsh::vector::Vector;
use crate::simd::single::{abs, greater_than, ONE_BITS, SIGN_BIT, TOLERANCE_BITS, ZERO_BITS};
use rand::Rng;
use vstd::prelude::*;

verus! {

/// The number of points on the grid that coordinates are sampled from: the
/// multiples of 2^-24 in [-1, 1).
pub const GRID_POINTS: u32 = 0x200_0000;

/// Half of `GRID_POINTS`: the index of the grid point `0.0`.
pub const GRID_ORIGIN: u32 = 0x100_0000;

/// A uniformly distributed integer of the range `low..high`, drawn from the
/// thread-local generator of `rand` with `Rng::gen_range`, which panics on
/// an empty range.  Of the value itself no more is known than the range.
#[verifier::external_body]
fn random_in(low: u32, high: u32) -> (r: u32)
    requires
        low < high,
    ensures
        low <= r < high,
{
    rand::thread_rng().gen_range(low..high)
}

/// Whether `bits` is the pattern of the grid point `(j - 2^24) / 2^24`.
///
/// A pattern with the exponent field `e` and the mantissa `man` has the
/// magnitude `(2^23 + man) * 2^(e - 150)`; the last clause equates that with
/// `k / 2^24`, where `k` is the distance of `j` from the origin.
pub open spec fn grid_value_spec(bits: u32, j: u32) -> bool {
    let negative = j < GRID_ORIGIN;
    let k = if negative {
        GRID_ORIGIN - j
    } else {
        j - GRID_ORIGIN
    };
    let mag = crate::simd::single::magnitude_spec(bits);
    let e = mag / 0x80_0000;
    let man = mag % 0x80_0000;
    if k == 0 {
        bits == ZERO_BITS
    } else {
        &&& crate::simd::single::is_negative_spec(bits) == negative
        &&& if k == GRID_ORIGIN {
            mag == ONE_BITS
        } else {
            &&& 103 <= e <= 126
            &&& k * vstd::arithmetic::power2::pow2((126 - e) as nat) == 0x80_0000 + man
        }
    }
}

/// Whether `bits` is the pattern of a value in [-1, 1).
pub open spec fn in_unit_interval(bits: u32) -> bool {
    crate::simd::single::magnitude_spec(bits) < ONE_BITS || bits == ONE_BITS + SIGN_BIT
}

/// The bit pattern of the grid point `(j - 2^24) / 2^24`, which is exact in
/// single precision.
pub fn grid_point(j: u32) -> (bits: u32)
    requires
        j < GRID_POINTS,
    ensures
        grid_value_spec(bits, j),
        in_unit_interval(bits),
{
    let negative: bool = j < GRID_ORIGIN;
    let k: u32 = if negative {
        GRID_ORIGIN - j
    } else {
        j - GRID_ORIGIN
    };
    if k == 0 {
        return ZERO_BITS;
    }
    if k == GRID_ORIGIN {
        return ONE_BITS + SIGN_BIT;
    }
    let mut m: u32 = k;
    let mut e: u32 = 126;
    proof {
        vstd::arithmetic::power2::lemma2_to64();
        assert(k * vstd::arithmetic::power2::pow2(0) == k) by (nonlinear_arith)
            requires
                vstd::arithmetic::power2::pow2(0) == 1,
        ;
    }
    while m < 0x80_0000
        invariant
            1 <= m < 0x100_0000,
            103 <= e <= 126,
            m == k * vstd::arithmetic::power2::pow2((126 - e) as nat),
            m >= vstd::arithmetic::power2::pow2((126 - e) as nat),
        decreases e,
    {
        proof {
            let s = (126 - e) as nat;
            vstd::arithmetic::power2::lemma2_to64();
            vstd::arithmetic::power2::lemma_pow2_unfold(s + 1);
            if s >= 23 {
                if s > 23 {
                    vstd::arithmetic::power2::lemma_pow2_strictly_increases(23, s);
                }
                assert(false);
            }
            assert(2 * (k * vstd::arithmetic::power2::pow2(s)) == k * (2
                * vstd::arithmetic::power2::pow2(s))) by (nonlinear_arith);
        }
        m = m * 2;
        e = e - 1;
    }
    let mag: u32 = e * 0x80_0000 + (m - 0x80_0000);
    assert(mag / 0x80_0000 == e && mag % 0x80_0000 == m - 0x80_0000);
    if negative {
        mag + SIGN_BIT
    } else {
        mag
    }
}

/// The hash of an inner product: 1 when it is greater than zero, else 0.  A
/// product of exactly zero, and a NaN, map to 0.
pub open spec fn sign_bit_spec(dot: u32) -> u64 {
    if crate::simd::single::greater_than_spec(dot, ZERO_BITS) {
        1u64
    } else {
        0u64
    }
}

pub fn sign_bit(dot: u32) -> (h: u64)
    ensures
        h == sign_bit_spec(dot),
        h <= 1,
{
    if greater_than(dot, ZERO_BITS) {
        1u64
    } else {
        0u64
    }
}

/// `elts` divided by its own norm.
pub open spec fn normalised<T: Vector>(elts: Seq<u32>) -> Seq<u32> {
    T::div_scalar_spec(elts, T::sqrt_spec(T::dot_spec(elts, elts)))
}

/// Whether `direction` is what sampling `dim` coordinates can give: some
/// `dim` values in [-1, 1), padded or truncated to the dimension of `T` and
/// divided by their norm.
pub open spec fn is_sampled<T: Vector>(direction: Seq<u32>, dim: nat) -> bool {
    exists|coords: Seq<u32>|
        {
            &&& coords.len() == dim
            &&& forall|i: int| 0 <= i < dim ==> in_unit_interval(#[trigger] coords[i])
            &&& direction == normalised::<T>(
                crate::simd::vec::pad_or_truncate(coords, T::dimension_spec()),
            )
        }
}

/// Whether the norm of `elts` is 1 within the tolerance: whether
/// `|norm - 1| > 1e-5` is false.
pub open spec fn is_unit<T: Vector>(elts: Seq<u32>) -> bool {
    !crate::simd::single::greater_than_spec(
        crate::simd::single::magnitude_spec(
            T::scalar_sub_spec(T::sqrt_spec(T::dot_spec(elts, elts)), ONE_BITS),
        ),
        TOLERANCE_BITS,
    )
}

/// What a byte string deserialises to: the elements of the projection, or
/// why it is refused.
pub open spec fn deserialize_spec<T: Vector>(bytes: Seq<u8>) -> Result<Seq<u32>, DecodeError> {
    match crate::codec::decode_spec(bytes, T::dimension_spec()) {
        Err(e) => Err(e),
        Ok(elts) => if is_unit::<T>(elts) {
            Ok(elts)
        } else {
            Err(DecodeError::InvalidValue)
        },
    }
}

/// A vector meant to be of unit norm.
#[derive(Debug)]
struct UnitVector<T: Vector> {
    u: T,
}

/// One unit vector `p`, and the hash `v -> [<p, v> > 0]`.
#[derive(Debug)]
pub struct RandomProjection<T: Vector> {
    proj: UnitVector<T>,
}

impl<T: Vector> RandomProjection<T> {
    /// The elements of the projection vector.
    pub closed spec fn direction(&self) -> Seq<u32> {
        self.proj.u.elements()
    }

    pub proof fn lemma_direction_len(&self)
        ensures
            self.direction().len() == T::dimension_spec(),
    {
        self.proj.u.lemma_dimension();
    }

    /// The projection vector.
    pub fn vector(&self) -> (u: &T)
        ensures
            u.elements() == self.direction(),
    {
        &self.proj.u
    }

    /// Samples `dim` coordinates from the grid in [-1, 1) and divides the
    /// vector by its norm.
    pub fn new(dim: usize) -> (r: Self)
        ensures
            is_sampled::<T>(r.direction(), dim as nat),
    {
        let mut coords: Vec<u32> = Vec::new();
        let mut i: usize = 0;
        while i < dim
            invariant
                i <= dim,
                coords@.len() == i,
                forall|k: int| 0 <= k < i ==> in_unit_interval(#[trigger] coords@[k]),
            decreases dim - i,
        {
            let j: u32 = random_in(0, GRID_POINTS);
            coords.push(grid_point(j));
            i += 1;
        }
        let ghost sampled = coords@;
        let random_vector = T::from_iter(coords);
        let norm: u32 = T::sqrt(random_vector.dot(&random_vector));
        let random_unit = random_vector.div_scalar(norm);
        RandomProjection { proj: UnitVector { u: random_unit } }
    }

    /// 1 when the inner product of the projection with `v` is greater than
    /// zero, else 0.
    pub fn hash(&self, v: &T) -> (h: u64)
        ensures
            h == sign_bit_spec(T::dot_spec(self.direction(), v.elements())),
            h <= 1,
    {
        sign_bit(self.proj.u.dot(v))
    }

    /// The dimension as a little-endian 32-bit count, then the coordinates
    /// as little-endian single-precision values.
    pub fn serialize(&self) -> (bytes: Vec<u8>)
        ensures
            bytes@ == crate::codec::encode_spec(self.direction()),
    {
        encode(&self.proj.u)
    }

    /// Reads a projection back.  Beyond what makes a byte string no vector
    /// at all, a vector whose norm is not 1 within the tolerance is refused.
    pub fn deserialize(bytes: &[u8]) -> (r: Result<Self, DecodeError>)
        ensures
            match r {
                Ok(p) => deserialize_spec::<T>(bytes@) == Ok::<Seq<u32>, DecodeError>(
                    p.direction(),
                ),
                Err(e) => deserialize_spec::<T>(bytes@) == Err::<Seq<u32>, DecodeError>(e),
            },
    {
        match decode::<T>(bytes) {
            Err(e) => Err(e),
            Ok(unit) => Self::from_unit(unit),
        }
    }

    /// Accepts `unit` as a projection vector when its norm is 1 within the
    /// tolerance.
    pub fn from_unit(unit: T) -> (r: Result<Self, DecodeError>)
        ensures
            match r {
                Ok(p) => is_unit::<T>(unit.elements()) && p.direction() == unit.elements(),
                Err(e) => !is_unit::<T>(unit.elements()) && e == DecodeError::InvalidValue,
            },
    {
        let norm: u32 = T::sqrt(unit.dot(&unit));
        if greater_than(abs(T::scalar_sub(norm, ONE_BITS)), TOLERANCE_BITS) {
            Err(DecodeError::InvalidValue)
        } else {
            Ok(RandomProjection { proj: UnitVector { u: unit } })
        }
    }
}

/// Reads a serialised projection from bytes that arrive one at a time, as
/// from a transport that hands over a sequence of numbers: the first four
/// bytes give the dimension, every four bytes after them a coordinate.
pub struct SeqDecoder {
    header: Vec<u8>,
    pending: Vec<u8>,
    words: Vec<u32>,
}

impl SeqDecoder {
    /// Coordinates are only collected once the dimension is complete, and
    /// fewer than four bytes wait for the rest of their coordinate.
    pub closed spec fn wf(&self) -> bool {
        &&& self.header@.len() <= 4
        &&& self.pending@.len() < 4
        &&& self.header@.len() < 4 ==> self.pending@.len() == 0 && self.words@.len() == 0
    }

    /// The bytes taken so far.
    pub closed spec fn fed(&self) -> Seq<u8> {
        self.header@ + crate::codec::words_to_le(self.words@) + self.pending@
    }

    pub fn new() -> (r: Self)
        ensures
            r.wf(),
            r.fed() == Seq::<u8>::empty(),
    {
        let r = SeqDecoder { header: Vec::new(), pending: Vec::new(), words: Vec::new() };
        assert(r.fed() =~= Seq::<u8>::empty());
        r
    }

    /// Takes the next byte.
    pub fn feed(&mut self, byte: u8)
        requires
            old(self).wf(),
        ensures
            final(self).wf(),
            final(self).fed() == old(self).fed().push(byte),
    {
        if self.header.len() < 4 {
            self.header.push(byte);
            assert(self.fed() =~= old(self).fed().push(byte));
        } else {
            self.pending.push(byte);
            if self.pending.len() == 4 {
                let b0: u8 = self.pending[0];
                let b1: u8 = self.pending[1];
                let b2: u8 = self.pending[2];
                let b3: u8 = self.pending[3];
                let w: u32 = (b0 as u32) + 0x100 * (b1 as u32) + 0x1_0000 * (b2 as u32) + 0x100_0000
                    * (b3 as u32);
                proof {
                    crate::codec::lemma_le_bytes_of_word(b0, b1, b2, b3);
                    crate::codec::lemma_words_to_le_push(self.words@, w);
                    assert(self.pending@ =~= seq![b0, b1, b2, b3]);
                }
                self.words.push(w);
                self.pending = Vec::new();
            }
            assert(self.fed() =~= old(self).fed().push(byte));
        }
    }

    /// The projection that the bytes taken make up, on the same terms as
    /// `RandomProjection::deserialize` on those bytes at once.
    pub fn finish<T: Vector>(self) -> (r: Result<RandomProjection<T>, DecodeError>)
        requires
            self.wf(),
        ensures
            match r {
                Ok(p) => deserialize_spec::<T>(self.fed()) == Ok::<Seq<u32>, DecodeError>(
                    p.direction(),
                ),
                Err(e) => deserialize_spec::<T>(self.fed()) == Err::<Seq<u32>, DecodeError>(e),
            },
    {
        let ghost fed = self.fed();
        if self.header.len() < 4 {
            assert(fed.len() < 4);
            return Err(DecodeError::TooShort);
        }
        let dim: u32 = (self.header[0] as u32) + 0x100 * (self.header[1] as u32) + 0x1_0000 * (
        self.header[2] as u32) + 0x100_0000 * (self.header[3] as u32);
        proof {
            assert(fed.len() == 4 + 4 * self.words@.len() + self.pending@.len());
            assert(fed[0] == self.header@[0] && fed[1] == self.header@[1] && fed[2]
                == self.header@[2] && fed[3] == self.header@[3]);
        }
        if self.pending.len() != 0 || self.words.len() as u64 != dim as u64 {
            return Err(DecodeError::InvalidLength);
        }
        proof {
            assert(fed.subrange(4, fed.len() as int) =~= crate::codec::words_to_le(self.words@));
            crate::codec::lemma_words_round_trip(self.words@);
        }
        RandomProjection::<T>::from_unit(T::from_iter(self.words))
    }
}

/// A serialised projection deserialises to the same coordinates, each
/// exactly, provided its norm is 1 within the tolerance and its dimension
/// fits the 32-bit count.
pub proof fn lemma_deserialize_serialize<T: Vector>(p: RandomProjection<T>)
    requires
        is_unit::<T>(p.direction()),
        T::dimension_spec() <= u32::MAX,
    ensures
        deserialize_spec::<T>(crate::codec::encode_spec(p.direction())) == Ok::<
            Seq<u32>,
            DecodeError,
        >(p.direction()),
{
    p.lemma_direction_len();
    crate::codec::lemma_decode_encode(p.direction());
}

} // verus!
