//! The hash of a replica: up to 64 random projections, one bit each.

use crate::lsh::random_projection::RandomProjection;
use crate::lsh::vector::Vector;
use vstd::prelude::*;

verus! {

/// The most projections that a 64-bit key has room for.
pub const MAX_BITS: usize = 64;

/// The key whose bit `i` is `signs[i]`, for the first `n` signs: the OR over
/// `i` of `signs[i] << i`.
pub open spec fn key_spec(signs: Seq<u64>, n: nat) -> u64
    decreases n,
{
    if n == 0 {
        0u64
    } else {
        key_spec(signs, (n - 1) as nat) | (signs[n - 1] << ((n - 1) as u64))
    }
}

/// The keys with bits only below bit `b`: `(1 << b) - 1`, and every key for
/// `b = 64`.
pub open spec fn mask_spec(b: nat) -> u64 {
    if b >= 64 {
        u64::MAX
    } else {
        ((1u64 << (b as u64)) - 1) as u64
    }
}

/// The sign bits of the inner products of `v` with each of `directions`.
pub open spec fn signs_spec<T: Vector>(directions: Seq<Seq<u32>>, v: Seq<u32>) -> Seq<u64> {
    Seq::new(
        directions.len(),
        |i: int| crate::lsh::random_projection::sign_bit_spec(T::dot_spec(directions[i], v)),
    )
}

/// The key of `v` under the projections `directions`.
pub open spec fn hash_spec<T: Vector>(directions: Seq<Seq<u32>>, v: Seq<u32>) -> u64 {
    key_spec(signs_spec::<T>(directions, v), directions.len())
}

/// Setting bit `n` of a key that has bits only below `n`.
proof fn lemma_set_bit(key: u64, sign: u64, n: u64)
    by (bit_vector)
    requires
        n < 64,
        sign <= 1,
        n < 63 ==> key <= ((1u64 << n) - 1) as u64,
    ensures
        n < 63 ==> (key | (sign << n)) <= ((1u64 << ((n + 1) as u64)) - 1) as u64,
{
}

/// A key below `1 << n` has no bit at or above bit `n`.
proof fn lemma_no_high_bits(key: u64, n: u64)
    by (bit_vector)
    requires
        n < 64,
        key <= ((1u64 << n) - 1) as u64,
    ensures
        key >> n == 0,
{
}

/// A key of `n` sign bits has no bit at or above bit `n`.
pub proof fn lemma_key_bound(signs: Seq<u64>, n: nat)
    requires
        n <= 64,
        n <= signs.len(),
        forall|i: int| 0 <= i < n ==> #[trigger] signs[i] <= 1,
    ensures
        key_spec(signs, n) <= mask_spec(n),
        n < 64 ==> key_spec(signs, n) >> (n as u64) == 0,
    decreases n,
{
    lemma_key_bits(signs, n);
    if n < 64 {
        lemma_no_high_bits(key_spec(signs, n), n as u64);
    }
}

/// A key of `n` sign bits is at most the mask of `n` bits.
proof fn lemma_key_bits(signs: Seq<u64>, n: nat)
    requires
        n <= 64,
        n <= signs.len(),
        forall|i: int| 0 <= i < n ==> #[trigger] signs[i] <= 1,
    ensures
        key_spec(signs, n) <= mask_spec(n),
    decreases n,
{
    if n == 0 {
        assert(((1u64 << 0u64) - 1) as u64 == 0) by (bit_vector);
    } else {
        lemma_key_bits(signs, (n - 1) as nat);
        let m = (n - 1) as u64;
        assert(signs[n - 1] <= 1);
        lemma_set_bit(key_spec(signs, (n - 1) as nat), signs[n - 1], m);
    }
}

/// The sign bits of a sequence of inner products.
pub open spec fn signs_of(dots: Seq<u32>) -> Seq<u64> {
    Seq::new(dots.len(), |i: int| crate::lsh::random_projection::sign_bit_spec(dots[i]))
}

/// Every inner product negated.
pub open spec fn negated(dots: Seq<u32>) -> Seq<u32> {
    Seq::new(dots.len(), |i: int| crate::simd::single::negate_spec(dots[i]))
}

/// Setting bit `n` in one of two keys that are complements of each other
/// below bit `n` leaves them complements of each other below bit `n + 1`.
proof fn lemma_complement_bit(ka: u64, kb: u64, sa: u64, sb: u64, n: u64)
    by (bit_vector)
    requires
        n < 64,
        sa <= 1,
        sb <= 1,
        sa != sb,
        ka <= ((1u64 << n) - 1) as u64,
        kb <= ((1u64 << n) - 1) as u64,
        ka ^ kb == ((1u64 << n) - 1) as u64,
    ensures
        n < 63 ==> (ka | (sa << n)) ^ (kb | (sb << n)) == ((1u64 << ((n + 1) as u64)) - 1) as u64,
        n == 63 ==> (ka | (sa << n)) ^ (kb | (sb << n)) == 0xffff_ffff_ffff_ffffu64,
{
}

/// Keys built from complementary sign bits are complements of each other
/// below bit `n`.
pub proof fn lemma_complement_keys(a: Seq<u64>, b: Seq<u64>, n: nat)
    requires
        n <= 64,
        n <= a.len(),
        n <= b.len(),
        forall|i: int| 0 <= i < n ==> #[trigger] a[i] <= 1,
        forall|i: int| 0 <= i < n ==> #[trigger] b[i] <= 1,
        forall|i: int| 0 <= i < n ==> #[trigger] a[i] != b[i],
    ensures
        key_spec(a, n) ^ key_spec(b, n) == mask_spec(n),
    decreases n,
{
    if n == 0 {
        assert(0u64 ^ 0u64 == ((1u64 << 0u64) - 1) as u64) by (bit_vector);
    } else {
        lemma_complement_keys(a, b, (n - 1) as nat);
        lemma_key_bound(a, (n - 1) as nat);
        lemma_key_bound(b, (n - 1) as nat);
        assert(a[n - 1] <= 1 && b[n - 1] <= 1 && a[n - 1] != b[n - 1]);
        lemma_complement_bit(
            key_spec(a, (n - 1) as nat),
            key_spec(b, (n - 1) as nat),
            a[n - 1],
            b[n - 1],
            (n - 1) as u64,
        );
    }
}

/// Antipodal vectors never collide: where `B` inner products are neither
/// zero nor NaN, the key of the products and the key of their negations
/// differ in every one of the `B` bits, so that their XOR is `(1 << B) - 1`.
pub proof fn lemma_antipodal_keys(dots: Seq<u32>)
    requires
        dots.len() <= 64,
        forall|i: int|
            0 <= i < dots.len() ==> !crate::simd::single::is_nan_spec(#[trigger] dots[i])
                && crate::simd::single::magnitude_spec(dots[i]) != 0,
    ensures
        key_spec(signs_of(dots), dots.len()) ^ key_spec(signs_of(negated(dots)), dots.len())
            == mask_spec(dots.len()),
{
    let a = signs_of(dots);
    let b = signs_of(negated(dots));
    assert forall|i: int| 0 <= i < dots.len() implies #[trigger] a[i] != b[i] by {
        crate::simd::single::lemma_sign(dots[i]);
    }
    lemma_complement_keys(a, b, dots.len());
}

/// Keys depend on the inner products through their signs alone: two
/// sequences of products that agree in sign, product by product, give the
/// same key.
pub proof fn lemma_same_signs_same_key(d1: Seq<u32>, d2: Seq<u32>)
    requires
        d1.len() == d2.len(),
        forall|i: int|
            0 <= i < d1.len() ==> crate::lsh::random_projection::sign_bit_spec(#[trigger] d1[i])
                == crate::lsh::random_projection::sign_bit_spec(d2[i]),
    ensures
        key_spec(signs_of(d1), d1.len()) == key_spec(signs_of(d2), d2.len()),
{
    assert(signs_of(d1) =~= signs_of(d2));
}

/// A family of random projections that together hash a vector to a key of as
/// many bits.
#[derive(Debug)]
pub struct StableHashFunction<T: Vector> {
    projections: Vec<RandomProjection<T>>,
}

impl<T: Vector> StableHashFunction<T> {
    #[verifier::type_invariant]
    spec fn inv(&self) -> bool {
        self.projections@.len() <= MAX_BITS
    }

    /// The projection vectors, first projection first.
    pub closed spec fn directions(&self) -> Seq<Seq<u32>> {
        Seq::new(self.projections@.len(), |i: int| self.projections@[i].direction())
    }

    /// The number of projections, `B`.
    pub open spec fn bits_spec(&self) -> nat {
        self.directions().len()
    }

    /// Samples `bits` projections of `dimension` coordinates each.
    pub fn new(bits: usize, dimension: usize) -> (r: Self)
        requires
            bits <= MAX_BITS,
        ensures
            r.bits_spec() == bits,
            forall|i: int|
                0 <= i < bits ==> crate::lsh::random_projection::is_sampled::<T>(
                    #[trigger] r.directions()[i],
                    dimension as nat,
                ),
    {
        let mut projections: Vec<RandomProjection<T>> = Vec::new();
        let mut i: usize = 0;
        while i < bits
            invariant
                i <= bits <= MAX_BITS,
                projections@.len() == i,
                forall|k: int|
                    0 <= k < i ==> crate::lsh::random_projection::is_sampled::<T>(
                        (#[trigger] projections@[k]).direction(),
                        dimension as nat,
                    ),
            decreases bits - i,
        {
            projections.push(RandomProjection::<T>::new(dimension));
            i += 1;
        }
        StableHashFunction { projections }
    }

    /// The number of projections, `B`.
    pub fn bits(&self) -> (b: usize)
        ensures
            b == self.bits_spec(),
            b <= MAX_BITS,
    {
        proof {
            use_type_invariant(self);
        }
        self.projections.len()
    }

    /// The key of `v`: bit `i` is the hash of `v` under projection `i`.
    pub fn hash(&self, v: &T) -> (h: u64)
        ensures
            h == hash_spec::<T>(self.directions(), v.elements()),
            h <= mask_spec(self.bits_spec()),
            self.bits_spec() < 64 ==> h >> (self.bits_spec() as u64) == 0,
    {
        proof {
            use_type_invariant(self);
        }
        let ghost signs = signs_spec::<T>(self.directions(), v.elements());
        let mut acc: u64 = 0;
        let mut i: usize = 0;
        while i < self.projections.len()
            invariant
                i <= self.projections@.len() <= MAX_BITS,
                signs == signs_spec::<T>(self.directions(), v.elements()),
                acc == key_spec(signs, i as nat),
            decreases self.projections@.len() - i,
        {
            let sgn: u64 = self.projections[i].hash(v);
            assert(sgn == signs[i as int]);
            acc = acc | (sgn << (i as u64));
            i += 1;
        }
        proof {
            lemma_key_bound(signs, self.projections@.len());
        }
        acc
    }
}

} // verus!
