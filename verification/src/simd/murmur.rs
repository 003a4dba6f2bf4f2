//! MurmurHash3, the 128-bit variants, over the byte image of a chunk array.
//!
//! The byte image of a chunk array is its elements in canonical order, each
//! as four little-endian bytes, so it is digested here one 32-bit word at a
//! time.  With four or eight lanes to a chunk the image is always a whole
//! number of 16-byte blocks, and no tail is left over.

use crate::simd::base::SimdType;
use vstd::prelude::*;

verus! {

pub const C32_1: u32 = 0x239b961b;

pub const C32_2: u32 = 0xab0e9789;

pub const C32_3: u32 = 0x38b34ae5;

pub const C32_4: u32 = 0xa1e38b93;

pub const C64_1: u64 = 0x87c37b91114253d5;

pub const C64_2: u64 = 0x4cf5ad432745937f;

/// `x` rotated left by `r` bits.
pub open spec fn rotl32_spec(x: u32, r: u32) -> u32 {
    (x << r) | (x >> ((32 - r) as u32))
}

/// `x` rotated left by `r` bits.
pub open spec fn rotl64_spec(x: u64, r: u32) -> u64 {
    (x << r) | (x >> ((64 - r) as u32))
}

/// The 32-bit finalisation mix.
pub open spec fn fmix32_spec(h: u32) -> u32 {
    let h = h ^ (h >> 16u32);
    let h = h.wrapping_mul(0x85ebca6bu32);
    let h = h ^ (h >> 13u32);
    let h = h.wrapping_mul(0xc2b2ae35u32);
    h ^ (h >> 16u32)
}

/// The 64-bit finalisation mix.
pub open spec fn fmix64_spec(k: u64) -> u64 {
    let k = k ^ (k >> 33u32);
    let k = k.wrapping_mul(0xff51afd7ed558ccdu64);
    let k = k ^ (k >> 33u32);
    let k = k.wrapping_mul(0xc4ceb9fe1a85ec53u64);
    k ^ (k >> 33u32)
}

pub fn rotl32(x: u32, r: u32) -> (y: u32)
    requires
        0 < r < 32,
    ensures
        y == rotl32_spec(x, r),
{
    (x << r) | (x >> (32 - r))
}

pub fn rotl64(x: u64, r: u32) -> (y: u64)
    requires
        0 < r < 64,
    ensures
        y == rotl64_spec(x, r),
{
    (x << r) | (x >> (64 - r))
}

pub fn fmix32(h: u32) -> (r: u32)
    ensures
        r == fmix32_spec(h),
{
    let h: u32 = h ^ (h >> 16u32);
    let h: u32 = h.wrapping_mul(0x85ebca6bu32);
    let h: u32 = h ^ (h >> 13u32);
    let h: u32 = h.wrapping_mul(0xc2b2ae35u32);
    h ^ (h >> 16u32)
}

pub fn fmix64(k: u64) -> (r: u64)
    ensures
        r == fmix64_spec(k),
{
    let k: u64 = k ^ (k >> 33u32);
    let k: u64 = k.wrapping_mul(0xff51afd7ed558ccdu64);
    let k: u64 = k ^ (k >> 33u32);
    let k: u64 = k.wrapping_mul(0xc4ceb9fe1a85ec53u64);
    k ^ (k >> 33u32)
}

/// The 64-bit unit whose little-endian image is the words `lo`, `hi`.
pub open spec fn word_pair(lo: u32, hi: u32) -> u64 {
    (lo as u64) | ((hi as u64) << 32u32)
}

/// The state `(h1, h2)` after one 16-byte block `(k1, k2)`.
#[verifier::opaque]
pub open spec fn x64_block(h: (u64, u64), k1: u64, k2: u64) -> (u64, u64) {
    let k1 = rotl64_spec(k1.wrapping_mul(C64_1), 31).wrapping_mul(C64_2);
    let h1 = rotl64_spec(h.0 ^ k1, 27).wrapping_add(h.1).wrapping_mul(5).wrapping_add(0x52dce729);
    let k2 = rotl64_spec(k2.wrapping_mul(C64_2), 33).wrapping_mul(C64_1);
    let h2 = rotl64_spec(h.1 ^ k2, 31).wrapping_add(h1).wrapping_mul(5).wrapping_add(0x38495ab5);
    (h1, h2)
}

/// The state after the first `blocks` blocks of `words`.
pub open spec fn x64_body(words: Seq<u32>, seed: u32, blocks: nat) -> (u64, u64)
    decreases blocks,
{
    if blocks == 0 {
        (seed as u64, seed as u64)
    } else {
        let b = blocks - 1;
        x64_block(
            x64_body(words, seed, b as nat),
            word_pair(words[4 * b], words[4 * b + 1]),
            word_pair(words[4 * b + 2], words[4 * b + 3]),
        )
    }
}

/// The digest for a final state and a length in bytes; `h1` is the low half.
#[verifier::opaque]
pub open spec fn x64_finish(h: (u64, u64), len: u64) -> u128 {
    let h1 = h.0 ^ len;
    let h2 = h.1 ^ len;
    let h1 = h1.wrapping_add(h2);
    let h2 = h2.wrapping_add(h1);
    let h1 = fmix64_spec(h1);
    let h2 = fmix64_spec(h2);
    let h1 = h1.wrapping_add(h2);
    let h2 = h2.wrapping_add(h1);
    (h1 as u128) | ((h2 as u128) << 64u32)
}

/// MurmurHash3_x64_128 of the byte image of `words`.
pub open spec fn murmur3_x64_128_spec(words: Seq<u32>, seed: u32) -> u128 {
    x64_finish(
        x64_body(words, seed, words.len() / 4),
        (words.len() as u64).wrapping_mul(4),
    )
}

/// The state `(h1, h2, h3, h4)` after one 16-byte block `k`.
#[verifier::opaque]
pub open spec fn x86_block(h: (u32, u32, u32, u32), k: (u32, u32, u32, u32)) -> (
    u32,
    u32,
    u32,
    u32,
) {
    let k1 = rotl32_spec(k.0.wrapping_mul(C32_1), 15).wrapping_mul(C32_2);
    let h1 = rotl32_spec(h.0 ^ k1, 19).wrapping_add(h.1).wrapping_mul(5).wrapping_add(0x561ccd1b);
    let k2 = rotl32_spec(k.1.wrapping_mul(C32_2), 16).wrapping_mul(C32_3);
    let h2 = rotl32_spec(h.1 ^ k2, 17).wrapping_add(h.2).wrapping_mul(5).wrapping_add(0x0bcaa747);
    let k3 = rotl32_spec(k.2.wrapping_mul(C32_3), 17).wrapping_mul(C32_4);
    let h3 = rotl32_spec(h.2 ^ k3, 15).wrapping_add(h.3).wrapping_mul(5).wrapping_add(0x96cd1c35);
    let k4 = rotl32_spec(k.3.wrapping_mul(C32_4), 18).wrapping_mul(C32_1);
    let h4 = rotl32_spec(h.3 ^ k4, 13).wrapping_add(h1).wrapping_mul(5).wrapping_add(0x32ac3b17);
    (h1, h2, h3, h4)
}

/// The state after the first `blocks` blocks of `words`.
pub open spec fn x86_body(words: Seq<u32>, seed: u32, blocks: nat) -> (u32, u32, u32, u32)
    decreases blocks,
{
    if blocks == 0 {
        (seed, seed, seed, seed)
    } else {
        let b = blocks - 1;
        x86_block(
            x86_body(words, seed, b as nat),
            (words[4 * b], words[4 * b + 1], words[4 * b + 2], words[4 * b + 3]),
        )
    }
}

/// The sum of the four state words, added back into the last three.
pub open spec fn x86_fold(h: (u32, u32, u32, u32)) -> (u32, u32, u32, u32) {
    let h1 = h.0.wrapping_add(h.1).wrapping_add(h.2).wrapping_add(h.3);
    (h1, h.1.wrapping_add(h1), h.2.wrapping_add(h1), h.3.wrapping_add(h1))
}

/// The digest for a final state and a length in bytes; `h1` is the lowest
/// word.
#[verifier::opaque]
pub open spec fn x86_finish(h: (u32, u32, u32, u32), len: u32) -> u128 {
    let h = x86_fold((h.0 ^ len, h.1 ^ len, h.2 ^ len, h.3 ^ len));
    let h = x86_fold((fmix32_spec(h.0), fmix32_spec(h.1), fmix32_spec(h.2), fmix32_spec(h.3)));
    (h.0 as u128) | ((h.1 as u128) << 32u32) | ((h.2 as u128) << 64u32) | ((h.3 as u128) << 96u32)
}

/// MurmurHash3_x86_128 of the byte image of `words`.
pub open spec fn murmur3_x86_128_spec(words: Seq<u32>, seed: u32) -> u128 {
    x86_finish(
        x86_body(words, seed, words.len() / 4),
        (words.len() as u32).wrapping_mul(4),
    )
}

/// The elements of a run of chunks, in canonical order.
pub fn words_of<T: SimdType>(data: &[T]) -> (words: Vec<u32>)
    ensures
        words@ == crate::simd::vec::elements_of(data@),
        words@.len() % 4 == 0,
{
    let lanes: usize = T::lanes();
    let mut words: Vec<u32> = Vec::new();
    let mut c: usize = 0;
    while c < data.len()
        invariant
            c <= data@.len(),
            lanes == T::lanes_spec(),
            lanes == 4 || lanes == 8,
            words@.len() == c * lanes,
            forall|i: int, l: int|
                0 <= i < c && 0 <= l < lanes ==> #[trigger] data@[i].lane_bits()[l] == words@[i
                    * lanes + l],
        decreases data@.len() - c,
    {
        let chunk = data[c];
        let mut l: usize = 0;
        while l < lanes
            invariant
                l <= lanes,
                c < data@.len(),
                chunk == data@[c as int],
                lanes == T::lanes_spec(),
                lanes == 4 || lanes == 8,
                words@.len() == c * lanes + l,
                forall|i: int, m: int|
                    0 <= i < c && 0 <= m < lanes ==> #[trigger] data@[i].lane_bits()[m] == words@[i
                        * lanes + m],
                forall|m: int|
                    0 <= m < l ==> #[trigger] data@[c as int].lane_bits()[m] == words@[c * lanes
                        + m],
            decreases lanes - l,
        {
            let ghost before = words@;
            words.push(chunk.lane(l));
            assert forall|i: int, m: int| 0 <= i < c && 0 <= m < lanes
                implies #[trigger] data@[i].lane_bits()[m]
                == words@[i * lanes + m] by {
                crate::simd::vec::lemma_flat_index(i, m, c as int, lanes as int);
                assert(words@[i * lanes + m] == before[i * lanes + m]);
            }
            l += 1;
        }
        proof {
            assert(c * lanes + lanes == (c + 1) * lanes) by (nonlinear_arith);
            assert forall|i: int, m: int| 0 <= i < c + 1 && 0 <= m < lanes
                implies #[trigger] data@[i].lane_bits()[m]
                == words@[i * lanes + m] by {
                if i == c {
                    assert(data@[c as int].lane_bits()[m] == words@[c * lanes + m]);
                }
            }
        }
        c += 1;
    }
    proof {
        crate::simd::vec::lemma_elements_by_chunk(data@, words@);
        assert(words@.len() % 4 == 0) by (nonlinear_arith)
            requires
                words@.len() == data@.len() * lanes,
                lanes == 4 || lanes == 8,
        ;
    }
    words
}

/// The 64-bit little-endian unit that starts at word `at`.
fn getblock64(words: &Vec<u32>, at: usize) -> (k: u64)
    requires
        at + 1 < words.len(),
    ensures
        k == word_pair(words@[at as int], words@[at + 1]),
{
    (words[at] as u64) | ((words[at + 1] as u64) << 32u32)
}

/// Digests one 16-byte block into the x64 state.
fn x64_step(h: (u64, u64), k1: u64, k2: u64) -> (r: (u64, u64))
    ensures
        r == x64_block(h, k1, k2),
{
    reveal(x64_block);
    let k1: u64 = rotl64(k1.wrapping_mul(C64_1), 31).wrapping_mul(C64_2);
    let h1: u64 = rotl64(h.0 ^ k1, 27).wrapping_add(h.1).wrapping_mul(5).wrapping_add(0x52dce729);
    let k2: u64 = rotl64(k2.wrapping_mul(C64_2), 33).wrapping_mul(C64_1);
    let h2: u64 = rotl64(h.1 ^ k2, 31).wrapping_add(h1).wrapping_mul(5).wrapping_add(0x38495ab5);
    (h1, h2)
}

/// Finalises the x64 state into the digest.
fn x64_final(h: (u64, u64), len: u64) -> (digest: u128)
    ensures
        digest == x64_finish(h, len),
{
    reveal(x64_finish);
    let h1: u64 = h.0 ^ len;
    let h2: u64 = h.1 ^ len;
    let h1: u64 = h1.wrapping_add(h2);
    let h2: u64 = h2.wrapping_add(h1);
    let h1: u64 = fmix64(h1);
    let h2: u64 = fmix64(h2);
    let h1: u64 = h1.wrapping_add(h2);
    let h2: u64 = h2.wrapping_add(h1);
    (h1 as u128) | ((h2 as u128) << 64u32)
}

/// Digests one 16-byte block into the x86 state.
fn x86_step(h: (u32, u32, u32, u32), k: (u32, u32, u32, u32)) -> (r: (u32, u32, u32, u32))
    ensures
        r == x86_block(h, k),
{
    reveal(x86_block);
    let k1: u32 = rotl32(k.0.wrapping_mul(C32_1), 15).wrapping_mul(C32_2);
    let h1: u32 = rotl32(h.0 ^ k1, 19).wrapping_add(h.1).wrapping_mul(5).wrapping_add(0x561ccd1b);
    let k2: u32 = rotl32(k.1.wrapping_mul(C32_2), 16).wrapping_mul(C32_3);
    let h2: u32 = rotl32(h.1 ^ k2, 17).wrapping_add(h.2).wrapping_mul(5).wrapping_add(0x0bcaa747);
    let k3: u32 = rotl32(k.2.wrapping_mul(C32_3), 17).wrapping_mul(C32_4);
    let h3: u32 = rotl32(h.2 ^ k3, 15).wrapping_add(h.3).wrapping_mul(5).wrapping_add(0x96cd1c35);
    let k4: u32 = rotl32(k.3.wrapping_mul(C32_4), 18).wrapping_mul(C32_1);
    let h4: u32 = rotl32(h.3 ^ k4, 13).wrapping_add(h1).wrapping_mul(5).wrapping_add(0x32ac3b17);
    (h1, h2, h3, h4)
}

/// Adds the sum of the four state words back into the last three.
fn x86_sum(h: (u32, u32, u32, u32)) -> (r: (u32, u32, u32, u32))
    ensures
        r == x86_fold(h),
{
    let h1: u32 = h.0.wrapping_add(h.1).wrapping_add(h.2).wrapping_add(h.3);
    (h1, h.1.wrapping_add(h1), h.2.wrapping_add(h1), h.3.wrapping_add(h1))
}

/// Finalises the x86 state into the digest.
fn x86_final(h: (u32, u32, u32, u32), len: u32) -> (digest: u128)
    ensures
        digest == x86_finish(h, len),
{
    reveal(x86_finish);
    let h = x86_sum((h.0 ^ len, h.1 ^ len, h.2 ^ len, h.3 ^ len));
    let h = x86_sum((fmix32(h.0), fmix32(h.1), fmix32(h.2), fmix32(h.3)));
    (h.0 as u128) | ((h.1 as u128) << 32u32) | ((h.2 as u128) << 64u32) | ((h.3 as u128) << 96u32)
}

/// MurmurHash3_x86_128 over the byte image of `data`.
pub fn murmur3_x86_128<T: SimdType>(data: &[T], seed: u32) -> (digest: u128)
    ensures
        digest == murmur3_x86_128_spec(crate::simd::vec::elements_of(data@), seed),
{
    let words = words_of(data);
    let nblocks: usize = words.len() / 4;
    let mut h: (u32, u32, u32, u32) = (seed, seed, seed, seed);
    let mut b: usize = 0;
    while b < nblocks
        invariant
            b <= nblocks,
            nblocks == words@.len() / 4,
            4 * nblocks <= words@.len() <= usize::MAX,
            h == x86_body(words@, seed, b as nat),
        decreases nblocks - b,
    {
        let k = (words[4 * b], words[4 * b + 1], words[4 * b + 2], words[4 * b + 3]);
        h = x86_step(h, k);
        b += 1;
    }
    let len: u32 = (#[verifier::truncate] (words.len() as u32)).wrapping_mul(4);
    x86_final(h, len)
}

/// MurmurHash3_x64_128 over the byte image of `data`.
pub fn murmur3_x64_128<T: SimdType>(data: &[T], seed: u32) -> (digest: u128)
    ensures
        digest == murmur3_x64_128_spec(crate::simd::vec::elements_of(data@), seed),
{
    let words = words_of(data);
    let nblocks: usize = words.len() / 4;
    let mut h: (u64, u64) = (seed as u64, seed as u64);
    let mut b: usize = 0;
    while b < nblocks
        invariant
            b <= nblocks,
            nblocks == words@.len() / 4,
            4 * nblocks <= words@.len() <= usize::MAX,
            h == x64_body(words@, seed, b as nat),
        decreases nblocks - b,
    {
        let k1: u64 = getblock64(&words, 4 * b);
        let k2: u64 = getblock64(&words, 4 * b + 2);
        h = x64_step(h, k1, k2);
        b += 1;
    }
    let len: u64 = (words.len() as u64).wrapping_mul(4);
    x64_final(h, len)
}

} // verus!
