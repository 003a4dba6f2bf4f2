//! The binary encoding of a vector: the dimension as a little-endian 32-bit
//! count, then every element as four little-endian bytes.

use crate::lsh::vector::Vector;
use byteorder::ByteOrder;
use vstd::prelude::*;

verus! {

/// Why a byte string is not the encoding of a vector or of a projection.
#[derive(Clone, Copy, Debug, PartialEq, Eq, Structural)]
pub enum DecodeError {
    /// Fewer than the four bytes of the dimension.
    TooShort,
    /// The number of bytes after the dimension is not four times the
    /// dimension.
    InvalidLength,
    /// The vector is not of unit norm within the tolerance.
    InvalidValue,
}

/// The word whose little-endian bytes are `b0`, `b1`, `b2`, `b3`.
pub open spec fn le_word(b0: u8, b1: u8, b2: u8, b3: u8) -> u32 {
    (b0 + 0x100 * b1 + 0x1_0000 * b2 + 0x100_0000 * b3) as u32
}

/// The four little-endian bytes of `w`.
pub open spec fn le_bytes(w: u32) -> Seq<u8> {
    seq![
        (w % 0x100) as u8,
        (w / 0x100 % 0x100) as u8,
        (w / 0x1_0000 % 0x100) as u8,
        (w / 0x100_0000) as u8,
    ]
}

/// The words that `bytes` holds, four bytes to a word; a trailing part of
/// fewer than four bytes is not read.
pub open spec fn words_from_le(bytes: Seq<u8>) -> Seq<u32> {
    Seq::new(
        bytes.len() / 4,
        |i: int| le_word(bytes[4 * i], bytes[4 * i + 1], bytes[4 * i + 2], bytes[4 * i + 3]),
    )
}

/// The little-endian bytes of `words`, in order.
pub open spec fn words_to_le(words: Seq<u32>) -> Seq<u8> {
    Seq::new(4 * words.len(), |k: int| le_bytes(words[k / 4])[k % 4])
}

/// The encoding of a vector with the elements `elts`; the count is the
/// number of elements modulo 2^32.
pub open spec fn encode_spec(elts: Seq<u32>) -> Seq<u8> {
    le_bytes((elts.len() % 0x1_0000_0000) as u32) + words_to_le(elts)
}

/// The elements that `bytes` declares, or why they are refused.
pub open spec fn declared_elements(bytes: Seq<u8>) -> Result<Seq<u32>, DecodeError> {
    if bytes.len() < 4 {
        Err(DecodeError::TooShort)
    } else if bytes.len() - 4 != 4 * le_word(bytes[0], bytes[1], bytes[2], bytes[3]) {
        Err(DecodeError::InvalidLength)
    } else {
        Ok(words_from_le(bytes.subrange(4, bytes.len() as int)))
    }
}

/// The elements of the vector of dimension `d` that `bytes` decodes to: the
/// declared elements, padded with `+0.0` or truncated to `d`.
pub open spec fn decode_spec(bytes: Seq<u8>, d: nat) -> Result<Seq<u32>, DecodeError> {
    match declared_elements(bytes) {
        Ok(elts) => Ok(crate::simd::vec::pad_or_truncate(elts, d)),
        Err(e) => Err(e),
    }
}

/// Reads `n` words with `byteorder::LittleEndian::read_u32_into`, which
/// reads word `i` from the bytes `4 * i .. 4 * i + 4` of `src`, least
/// significant byte first, and panics unless `src` is exactly `4 * n` bytes
/// long.
#[verifier::external_body]
fn read_words(src: &[u8], n: usize) -> (dst: Vec<u32>)
    requires
        src@.len() == 4 * n,
    ensures
        dst@ == words_from_le(src@),
{
    let mut dst = vec![0u32; n];
    byteorder::LittleEndian::read_u32_into(src, &mut dst);
    dst
}

/// Appends the four little-endian bytes of `w`.
pub fn put_word(buf: &mut Vec<u8>, w: u32)
    ensures
        final(buf)@ == old(buf)@ + le_bytes(w),
{
    buf.push((w % 0x100) as u8);
    buf.push((w / 0x100 % 0x100) as u8);
    buf.push((w / 0x1_0000 % 0x100) as u8);
    buf.push((w / 0x100_0000) as u8);
    assert(buf@ =~= old(buf)@ + le_bytes(w));
}

/// Appends the little-endian bytes of every word.
pub fn put_words(buf: &mut Vec<u8>, words: &Vec<u32>)
    ensures
        final(buf)@ == old(buf)@ + words_to_le(words@),
{
    let ghost start = buf@;
    let mut i: usize = 0;
    while i < words.len()
        invariant
            i <= words.len(),
            buf@.len() == start.len() + 4 * i,
            forall|j: int| 0 <= j < start.len() ==> buf@[j] == start[j],
            forall|k: int|
                0 <= k < 4 * i ==> #[trigger] buf@[start.len() + k] == le_bytes(words@[k / 4])[k
                    % 4],
        decreases words.len() - i,
    {
        let ghost before = buf@;
        put_word(buf, words[i]);
        assert forall|k: int| 0 <= k < 4 * (i + 1) implies #[trigger] buf@[start.len() + k]
            == le_bytes(words@[k / 4])[k % 4] by {
            if k < 4 * i {
                assert(buf@[start.len() + k] == before[start.len() + k]);
            } else {
                assert(buf@[start.len() + k] == le_bytes(words@[i as int])[k - 4 * i]);
            }
        }
        i += 1;
    }
    assert forall|j: int| 0 <= j < buf@.len()
        implies buf@[j] == (start + words_to_le(words@))[j] by {
        if j >= start.len() {
            let k = j - start.len();
            assert(buf@[start.len() + k] == le_bytes(words@[k / 4])[k % 4]);
        }
    }
    assert(buf@ =~= start + words_to_le(words@));
}

/// The encoding of `v`: its dimension, then its elements.
pub fn encode<T: Vector>(v: &T) -> (bytes: Vec<u8>)
    ensures
        bytes@ == encode_spec(v.elements()),
{
    let elts = v.to_vec();
    let mut buf: Vec<u8> = Vec::new();
    let count: u32 = (elts.len() as u64 % 0x1_0000_0000) as u32;
    put_word(&mut buf, count);
    put_words(&mut buf, &elts);
    assert(buf@ =~= encode_spec(v.elements()));
    buf
}

/// The elements of `v` alone, without the dimension in front.
pub fn encode_elements<T: Vector>(v: &T) -> (bytes: Vec<u8>)
    ensures
        bytes@ == words_to_le(v.elements()),
{
    let elts = v.to_vec();
    let mut buf: Vec<u8> = Vec::new();
    put_words(&mut buf, &elts);
    assert(buf@ =~= words_to_le(v.elements()));
    buf
}

/// Decodes a vector.  A byte string is refused when it is shorter than the
/// dimension field or when its length disagrees with the dimension that it
/// declares; the declared elements are then padded or truncated to the
/// dimension of `T`.
pub fn decode<T: Vector>(bytes: &[u8]) -> (r: Result<T, DecodeError>)
    ensures
        match r {
            Ok(v) => decode_spec(bytes@, T::dimension_spec()) == Ok::<Seq<u32>, DecodeError>(
                v.elements(),
            ),
            Err(e) => decode_spec(bytes@, T::dimension_spec()) == Err::<Seq<u32>, DecodeError>(e),
        },
{
    if bytes.len() < 4 {
        return Err(DecodeError::TooShort);
    }
    let head = read_words(vstd::slice::slice_subrange(bytes, 0, 4), 1);
    let dim: u32 = head[0];
    assert(dim == le_word(bytes@[0], bytes@[1], bytes@[2], bytes@[3])) by {
        let h = bytes@.subrange(0, 4);
        assert(h[0] == bytes@[0] && h[1] == bytes@[1] && h[2] == bytes@[2] && h[3] == bytes@[3]);
    }
    let body_len: usize = bytes.len() - 4;
    if body_len as u64 != 4 * (dim as u64) {
        return Err(DecodeError::InvalidLength);
    }
    let body = vstd::slice::slice_subrange(bytes, 4, bytes.len());
    let elts = read_words(body, body_len / 4);
    Ok(T::from_iter(elts))
}

/// The bytes of a word read back give the word.
pub proof fn lemma_le_round_trip(w: u32)
    ensures
        le_word(le_bytes(w)[0], le_bytes(w)[1], le_bytes(w)[2], le_bytes(w)[3]) == w,
{
}

/// The word of four bytes written back gives the bytes.
pub proof fn lemma_le_bytes_of_word(b0: u8, b1: u8, b2: u8, b3: u8)
    ensures
        le_bytes(le_word(b0, b1, b2, b3)) == seq![b0, b1, b2, b3],
{
    let w: int = b0 + 0x100 * b1 + 0x1_0000 * b2 + 0x100_0000 * b3;
    let w1: int = b1 + 0x100 * b2 + 0x1_0000 * b3;
    let w2: int = b2 + 0x100 * b3;
    assert(w == 0x100 * w1 + b0);
    assert(w / 0x100 == w1 && w % 0x100 == b0);
    assert(w1 == 0x100 * w2 + b1);
    assert(w1 / 0x100 == w2 && w1 % 0x100 == b1);
    assert(w2 / 0x100 == b3 && w2 % 0x100 == b2);
    assert(w / 0x1_0000 == w2);
    assert(w / 0x100_0000 == b3);
    assert(le_word(b0, b1, b2, b3) == w);
    assert(le_bytes(le_word(b0, b1, b2, b3)) =~= seq![b0, b1, b2, b3]);
}

/// The bytes of one more word follow the bytes of the words before it.
pub proof fn lemma_words_to_le_push(words: Seq<u32>, w: u32)
    ensures
        words_to_le(words.push(w)) == words_to_le(words) + le_bytes(w),
{
    assert(words_to_le(words.push(w)) =~= words_to_le(words) + le_bytes(w));
}

/// The words of an encoding read back give the words.
pub proof fn lemma_words_round_trip(words: Seq<u32>)
    ensures
        words_from_le(words_to_le(words)) == words,
{
    let bytes = words_to_le(words);
    assert forall|i: int| 0 <= i < words.len() implies words_from_le(bytes)[i] == words[i] by {
        lemma_le_round_trip(words[i]);
        assert((4 * i) / 4 == i && (4 * i + 1) / 4 == i && (4 * i + 2) / 4 == i && (4 * i + 3) / 4
            == i);
    }
    assert(words_from_le(bytes) =~= words);
}

/// An encoding declares its own elements.
pub proof fn lemma_declared_encode(elts: Seq<u32>)
    requires
        elts.len() <= u32::MAX,
    ensures
        declared_elements(encode_spec(elts)) == Ok::<Seq<u32>, DecodeError>(elts),
{
    let count = (elts.len() % 0x1_0000_0000) as u32;
    let head = le_bytes(count);
    let body = words_to_le(elts);
    let bytes = head + body;
    assert(bytes == encode_spec(elts));
    assert(head.len() == 4);
    assert(bytes.len() == 4 + 4 * elts.len());
    assert(bytes[0] == head[0] && bytes[1] == head[1] && bytes[2] == head[2] && bytes[3]
        == head[3]);
    lemma_le_round_trip(count);
    assert(le_word(bytes[0], bytes[1], bytes[2], bytes[3]) == count);
    assert(bytes.subrange(4, bytes.len() as int) =~= body);
    lemma_words_round_trip(elts);
}

/// Decoding an encoded vector gives back every element exactly, provided the
/// dimension fits the 32-bit count.
pub proof fn lemma_decode_encode(elts: Seq<u32>)
    requires
        elts.len() <= u32::MAX,
    ensures
        decode_spec(encode_spec(elts), elts.len()) == Ok::<Seq<u32>, DecodeError>(elts),
{
    lemma_declared_encode(elts);
    assert(crate::simd::vec::pad_or_truncate(elts, elts.len()) =~= elts);
}

} // verus!
