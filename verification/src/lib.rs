//! Approximate nearest-neighbour search over fixed-dimension single-precision
//! vectors, built on sign-of-random-projection hashing.
//!
//! * [`simd`] holds the vectors: chunks of four or eight lanes, their
//!   arithmetic, the inner product and the Euclidean distance, and the
//!   128-bit MurmurHash3 that identifies a vector by its content.
//! * [`lsh`] holds the index: random projections, the 64-bit key that a
//!   family of projections gives a vector, the replica tables that sort
//!   vectors into buckets by key, and the query for the nearest stored
//!   vector among those that share a bucket with the query vector.
//! * [`codec`] holds the binary encoding of vectors.
//! * [`net`] holds the request protocol: frames and their wire format, the
//!   `get` and `put` commands, and the course of a session.
//!
//! Single-precision values are carried as their IEEE-754 bit patterns
//! (`u32`) throughout.  What is decided about them, sign and order, is
//! decided on the bit patterns; the arithmetic itself is supplied by an
//! implementor of [`simd::SimdNativeType`], and results are named after the
//! operation that gave them.

pub mod codec;
pub mod lsh;
pub mod net;
pub mod simd;
