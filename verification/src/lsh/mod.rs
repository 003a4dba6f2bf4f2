//! Locality-sensitive hashing: random projections, the hash built from
//! them, and the index of replica tables.

pub mod lsh_database;
pub mod random_projection;
pub mod stable_hash;
pub mod vector;

pub use lsh_database::{
    CacheItem, Cacheable, LocalitySensitiveHashDatabase, LocalitySensitiveHashTable,
};
pub use random_projection::RandomProjection;
pub use stable_hash::StableHashFunction;
pub use vector::{Vector, VectorArithmetic};
