//! Lane-packed registers and the fixed-dimension vectors built from them.

pub mod base;
pub mod murmur;
pub mod single;
pub mod vec;

pub use base::{try_pack, FusedMulAdd, PackError, SimdNativeType, SimdType, SimdTypeProxy};
pub use vec::SimdVecImpl;
