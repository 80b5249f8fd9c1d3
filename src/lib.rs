//! Oblivious transfer for two-party computation: the Chou–Orlandi base OT
//! over Ristretto, the ALSZ extension of 128 base OTs into many OTs of
//! 16-byte blocks, and the KKRT batch OPRF, built on verified byte-level
//! kernels (XOR, bit packing, bit-matrix transpose) and a wire codec.

pub mod bits;
pub mod crypto;
pub mod error;
pub mod group;
pub mod wire;
pub mod chou_orlandi;
pub mod alsz;
pub mod kkrt;
