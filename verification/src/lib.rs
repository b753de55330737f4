//! Cache-line-sized bit blocks and a growable vector of them, with
//! in-place bulk bitwise operations (XOR, complement) and word-level access.

pub mod aligned_chunk;
