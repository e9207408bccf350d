//! A from-scratch, verified PNG decoder: chunk framing, chunk-ordering
//! validation, zlib inflation of the IDAT payloads as one logical stream,
//! and per-scanline filter reconstruction.

pub mod chunk;
pub mod chunk_data;
pub mod color;
pub mod error;
pub mod filter;
pub mod png;

use vstd::prelude::*;

verus! {

} // verus!
