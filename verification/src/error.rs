//! The error taxonomy of the decoder.

use vstd::prelude::*;

use crate::chunk::ChunkType;

verus! {

/// Why a decode was aborted.
///
/// - `Format`: a bad signature, truncated framing, or an invalid numeric code.
/// - `Ordering`: a chunk violated the sequencing rules; carries the offending
///   chunk type.
/// - `Unsupported`: a palette image reached reconstruction, or an unknown
///   chunk type reached validation.
/// - `Inflate`: the decompressor reported an error, or ran out of input on
///   the final IDAT chunk.
#[derive(Debug, Clone, Copy)]
pub enum PngError {
    Format,
    Ordering(ChunkType),
    Unsupported,
    Inflate,
}

} // verus!
