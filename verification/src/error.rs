//! The error taxonomy of the container codec.

use crate::script::Amf0Error;
use vstd::prelude::*;

verus! {

/// Everything that can go wrong while decoding or encoding a stream.
#[derive(Debug, Clone, Copy, PartialEq, Eq)]
pub enum FlvError {
    /// The byte source ran out in the middle of a field (a short read).
    IoError,
    /// The three signature bytes are not the fixed constant.
    InvalidSignature,
    /// The header version byte is not 1.
    InvalidVersion,
    /// The header data-offset word is not 9.
    InvalidDataOffset,
    /// A tag type byte that is none of audio, video or script data.
    InvalidTagType,
    /// The four bytes after the header are not the zero sentinel.
    InvalidFile,
    /// A script payload failed to decode.
    Amf0Error(Amf0Error),
}

} // verus!
