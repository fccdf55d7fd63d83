//! The fixed nine-byte file header: a three-byte signature, a version byte,
//! one byte of presence flags, and a four-byte data offset that must equal
//! the header's own length.
//!
//! The header owns all nine of its bytes, the data-offset word included;
//! the stream aggregator owns only the zero sentinel that follows it.

use crate::error::FlvError;
use crate::stream::{be_u24, be_u32, u24_to_be, u32_to_be};
use crate::stream::{lemma_u24_be_round, lemma_u32_be_round};
use crate::stream::{ByteReader, ByteWriter};
use vstd::prelude::*;

verus! {

pub const FLV_HEADER_SIGNATURE: u32 = 0x464c56;

pub const FLV_HEADER_VERSION: u8 = 0x1;

/// The header's flag byte. Unknown bits are retained verbatim.
#[derive(PartialEq, Eq, Debug, Clone, Copy)]
pub struct HeaderFlags {
    pub bits: u8,
}

impl HeaderFlags {
    pub const AUDIO: u8 = 0x1;

    pub const VIDEO: u8 = 0x4;

    pub fn from_bits_retain(bits: u8) -> (r: HeaderFlags)
        ensures
            r.bits == bits,
    {
        HeaderFlags { bits }
    }

    pub fn bits(&self) -> (r: u8)
        ensures
            r == self.bits,
    {
        self.bits
    }

    pub fn has_audio(&self) -> (r: bool)
        ensures
            r == (self.bits & HeaderFlags::AUDIO != 0),
    {
        self.bits & HeaderFlags::AUDIO != 0
    }

    pub fn has_video(&self) -> (r: bool)
        ensures
            r == (self.bits & HeaderFlags::VIDEO != 0),
    {
        self.bits & HeaderFlags::VIDEO != 0
    }
}

#[derive(Debug, Clone, Copy, PartialEq, Eq)]
pub struct FlvHeader {
    /// Always the three bytes 0x46, 0x4c, 0x56.
    pub signature: u32,
    /// Must be 1.
    pub version: u8,
    pub flags: HeaderFlags,
    /// Must be 9, the header's own byte length.
    pub data_offset: u32,
}

impl FlvHeader {
    /// A header that decode can produce: the three validated fields hold
    /// their required values.
    pub open spec fn wf(&self) -> bool {
        &&& self.signature == FLV_HEADER_SIGNATURE
        &&& self.version == FLV_HEADER_VERSION
        &&& self.data_offset == 9
    }

    /// The nine bytes of a header on the wire.
    pub open spec fn spec_encode(self) -> Seq<u8> {
        u24_to_be(self.signature) + seq![self.version, self.flags.bits] + u32_to_be(
            self.data_offset,
        )
    }

    /// What decoding a byte sequence as a header yields: the header and the
    /// number of bytes it occupies, or the first error encountered.
    pub open spec fn spec_parse(b: Seq<u8>) -> Result<(FlvHeader, int), FlvError> {
        if b.len() < 3 {
            Err(FlvError::IoError)
        } else if be_u24(b.take(3)) != FLV_HEADER_SIGNATURE {
            Err(FlvError::InvalidSignature)
        } else if b.len() < 4 {
            Err(FlvError::IoError)
        } else if b[3] != FLV_HEADER_VERSION {
            Err(FlvError::InvalidVersion)
        } else if b.len() < 9 {
            Err(FlvError::IoError)
        } else if be_u32(b.subrange(5, 9)) != 9 {
            Err(FlvError::InvalidDataOffset)
        } else {
            Ok(
                (
                    FlvHeader {
                        signature: FLV_HEADER_SIGNATURE,
                        version: FLV_HEADER_VERSION,
                        flags: HeaderFlags { bits: b[4] },
                        data_offset: 9,
                    },
                    9,
                ),
            )
        }
    }

    pub fn decode(r: &mut ByteReader) -> (res: Result<FlvHeader, FlvError>)
        requires
            old(r).wf(),
        ensures
            final(r).wf(),
            final(r).data@ == old(r).data@,
            old(r).pos <= final(r).pos,
            match FlvHeader::spec_parse(old(r).remaining()) {
                Ok((h, n)) => res matches Ok(got) && got == h && got.wf() && final(r).pos == old(
                    r,
                ).pos + n,
                Err(e) => res matches Err(got) && got == e,
            },
    {
        let ghost b = old(r).remaining();
        let signature = match r.read_u24_be() {
            Some(v) => v,
            None => {
                return Err(FlvError::IoError);
            },
        };
        if signature != FLV_HEADER_SIGNATURE {
            return Err(FlvError::InvalidSignature);
        }
        let version = match r.read_u8() {
            Some(v) => v,
            None => {
                return Err(FlvError::IoError);
            },
        };
        proof {
            assert(r.remaining() =~= b.skip(4));
            assert(version == b[3]);
        }
        if version != FLV_HEADER_VERSION {
            return Err(FlvError::InvalidVersion);
        }
        let flags = match r.read_u8() {
            Some(v) => v,
            None => {
                return Err(FlvError::IoError);
            },
        };
        proof {
            assert(flags == b[4]);
        }
        let data_offset = match r.read_u32_be() {
            Some(v) => v,
            None => {
                return Err(FlvError::IoError);
            },
        };
        proof {
            assert(b.skip(5).take(4) =~= b.subrange(5, 9));
        }
        if data_offset != 9 {
            return Err(FlvError::InvalidDataOffset);
        }
        Ok(
            FlvHeader {
                signature,
                version,
                flags: HeaderFlags::from_bits_retain(flags),
                data_offset,
            },
        )
    }

    pub fn encode(&self, w: &mut ByteWriter)
        requires
            self.wf(),
        ensures
            final(w).data@ == old(w).data@ + self.spec_encode(),
    {
        w.write_u24_be(self.signature);
        w.write_u8(self.version);
        w.write_u8(self.flags.bits);
        w.write_u32_be(self.data_offset);
        proof {
            assert(w.data@ =~= old(w).data@ + self.spec_encode());
        }
    }
}

/// Round trip: a well-formed header decodes from its own encoding, whatever
/// follows it on the wire, and occupies exactly nine bytes.
pub proof fn lemma_header_round_trip(h: FlvHeader, rest: Seq<u8>)
    requires
        h.wf(),
    ensures
        FlvHeader::spec_parse(h.spec_encode() + rest) == Ok::<(FlvHeader, int), FlvError>((h, 9)),
        h.spec_encode().len() == 9,
{
    let b = h.spec_encode() + rest;
    lemma_u24_be_round(h.signature);
    lemma_u32_be_round(h.data_offset);
    assert(b.take(3) =~= u24_to_be(h.signature));
    assert(b[3] == h.version);
    assert(b[4] == h.flags.bits);
    assert(b.subrange(5, 9) =~= u32_to_be(h.data_offset));
    assert(FlvHeader::spec_parse(b) matches Ok((got, n)) && got == h && n == 9);
}

/// A header is rejected when the signature, the version or the data offset
/// is wrong, each input with its own distinct error kind.
pub proof fn lemma_header_rejects(b: Seq<u8>)
    ensures
        b.len() >= 3 && be_u24(b.take(3)) != FLV_HEADER_SIGNATURE ==> FlvHeader::spec_parse(b)
            == Err::<(FlvHeader, int), FlvError>(FlvError::InvalidSignature),
        b.len() >= 4 && be_u24(b.take(3)) == FLV_HEADER_SIGNATURE && b[3] != FLV_HEADER_VERSION
            ==> FlvHeader::spec_parse(b) == Err::<(FlvHeader, int), FlvError>(
            FlvError::InvalidVersion,
        ),
        b.len() >= 9 && be_u24(b.take(3)) == FLV_HEADER_SIGNATURE && b[3] == FLV_HEADER_VERSION
            && be_u32(b.subrange(5, 9)) != 9 ==> FlvHeader::spec_parse(b) == Err::<
            (FlvHeader, int),
            FlvError,
        >(FlvError::InvalidDataOffset),
{
}

} // verus!
