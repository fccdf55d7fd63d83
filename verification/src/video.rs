//! The video payload codec: one bit-packed descriptor byte (frame-type and
//! codec nibbles), then a codec-specific sub-payload. For the AVC codec the
//! sub-payload is a packet with a type byte, a signed 24-bit composition
//! time offset and raw coded data; for every other codec it is an opaque
//! byte buffer.
//!
//! Remaining-length arithmetic clamps at zero instead of underflowing: a
//! declared size smaller than the fixed header overhead yields an empty
//! data buffer, never a panic.

use crate::error::FlvError;
use crate::stream::{be_i24, i24_to_be, lemma_i24_be_round};
use crate::stream::{ByteReader, ByteWriter};
use vstd::prelude::*;

verus! {

/// The frame-type nibble of the descriptor byte.
pub struct FrameType;

impl FrameType {
    pub const KEYFRAME: u8 = 0x1;

    pub const INTER_FRAME: u8 = 0x2;

    pub const DISPOSABLE_INTER_FRAME: u8 = 0x3;

    pub const GENERATED_KEYFRAME: u8 = 0x4;

    pub const VIDEO_INFO: u8 = 0x5;
}

/// The codec nibble of the descriptor byte.
pub struct CodecId;

impl CodecId {
    pub const JPEG: u8 = 0x1;

    pub const SORENSON_H263: u8 = 0x2;

    pub const SCREEN_VIDEO: u8 = 0x3;

    pub const VP6: u8 = 0x4;

    pub const VP6_ALPHA: u8 = 0x5;

    pub const SCREEN_VIDEO_V2: u8 = 0x6;

    pub const AVC: u8 = 0x7;
}

/// The packet-type byte of an AVC sub-payload.
pub struct AvcPacketType;

impl AvcPacketType {
    pub const SEQUENCE_HEADER: u8 = 0;

    pub const NALU: u8 = 1;

    pub const EOS: u8 = 2;
}

// ---------------------------------------------------------------------------
// AvcVideoPacket
// ---------------------------------------------------------------------------
/// An AVC sub-payload: packet type, signed 24-bit composition time, and
/// the raw coded data.
#[derive(Debug, PartialEq, Eq)]
pub struct AvcVideoPacket {
    pub packet_type: u8,
    /// Held in an `i32`, carried on the wire as a signed 24-bit value.
    pub composition_time: i32,
    pub data: Vec<u8>,
}

/// The mathematical model of an AVC sub-payload.
pub struct AvcPacketView {
    pub packet_type: u8,
    pub composition_time: i32,
    pub data: Seq<u8>,
}

impl View for AvcVideoPacket {
    type V = AvcPacketView;

    open spec fn view(&self) -> AvcPacketView {
        AvcPacketView {
            packet_type: self.packet_type,
            composition_time: self.composition_time,
            data: self.data@,
        }
    }
}

/// The composition time fits its signed 24-bit wire field.
pub open spec fn avc_wf(p: AvcPacketView) -> bool {
    -0x80_0000 <= p.composition_time < 0x80_0000
}

/// Bytes an AVC sub-payload occupies: type, composition time, data.
pub open spec fn spec_size_avc(p: AvcPacketView) -> int {
    4 + p.data.len() as int
}

/// Wire bytes of an AVC sub-payload.
pub open spec fn spec_enc_avc(p: AvcPacketView) -> Seq<u8>
    recommends
        avc_wf(p),
{
    seq![p.packet_type] + i24_to_be(p.composition_time) + p.data
}

/// Parsing an AVC sub-payload of a tag whose declared payload size is
/// `ds` (descriptor byte included): the data length is the declared size
/// minus the five header bytes, clamped at zero.
pub open spec fn spec_parse_avc(b: Seq<u8>, ds: int) -> Result<(AvcPacketView, int), FlvError> {
    if b.len() < 4 {
        Err(FlvError::IoError)
    } else {
        let dl = if ds > 5 {
            ds - 5
        } else {
            0
        };
        if b.len() < 4 + dl {
            Err(FlvError::IoError)
        } else {
            Ok(
                (
                    AvcPacketView {
                        packet_type: b[0],
                        composition_time: be_i24(b.subrange(1, 4)),
                        data: b.subrange(4, 4 + dl),
                    },
                    4 + dl,
                ),
            )
        }
    }
}

impl AvcVideoPacket {
    /// The composition time fits its signed 24-bit wire field.
    pub open spec fn wf(&self) -> bool {
        avc_wf(self@)
    }

    pub fn size(&self) -> (n: usize)
        requires
            spec_size_avc(self@) <= usize::MAX,
        ensures
            n == spec_size_avc(self@),
    {
        4 + self.data.len()
    }

    pub fn decode(r: &mut ByteReader, data_size: usize) -> (res: Result<AvcVideoPacket, FlvError>)
        requires
            old(r).wf(),
        ensures
            final(r).wf(),
            final(r).data@ == old(r).data@,
            old(r).pos <= final(r).pos,
            match spec_parse_avc(old(r).remaining(), data_size as int) {
                Ok((p, n)) => res matches Ok(got) && got@ == p && got.wf() && final(r).pos == old(
                    r,
                ).pos + n,
                Err(e) => res matches Err(got) && got == e,
            },
    {
        let ghost b = old(r).remaining();
        let packet_type = match r.read_u8() {
            Some(v) => v,
            None => {
                return Err(FlvError::IoError);
            },
        };
        let composition_time = match r.read_i24_be() {
            Some(v) => v,
            None => {
                return Err(FlvError::IoError);
            },
        };
        proof {
            assert(b.subrange(1, 4) =~= b.skip(1).take(3));
        }
        let size = if data_size > 5 {
            data_size - 5
        } else {
            0
        };
        let data = match r.read_bytes(size) {
            Some(v) => v,
            None => {
                return Err(FlvError::IoError);
            },
        };
        proof {
            assert(data@ =~= b.subrange(4, 4 + size as int));
        }
        Ok(AvcVideoPacket { packet_type, composition_time, data })
    }

    pub fn encode(&self, w: &mut ByteWriter)
        requires
            self.wf(),
        ensures
            final(w).data@ == old(w).data@ + spec_enc_avc(self@),
    {
        w.write_u8(self.packet_type);
        w.write_i24_be(self.composition_time);
        w.write_bytes(self.data.as_slice());
        proof {
            assert(w.data@ =~= old(w).data@ + spec_enc_avc(self@));
        }
    }
}

// ---------------------------------------------------------------------------
// VideoData
// ---------------------------------------------------------------------------
/// The codec-specific part of a video payload.
#[derive(Debug, PartialEq, Eq)]
pub enum VideoData {
    Avc(AvcVideoPacket),
    Other(Vec<u8>),
}

/// The mathematical model of a codec-specific video sub-payload.
pub enum VideoDataView {
    Avc(AvcPacketView),
    Other(Seq<u8>),
}

impl View for VideoData {
    type V = VideoDataView;

    open spec fn view(&self) -> VideoDataView {
        match self {
            VideoData::Avc(p) => VideoDataView::Avc(p@),
            VideoData::Other(v) => VideoDataView::Other(v@),
        }
    }
}

/// Model-level validity of a video sub-payload.
pub open spec fn video_data_wf(d: VideoDataView) -> bool {
    match d {
        VideoDataView::Avc(p) => avc_wf(p),
        VideoDataView::Other(_) => true,
    }
}

/// Bytes a video sub-payload occupies on the wire.
pub open spec fn spec_size_video_data(d: VideoDataView) -> int {
    match d {
        VideoDataView::Avc(p) => spec_size_avc(p),
        VideoDataView::Other(v) => v.len() as int,
    }
}

/// Wire bytes of a video sub-payload.
pub open spec fn spec_enc_video_data(d: VideoDataView) -> Seq<u8>
    recommends
        video_data_wf(d),
{
    match d {
        VideoDataView::Avc(p) => spec_enc_avc(p),
        VideoDataView::Other(v) => v,
    }
}

/// Parsing a video sub-payload: AVC dispatches to the packet parser; any
/// other codec takes the declared size minus the descriptor byte, clamped
/// at zero, as an opaque buffer.
pub open spec fn spec_parse_video_data(b: Seq<u8>, ds: int, codec: u8) -> Result<
    (VideoDataView, int),
    FlvError,
> {
    if codec == CodecId::AVC {
        match spec_parse_avc(b, ds) {
            Ok((p, n)) => Ok((VideoDataView::Avc(p), n)),
            Err(e) => Err(e),
        }
    } else {
        let dl = if ds > 1 {
            ds - 1
        } else {
            0
        };
        if b.len() < dl {
            Err(FlvError::IoError)
        } else {
            Ok((VideoDataView::Other(b.take(dl)), dl))
        }
    }
}

impl VideoData {
    pub open spec fn wf(&self) -> bool {
        video_data_wf(self@)
    }

    pub fn size(&self) -> (n: usize)
        requires
            spec_size_video_data(self@) <= usize::MAX,
        ensures
            n == spec_size_video_data(self@),
    {
        match self {
            VideoData::Avc(p) => p.size(),
            VideoData::Other(v) => v.len(),
        }
    }

    pub fn decode(r: &mut ByteReader, data_size: usize, codec: u8) -> (res: Result<
        VideoData,
        FlvError,
    >)
        requires
            old(r).wf(),
        ensures
            final(r).wf(),
            final(r).data@ == old(r).data@,
            old(r).pos <= final(r).pos,
            match spec_parse_video_data(old(r).remaining(), data_size as int, codec) {
                Ok((d, n)) => res matches Ok(got) && got@ == d && got.wf() && final(r).pos == old(
                    r,
                ).pos + n,
                Err(e) => res matches Err(got) && got == e,
            },
    {
        if codec == CodecId::AVC {
            match AvcVideoPacket::decode(r, data_size) {
                Ok(p) => Ok(VideoData::Avc(p)),
                Err(e) => Err(e),
            }
        } else {
            let dl = if data_size > 1 {
                data_size - 1
            } else {
                0
            };
            let v = match r.read_bytes(dl) {
                Some(v) => v,
                None => {
                    return Err(FlvError::IoError);
                },
            };
            Ok(VideoData::Other(v))
        }
    }

    pub fn encode(&self, w: &mut ByteWriter)
        requires
            self.wf(),
        ensures
            final(w).data@ == old(w).data@ + spec_enc_video_data(self@),
    {
        match self {
            VideoData::Avc(p) => p.encode(w),
            VideoData::Other(v) => w.write_bytes(v.as_slice()),
        }
    }
}

// ---------------------------------------------------------------------------
// FlvVideoData
// ---------------------------------------------------------------------------
/// A whole video payload: the descriptor byte, then the sub-payload.
#[derive(Debug, PartialEq, Eq)]
pub struct FlvVideoData {
    pub frame_type: u8,
    pub codec: u8,
    pub video_data: VideoData,
}

/// The mathematical model of a video payload.
pub struct VideoView {
    pub frame_type: u8,
    pub codec: u8,
    pub video_data: VideoDataView,
}

impl View for FlvVideoData {
    type V = VideoView;

    open spec fn view(&self) -> VideoView {
        VideoView { frame_type: self.frame_type, codec: self.codec, video_data: self.video_data@ }
    }
}

/// Model-level validity of a video payload: both nibbles fit four bits,
/// the sub-payload is valid, and it is an AVC packet exactly when the
/// codec nibble says AVC.
pub open spec fn video_wf(v: VideoView) -> bool {
    &&& v.frame_type < 16
    &&& v.codec < 16
    &&& video_data_wf(v.video_data)
    &&& (v.video_data is Avc <==> v.codec == CodecId::AVC)
}

/// Bytes a video payload occupies, descriptor byte included.
pub open spec fn spec_size_video(v: VideoView) -> int {
    1 + spec_size_video_data(v.video_data)
}

/// Wire bytes of a video payload: the packed descriptor byte, then the
/// sub-payload.
pub open spec fn spec_enc_video(v: VideoView) -> Seq<u8>
    recommends
        video_wf(v),
{
    seq![(v.frame_type << 4) | v.codec] + spec_enc_video_data(v.video_data)
}

/// Parsing a video payload of declared size `ds`: the descriptor byte is
/// split into its nibbles, then the sub-payload parser runs.
pub open spec fn spec_parse_video(b: Seq<u8>, ds: int) -> Result<(VideoView, int), FlvError> {
    if b.len() < 1 {
        Err(FlvError::IoError)
    } else {
        let frame = (b[0] >> 4) & 0x0F;
        let codec = b[0] & 0x0F;
        match spec_parse_video_data(b.skip(1), ds, codec) {
            Ok((d, n)) => Ok((VideoView { frame_type: frame, codec, video_data: d }, 1 + n)),
            Err(e) => Err(e),
        }
    }
}

impl FlvVideoData {
    pub open spec fn wf(&self) -> bool {
        video_wf(self@)
    }

    /// Bytes this payload occupies on the wire, descriptor included.
    pub fn size(&self) -> (n: usize)
        requires
            spec_size_video(self@) <= usize::MAX,
        ensures
            n == spec_size_video(self@),
    {
        1 + self.video_data.size()
    }

    pub fn decode(r: &mut ByteReader, data_size: u32) -> (res: Result<FlvVideoData, FlvError>)
        requires
            old(r).wf(),
        ensures
            final(r).wf(),
            final(r).data@ == old(r).data@,
            old(r).pos <= final(r).pos,
            match spec_parse_video(old(r).remaining(), data_size as int) {
                Ok((v, n)) => res matches Ok(got) && got@ == v && got.wf() && final(r).pos == old(
                    r,
                ).pos + n,
                Err(e) => res matches Err(got) && got == e,
            },
    {
        let ghost b = old(r).remaining();
        let frame_codec = match r.read_u8() {
            Some(v) => v,
            None => {
                return Err(FlvError::IoError);
            },
        };
        let frame = (frame_codec >> 4) & 0x0F;
        let codec = frame_codec & 0x0F;
        proof {
            assert(r.remaining() =~= b.skip(1));
            assert((frame_codec >> 4) & 0x0F < 16 && frame_codec & 0x0F < 16) by (bit_vector);
        }
        let video_data = match VideoData::decode(r, data_size as usize, codec) {
            Ok(d) => d,
            Err(e) => {
                return Err(e);
            },
        };
        proof {
            if codec == CodecId::AVC {
                assert(video_data@ is Avc);
            }
        }
        Ok(FlvVideoData { frame_type: frame, codec, video_data })
    }

    pub fn encode(&self, w: &mut ByteWriter)
        requires
            self.wf(),
        ensures
            final(w).data@ == old(w).data@ + spec_enc_video(self@),
    {
        w.write_u8((self.frame_type << 4) | self.codec);
        self.video_data.encode(w);
        proof {
            assert(w.data@ =~= old(w).data@ + spec_enc_video(self@));
        }
    }
}

// ---------------------------------------------------------------------------
// Laws
// ---------------------------------------------------------------------------
/// Size law: a video payload encodes to exactly its computed size.
pub proof fn lemma_video_size(v: VideoView)
    ensures
        spec_enc_video(v).len() == spec_size_video(v),
{
}

/// The underflow clamp: an AVC sub-payload under a declared size of five
/// or less never underflows; its data length is clamped to zero and only
/// the four header bytes are consumed.
pub proof fn lemma_avc_clamp(b: Seq<u8>, ds: int)
    ensures
        spec_parse_avc(b, ds) matches Ok((p, n)) ==> (ds <= 5 ==> p.data.len() == 0 && n == 4),
{
}

/// Round trip: a well-formed video payload parses back from its own
/// encoding when the declared size is its exact encoded length. The
/// declared size of an AVC payload with empty data is exactly five, and
/// the clamp then yields an empty buffer again.
pub proof fn lemma_video_round_trip(v: VideoView, rest: Seq<u8>)
    requires
        video_wf(v),
    ensures
        spec_parse_video(spec_enc_video(v) + rest, spec_size_video(v)) == Ok::<
            (VideoView, int),
            FlvError,
        >((v, spec_size_video(v))),
{
    let b = spec_enc_video(v) + rest;
    let ds = spec_size_video(v);
    let ft = v.frame_type;
    let cc = v.codec;
    let fb = (ft << 4) | cc;
    assert(b[0] == fb);
    assert(ft < 16 && cc < 16 ==> ((fb >> 4) & 0x0F == ft && fb & 0x0F == cc)) by (bit_vector)
        requires
            fb == (ft << 4) | cc,
    ;
    let b1 = b.skip(1);
    match v.video_data {
        VideoDataView::Avc(p) => {
            assert(b1 =~= spec_enc_avc(p) + rest);
            lemma_i24_be_round(p.composition_time);
            assert(b1[0] == p.packet_type);
            assert(b1.subrange(1, 4) =~= i24_to_be(p.composition_time));
            let dl = p.data.len() as int;
            assert(ds == 5 + dl);
            assert(b1.subrange(4, 4 + dl) =~= p.data);
        },
        VideoDataView::Other(d) => {
            assert(b1 =~= d + rest);
            let dl = d.len() as int;
            assert(ds == 1 + dl);
            assert(b1.take(dl) =~= d);
        },
    }
}

} // verus!
