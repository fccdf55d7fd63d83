//! The tag envelope codec: the outer header of one stream chunk (type,
//! declared payload size, timestamp, stream id), the type-dispatched
//! payload, and the trailing back-pointer.
//!
//! On encode the declared size is recomputed from the payload and the
//! back-pointer is the payload size plus the eleven envelope bytes, as the
//! format demands; stored values are never trusted. On decode the declared
//! size and back-pointer are recorded as read, without validation, so that
//! slightly malformed producers can still be decoded.

use crate::audio::{audio_wf, spec_enc_audio, spec_parse_audio, spec_size_audio, FlvAudioTag};
use crate::audio::{AudioDataView, AudioView};
use crate::error::FlvError;
use crate::script::{ecma_wf, lpstr_wf, script_wf, FlvScriptTag};
use crate::script::{spec_enc_script, spec_parse_script, spec_size_script, ScriptView};
use crate::stream::{be_u24, be_u32, u24_to_be, u32_to_be};
use crate::stream::{lemma_u24_be_round, lemma_u32_be_round};
use crate::stream::{ByteReader, ByteWriter};
use crate::video::{spec_enc_video, spec_parse_video, spec_size_video, video_wf, FlvVideoData};
use crate::video::{VideoDataView, VideoView};
use vstd::prelude::*;

verus! {

/// The tag-type byte of the envelope.
pub struct FlvTagType;

impl FlvTagType {
    pub const VIDEO: u8 = 9;

    pub const AUDIO: u8 = 8;

    pub const SCRIPT_DATA: u8 = 18;
}

// ---------------------------------------------------------------------------
// FlvTagData
// ---------------------------------------------------------------------------
/// A tag's payload, dispatched by the envelope's type byte.
#[derive(Debug, PartialEq, Eq)]
pub enum FlvTagData {
    Video(FlvVideoData),
    Audio(FlvAudioTag),
    Script(FlvScriptTag),
}

/// The mathematical model of a tag payload.
pub enum TagDataView {
    Video(VideoView),
    Audio(AudioView),
    Script(ScriptView),
}

impl View for FlvTagData {
    type V = TagDataView;

    open spec fn view(&self) -> TagDataView {
        match self {
            FlvTagData::Video(v) => TagDataView::Video(v@),
            FlvTagData::Audio(a) => TagDataView::Audio(a@),
            FlvTagData::Script(s) => TagDataView::Script(s@),
        }
    }
}

/// What encoding a payload needs of it: each variant valid enough to pack
/// its own fields. A script payload's recorded size is not constrained
/// here; full validity is `tag_data_wf`.
pub open spec fn tag_data_encodable(d: TagDataView) -> bool {
    match d {
        TagDataView::Video(v) => video_wf(v),
        TagDataView::Audio(a) => audio_wf(a),
        TagDataView::Script(s) => lpstr_wf(s.name) && ecma_wf(s.props),
    }
}

/// Model-level validity of a tag payload.
pub open spec fn tag_data_wf(d: TagDataView) -> bool {
    match d {
        TagDataView::Video(v) => video_wf(v),
        TagDataView::Audio(a) => audio_wf(a),
        TagDataView::Script(s) => script_wf(s),
    }
}

/// Bytes a payload occupies on the wire, computed from its structure; a
/// script payload's recorded size field plays no part here.
pub open spec fn spec_size_tag_data(d: TagDataView) -> int {
    match d {
        TagDataView::Video(v) => spec_size_video(v),
        TagDataView::Audio(a) => spec_size_audio(a),
        TagDataView::Script(s) => spec_size_script(s),
    }
}

/// Wire bytes of a payload.
pub open spec fn spec_enc_tag_data(d: TagDataView) -> Seq<u8>
    recommends
        tag_data_encodable(d),
{
    match d {
        TagDataView::Video(v) => spec_enc_video(v),
        TagDataView::Audio(a) => spec_enc_audio(a),
        TagDataView::Script(s) => spec_enc_script(s),
    }
}

/// Parsing a payload, dispatched by the envelope's type byte; any other
/// type byte is rejected.
pub open spec fn spec_parse_tag_data(b: Seq<u8>, tag_type: u8, ds: int) -> Result<
    (TagDataView, int),
    FlvError,
> {
    if tag_type == FlvTagType::VIDEO {
        match spec_parse_video(b, ds) {
            Ok((v, n)) => Ok((TagDataView::Video(v), n)),
            Err(e) => Err(e),
        }
    } else if tag_type == FlvTagType::AUDIO {
        match spec_parse_audio(b, ds) {
            Ok((a, n)) => Ok((TagDataView::Audio(a), n)),
            Err(e) => Err(e),
        }
    } else if tag_type == FlvTagType::SCRIPT_DATA {
        match spec_parse_script(b, ds) {
            Ok((s, n)) => Ok((TagDataView::Script(s), n)),
            Err(e) => Err(FlvError::Amf0Error(e)),
        }
    } else {
        Err(FlvError::InvalidTagType)
    }
}

impl FlvTagData {
    /// Each variant is valid enough to encode itself: nibble fields in
    /// range and stored size fields consistent with the content.
    pub open spec fn encodable(&self) -> bool {
        match self {
            FlvTagData::Video(v) => v.wf(),
            FlvTagData::Audio(a) => a.wf(),
            FlvTagData::Script(s) => s.name.wf() && s.ecma.wf(),
        }
    }

    /// Bytes this payload occupies on the wire, computed from structure.
    pub fn size(&self) -> (n: usize)
        requires
            self.encodable(),
            spec_size_tag_data(self@) <= usize::MAX,
        ensures
            n == spec_size_tag_data(self@),
    {
        match self {
            FlvTagData::Video(video) => video.size(),
            FlvTagData::Audio(audio) => audio.size(),
            FlvTagData::Script(script) => script.size(),
        }
    }

    pub fn decode(r: &mut ByteReader, tag_type: u8, data_size: u32) -> (res: Result<
        FlvTagData,
        FlvError,
    >)
        requires
            old(r).wf(),
        ensures
            final(r).wf(),
            final(r).data@ == old(r).data@,
            old(r).pos <= final(r).pos,
            match spec_parse_tag_data(old(r).remaining(), tag_type, data_size as int) {
                Ok((d, n)) => res matches Ok(got) && got@ == d && final(r).pos == old(r).pos + n,
                Err(e) => res matches Err(got) && got == e,
            },
    {
        if tag_type == FlvTagType::VIDEO {
            match FlvVideoData::decode(r, data_size) {
                Ok(v) => Ok(FlvTagData::Video(v)),
                Err(e) => Err(e),
            }
        } else if tag_type == FlvTagType::AUDIO {
            match FlvAudioTag::decode(r, data_size as usize) {
                Ok(a) => Ok(FlvTagData::Audio(a)),
                Err(e) => Err(e),
            }
        } else if tag_type == FlvTagType::SCRIPT_DATA {
            match FlvScriptTag::decode(r, data_size as usize) {
                Ok(s) => Ok(FlvTagData::Script(s)),
                Err(e) => Err(FlvError::Amf0Error(e)),
            }
        } else {
            Err(FlvError::InvalidTagType)
        }
    }

    pub fn encode(&self, w: &mut ByteWriter)
        requires
            self.encodable(),
        ensures
            final(w).data@ == old(w).data@ + spec_enc_tag_data(self@),
    {
        match self {
            FlvTagData::Video(data) => data.encode(w),
            FlvTagData::Audio(data) => data.encode(w),
            FlvTagData::Script(data) => data.encode(w),
        }
    }
}

// ---------------------------------------------------------------------------
// FlvTag
// ---------------------------------------------------------------------------
/// One stream chunk: the eleven-byte envelope, the payload, and the
/// four-byte back-pointer.
#[derive(Debug, PartialEq, Eq)]
pub struct FlvTag {
    pub tag_type: u8,
    /// Payload bytes only; the eleven envelope bytes are not counted.
    pub data_size: u32,
    /// A 24-bit value and its 8-bit extension, treated as one integer.
    pub timestamp: u32,
    /// Carried in 24 bits on the wire; conventionally zero.
    pub stream_id: u32,
    pub data: FlvTagData,
    /// The trailing back-pointer written after this tag's payload: this
    /// tag's envelope plus payload, enabling backward traversal. The zero
    /// word before the first tag plays the same role and is owned by the
    /// stream aggregator.
    pub previous_tag_size: u32,
}

/// The mathematical model of a tag.
pub struct TagView {
    pub tag_type: u8,
    pub data_size: u32,
    pub timestamp: u32,
    pub stream_id: u32,
    pub data: TagDataView,
    pub previous_tag_size: u32,
}

impl View for FlvTag {
    type V = TagView;

    open spec fn view(&self) -> TagView {
        TagView {
            tag_type: self.tag_type,
            data_size: self.data_size,
            timestamp: self.timestamp,
            stream_id: self.stream_id,
            data: self.data@,
            previous_tag_size: self.previous_tag_size,
        }
    }
}

impl DeepView for FlvTag {
    type V = TagView;

    open spec fn deep_view(&self) -> TagView {
        self.view()
    }
}

/// What encoding a tag needs of it: the payload can encode itself, its
/// size fits the 24-bit field, and the stream id fits its 24-bit field.
pub open spec fn tag_encodable(t: TagView) -> bool {
    &&& tag_data_encodable(t.data)
    &&& 0 <= spec_size_tag_data(t.data) <= 0xFF_FFFF
    &&& t.stream_id < 0x100_0000
}

/// Model-level validity of a tag: it is encodable, the stored fields agree
/// with the payload, the type byte matches the payload variant, and the
/// back-pointer is the payload size plus the eleven envelope bytes.
pub open spec fn tag_wf(t: TagView) -> bool {
    &&& tag_encodable(t)
    &&& tag_data_wf(t.data)
    &&& (t.data is Video <==> t.tag_type == FlvTagType::VIDEO)
    &&& (t.data is Audio <==> t.tag_type == FlvTagType::AUDIO)
    &&& (t.data is Script <==> t.tag_type == FlvTagType::SCRIPT_DATA)
    &&& t.data_size == spec_size_tag_data(t.data)
    &&& t.previous_tag_size == t.data_size + 11
}

/// Wire bytes of a tag. The declared size and the back-pointer are
/// recomputed from the payload, never taken from the stored fields.
pub open spec fn spec_enc_tag(t: TagView) -> Seq<u8>
    recommends
        tag_encodable(t),
{
    let sz = spec_size_tag_data(t.data);
    seq![t.tag_type] + u24_to_be(sz as u32) + u32_to_be(t.timestamp) + u24_to_be(t.stream_id)
        + spec_enc_tag_data(t.data) + u32_to_be((sz + 11) as u32)
}

/// Parsing one tag: the envelope fields, the payload by type, then the
/// back-pointer, recorded as read.
pub open spec fn spec_parse_tag(b: Seq<u8>) -> Result<(TagView, int), FlvError> {
    if b.len() < 11 {
        Err(FlvError::IoError)
    } else {
        let tag_type = b[0];
        let ds = be_u24(b.subrange(1, 4));
        let ts = be_u32(b.subrange(4, 8));
        let sid = be_u24(b.subrange(8, 11));
        match spec_parse_tag_data(b.skip(11), tag_type, ds as int) {
            Err(e) => Err(e),
            Ok((d, n)) => {
                if b.len() < 11 + n + 4 {
                    Err(FlvError::IoError)
                } else {
                    Ok(
                        (
                            TagView {
                                tag_type,
                                data_size: ds,
                                timestamp: ts,
                                stream_id: sid,
                                data: d,
                                previous_tag_size: be_u32(b.subrange(11 + n, 11 + n + 4)),
                            },
                            11 + n + 4,
                        ),
                    )
                }
            },
        }
    }
}

/// The back-pointer for a tag of the given payload size: the payload plus
/// the eleven envelope bytes.
#[inline]
pub fn calc_previous_tag_size(size: u32) -> (r: u32)
    requires
        size <= 0xFF_FFFF,
    ensures
        r == size + 11,
{
    size + 11
}

impl FlvTag {
    pub open spec fn wf(&self) -> bool {
        self.encodable() && tag_wf(self@)
    }

    /// Wraps a script payload in a tag, deriving every envelope field.
    pub fn new_script(script: FlvScriptTag, timestamp: u32) -> (r: FlvTag)
        requires
            script.wf(),
            spec_size_script(script@) <= 0xFF_FFFF,
        ensures
            r@.data == TagDataView::Script(script@),
            r@.timestamp == timestamp,
            r@.stream_id == 0,
            r.wf(),
    {
        let tag_data = FlvTagData::Script(script);
        let size = tag_data.size() as u32;
        FlvTag {
            tag_type: FlvTagType::SCRIPT_DATA,
            data_size: size,
            timestamp,
            stream_id: 0,
            data: tag_data,
            previous_tag_size: calc_previous_tag_size(size),
        }
    }

    /// Wraps an audio payload in a tag, deriving every envelope field.
    pub fn new_audio(audio: FlvAudioTag, timestamp: u32) -> (r: FlvTag)
        requires
            audio.wf(),
            spec_size_audio(audio@) <= 0xFF_FFFF,
        ensures
            r@.data == TagDataView::Audio(audio@),
            r@.timestamp == timestamp,
            r@.stream_id == 0,
            r.wf(),
    {
        let tag_data = FlvTagData::Audio(audio);
        let size = tag_data.size() as u32;
        FlvTag {
            tag_type: FlvTagType::AUDIO,
            data_size: size,
            timestamp,
            stream_id: 0,
            data: tag_data,
            previous_tag_size: calc_previous_tag_size(size),
        }
    }

    /// Wraps a video payload in a tag, deriving every envelope field.
    pub fn new_video(video: FlvVideoData, timestamp: u32) -> (r: FlvTag)
        requires
            video.wf(),
            spec_size_video(video@) <= 0xFF_FFFF,
        ensures
            r@.data == TagDataView::Video(video@),
            r@.timestamp == timestamp,
            r@.stream_id == 0,
            r.wf(),
    {
        let tag_data = FlvTagData::Video(video);
        let size = tag_data.size() as u32;
        FlvTag {
            tag_type: FlvTagType::VIDEO,
            data_size: size,
            timestamp,
            stream_id: 0,
            data: tag_data,
            previous_tag_size: calc_previous_tag_size(size),
        }
    }

    /// This tag is valid enough to encode: its payload is, its payload
    /// size fits the 24-bit field, and its stream id fits 24 bits.
    pub open spec fn encodable(&self) -> bool {
        &&& self.data.encodable()
        &&& 0 <= spec_size_tag_data(self@.data) <= 0xFF_FFFF
        &&& self.stream_id < 0x100_0000
    }

    pub fn decode(r: &mut ByteReader) -> (res: Result<FlvTag, FlvError>)
        requires
            old(r).wf(),
        ensures
            final(r).wf(),
            final(r).data@ == old(r).data@,
            old(r).pos <= final(r).pos,
            match spec_parse_tag(old(r).remaining()) {
                Ok((t, n)) => res matches Ok(got) && got@ == t && final(r).pos == old(r).pos + n,
                Err(e) => res matches Err(got) && got == e,
            },
    {
        let ghost b = old(r).remaining();
        let tag_type = match r.read_u8() {
            Some(v) => v,
            None => {
                return Err(FlvError::IoError);
            },
        };
        let data_size = match r.read_u24_be() {
            Some(v) => v,
            None => {
                return Err(FlvError::IoError);
            },
        };
        let timestamp = match r.read_u32_be() {
            Some(v) => v,
            None => {
                return Err(FlvError::IoError);
            },
        };
        let stream_id = match r.read_u24_be() {
            Some(v) => v,
            None => {
                return Err(FlvError::IoError);
            },
        };
        proof {
            assert(b.subrange(1, 4) =~= b.skip(1).take(3));
            assert(b.subrange(4, 8) =~= b.skip(4).take(4));
            assert(b.subrange(8, 11) =~= b.skip(8).take(3));
            assert(r.remaining() =~= b.skip(11));
        }
        let data = match FlvTagData::decode(r, tag_type, data_size) {
            Ok(d) => d,
            Err(e) => {
                return Err(e);
            },
        };
        let ghost n = r.pos - old(r).pos - 11;
        let ghost rem_ptr = r.remaining();
        let previous_tag_size = match r.read_u32_be() {
            Some(v) => v,
            None => {
                return Err(FlvError::IoError);
            },
        };
        proof {
            assert(b.subrange(11 + n, 11 + n + 4) =~= rem_ptr.take(4));
        }
        Ok(FlvTag { tag_type, data_size, timestamp, stream_id, data, previous_tag_size })
    }

    pub fn encode(&self, w: &mut ByteWriter)
        requires
            self.encodable(),
        ensures
            final(w).data@ == old(w).data@ + spec_enc_tag(self@),
    {
        w.write_u8(self.tag_type);
        let size = self.data.size() as u32;
        w.write_u24_be(size);
        w.write_u32_be(self.timestamp);
        w.write_u24_be(self.stream_id);
        self.data.encode(w);
        w.write_u32_be(size + 11);
        proof {
            assert(w.data@ =~= old(w).data@ + spec_enc_tag(self@));
        }
    }
}

// ---------------------------------------------------------------------------
// Laws
// ---------------------------------------------------------------------------
/// Size law: a well-formed tag's payload encodes to exactly its declared
/// size, and the whole tag to that plus its fifteen fixed bytes.
pub proof fn lemma_tag_size(t: TagView)
    requires
        tag_wf(t),
    ensures
        spec_enc_tag_data(t.data).len() == t.data_size,
        spec_enc_tag(t).len() == t.data_size + 15,
{
    match t.data {
        TagDataView::Video(v) => crate::video::lemma_video_size(v),
        TagDataView::Audio(a) => crate::audio::lemma_audio_size(a),
        TagDataView::Script(s) => crate::script::lemma_script_size(s),
    }
}

/// Round trip: a well-formed tag parses back from its own encoding,
/// whatever follows it on the wire.
#[verifier::rlimit(100)]
pub proof fn lemma_tag_round_trip(t: TagView, rest: Seq<u8>)
    requires
        tag_wf(t),
    ensures
        spec_parse_tag(spec_enc_tag(t) + rest) == Ok::<(TagView, int), FlvError>(
            (t, spec_enc_tag(t).len() as int),
        ),
{
    let sz = spec_size_tag_data(t.data);
    let b = spec_enc_tag(t) + rest;
    let payload = spec_enc_tag_data(t.data);
    lemma_tag_size(t);
    lemma_u24_be_round(sz as u32);
    lemma_u32_be_round(t.timestamp);
    lemma_u24_be_round(t.stream_id);
    lemma_u32_be_round((sz + 11) as u32);
    assert(b[0] == t.tag_type);
    assert(b.subrange(1, 4) =~= u24_to_be(sz as u32));
    assert(b.subrange(4, 8) =~= u32_to_be(t.timestamp));
    assert(b.subrange(8, 11) =~= u24_to_be(t.stream_id));
    let tail = u32_to_be((sz + 11) as u32) + rest;
    assert(b.skip(11) =~= payload + tail);
    let n = payload.len() as int;
    match t.data {
        TagDataView::Video(v) => {
            crate::video::lemma_video_round_trip(v, tail);
        },
        TagDataView::Audio(a) => {
            crate::audio::lemma_audio_round_trip(a, tail);
        },
        TagDataView::Script(s) => {
            crate::script::lemma_script_round_trip(s, tail);
        },
    }
    assert(b.subrange(11 + n, 11 + n + 4) =~= u32_to_be((sz + 11) as u32));
}

} // verus!
