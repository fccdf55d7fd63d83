//! The audio payload codec: one bit-packed descriptor byte (sound format,
//! rate, sample size and channel type), then a format-specific sub-payload.
//! For the AAC format the sub-payload is a packet-type byte plus raw data;
//! for every other format it is an opaque byte buffer.
//!
//! Remaining-length arithmetic clamps at zero instead of underflowing: a
//! declared size smaller than the fixed header overhead yields an empty
//! data buffer, never a panic.

use crate::error::FlvError;
use crate::stream::{ByteReader, ByteWriter};
use vstd::prelude::*;

verus! {

/// The four-bit sound-format field of the descriptor byte.
pub struct SoundFormat;

impl SoundFormat {
    pub const LINEAR_PCM_PLATFORM_ENDIAN: u8 = 0;

    pub const ADPCM: u8 = 1;

    pub const MP3: u8 = 2;

    pub const LINEAR_PCM_LITTLE_ENDIAN: u8 = 3;

    pub const NELLYMOSER_16_KHZ_MONO: u8 = 4;

    pub const NELLYMOSER_8_KHZ_MONO: u8 = 5;

    pub const NELLYMOSER: u8 = 6;

    pub const G711_A_LAW: u8 = 7;

    pub const G711_MU_LAW: u8 = 8;

    pub const AAC: u8 = 10;

    pub const SPEEX: u8 = 11;

    pub const MP3_8_KHZ: u8 = 14;

    pub const DEVICE_SPECIFIC: u8 = 15;
}

/// The two-bit sound-rate field of the descriptor byte.
pub struct SoundRate;

impl SoundRate {
    pub const KHZ_5_5: u8 = 0;

    pub const KHZ_11: u8 = 1;

    pub const KHZ_22: u8 = 2;

    pub const KHZ_44: u8 = 3;
}

/// The one-bit sample-size field of the descriptor byte.
pub struct SoundSize;

impl SoundSize {
    pub const SND_8_BIT: u8 = 0;

    pub const SND_16_BIT: u8 = 1;
}

/// The one-bit channel-type field of the descriptor byte.
pub struct SoundData;

impl SoundData {
    pub const SND_MONO: u8 = 0;

    pub const SND_STEREO: u8 = 1;
}

// ---------------------------------------------------------------------------
// AacAudioData
// ---------------------------------------------------------------------------
/// An AAC sub-payload: one packet-type byte, then raw coded data.
#[derive(Debug, PartialEq, Eq)]
pub struct AacAudioData {
    pub packet_type: u8,
    pub data: Vec<u8>,
}

/// The mathematical model of an AAC sub-payload.
pub struct AacView {
    pub packet_type: u8,
    pub data: Seq<u8>,
}

impl View for AacAudioData {
    type V = AacView;

    open spec fn view(&self) -> AacView {
        AacView { packet_type: self.packet_type, data: self.data@ }
    }
}

/// Bytes an AAC sub-payload occupies: the packet type plus the data.
pub open spec fn spec_size_aac(p: AacView) -> int {
    1 + p.data.len() as int
}

/// Wire bytes of an AAC sub-payload.
pub open spec fn spec_enc_aac(p: AacView) -> Seq<u8> {
    seq![p.packet_type] + p.data
}

/// Parsing an AAC sub-payload whose remaining declared length (descriptor
/// byte already subtracted) is `remaining`: one packet-type byte, then
/// `remaining - 1` data bytes, clamped at zero.
pub open spec fn spec_parse_aac(b: Seq<u8>, remaining: int) -> Result<(AacView, int), FlvError> {
    if b.len() < 1 {
        Err(FlvError::IoError)
    } else {
        let dl = if remaining > 1 {
            remaining - 1
        } else {
            0
        };
        if b.len() < 1 + dl {
            Err(FlvError::IoError)
        } else {
            Ok((AacView { packet_type: b[0], data: b.subrange(1, 1 + dl) }, 1 + dl))
        }
    }
}

impl AacAudioData {
    pub fn size(&self) -> (n: usize)
        requires
            spec_size_aac(self@) <= usize::MAX,
        ensures
            n == spec_size_aac(self@),
    {
        self.data.len() + 1
    }

    pub fn decode(r: &mut ByteReader, data_size: usize) -> (res: Result<AacAudioData, FlvError>)
        requires
            old(r).wf(),
        ensures
            final(r).wf(),
            final(r).data@ == old(r).data@,
            old(r).pos <= final(r).pos,
            match spec_parse_aac(old(r).remaining(), data_size as int) {
                Ok((p, n)) => res matches Ok(got) && got@ == p && final(r).pos == old(r).pos + n,
                Err(e) => res matches Err(got) && got == e,
            },
    {
        let ghost b = old(r).remaining();
        let packet_type = match r.read_u8() {
            Some(v) => v,
            None => {
                return Err(FlvError::IoError);
            },
        };
        let dl = if data_size > 1 {
            data_size - 1
        } else {
            0
        };
        let data = match r.read_bytes(dl) {
            Some(v) => v,
            None => {
                return Err(FlvError::IoError);
            },
        };
        proof {
            assert(data@ =~= b.subrange(1, 1 + dl as int));
        }
        Ok(AacAudioData { packet_type, data })
    }

    pub fn encode(&self, w: &mut ByteWriter)
        ensures
            final(w).data@ == old(w).data@ + spec_enc_aac(self@),
    {
        w.write_u8(self.packet_type);
        w.write_bytes(self.data.as_slice());
        proof {
            assert(w.data@ =~= old(w).data@ + spec_enc_aac(self@));
        }
    }
}

// ---------------------------------------------------------------------------
// AudioData
// ---------------------------------------------------------------------------
/// The format-specific part of an audio payload.
#[derive(Debug, PartialEq, Eq)]
pub enum AudioData {
    Aac(AacAudioData),
    Other(Vec<u8>),
}

/// The mathematical model of a format-specific audio sub-payload.
pub enum AudioDataView {
    Aac(AacView),
    Other(Seq<u8>),
}

impl View for AudioData {
    type V = AudioDataView;

    open spec fn view(&self) -> AudioDataView {
        match self {
            AudioData::Aac(p) => AudioDataView::Aac(p@),
            AudioData::Other(v) => AudioDataView::Other(v@),
        }
    }
}

/// Bytes an audio sub-payload occupies on the wire.
pub open spec fn spec_size_audio_data(d: AudioDataView) -> int {
    match d {
        AudioDataView::Aac(p) => spec_size_aac(p),
        AudioDataView::Other(v) => v.len() as int,
    }
}

/// Wire bytes of an audio sub-payload.
pub open spec fn spec_enc_audio_data(d: AudioDataView) -> Seq<u8> {
    match d {
        AudioDataView::Aac(p) => spec_enc_aac(p),
        AudioDataView::Other(v) => v,
    }
}

/// Parsing an audio sub-payload: AAC dispatches to the packet parser; any
/// other format takes the remaining declared length as an opaque buffer.
pub open spec fn spec_parse_audio_data(b: Seq<u8>, remaining: int, sound_format: u8) -> Result<
    (AudioDataView, int),
    FlvError,
> {
    if sound_format == SoundFormat::AAC {
        match spec_parse_aac(b, remaining) {
            Ok((p, n)) => Ok((AudioDataView::Aac(p), n)),
            Err(e) => Err(e),
        }
    } else {
        let dl = if remaining > 0 {
            remaining
        } else {
            0
        };
        if b.len() < dl {
            Err(FlvError::IoError)
        } else {
            Ok((AudioDataView::Other(b.take(dl)), dl))
        }
    }
}

impl AudioData {
    pub fn size(&self) -> (n: usize)
        requires
            spec_size_audio_data(self@) <= usize::MAX,
        ensures
            n == spec_size_audio_data(self@),
    {
        match self {
            AudioData::Aac(aac) => aac.size(),
            AudioData::Other(other) => other.len(),
        }
    }

    pub fn decode(r: &mut ByteReader, data_size: usize, sound_format: u8) -> (res: Result<
        AudioData,
        FlvError,
    >)
        requires
            old(r).wf(),
        ensures
            final(r).wf(),
            final(r).data@ == old(r).data@,
            old(r).pos <= final(r).pos,
            match spec_parse_audio_data(old(r).remaining(), data_size as int, sound_format) {
                Ok((d, n)) => res matches Ok(got) && got@ == d && final(r).pos == old(r).pos + n,
                Err(e) => res matches Err(got) && got == e,
            },
    {
        if sound_format == SoundFormat::AAC {
            match AacAudioData::decode(r, data_size) {
                Ok(p) => Ok(AudioData::Aac(p)),
                Err(e) => Err(e),
            }
        } else {
            let v = match r.read_bytes(data_size) {
                Some(v) => v,
                None => {
                    return Err(FlvError::IoError);
                },
            };
            Ok(AudioData::Other(v))
        }
    }

    pub fn encode(&self, w: &mut ByteWriter)
        ensures
            final(w).data@ == old(w).data@ + spec_enc_audio_data(self@),
    {
        match self {
            AudioData::Aac(aac) => aac.encode(w),
            AudioData::Other(raw) => w.write_bytes(raw.as_slice()),
        }
    }
}

// ---------------------------------------------------------------------------
// FlvAudioTag
// ---------------------------------------------------------------------------
/// A whole audio payload: the descriptor byte, then the sub-payload.
#[derive(Debug, PartialEq, Eq)]
pub struct FlvAudioTag {
    pub sound_format: u8,
    pub sound_rate: u8,
    pub sound_size: u8,
    pub sound_type: u8,
    pub data: AudioData,
}

/// The mathematical model of an audio payload.
pub struct AudioView {
    pub sound_format: u8,
    pub sound_rate: u8,
    pub sound_size: u8,
    pub sound_type: u8,
    pub data: AudioDataView,
}

impl View for FlvAudioTag {
    type V = AudioView;

    open spec fn view(&self) -> AudioView {
        AudioView {
            sound_format: self.sound_format,
            sound_rate: self.sound_rate,
            sound_size: self.sound_size,
            sound_type: self.sound_type,
            data: self.data@,
        }
    }
}

/// Model-level validity of an audio payload: every field fits its bit
/// width and the sub-payload is an AAC packet exactly when the format
/// field says AAC.
pub open spec fn audio_wf(a: AudioView) -> bool {
    &&& a.sound_format < 16
    &&& a.sound_rate < 4
    &&& a.sound_size < 2
    &&& a.sound_type < 2
    &&& (a.data is Aac <==> a.sound_format == SoundFormat::AAC)
}

/// Bytes an audio payload occupies, descriptor byte included.
pub open spec fn spec_size_audio(a: AudioView) -> int {
    1 + spec_size_audio_data(a.data)
}

/// Wire bytes of an audio payload: the packed descriptor byte, then the
/// sub-payload.
pub open spec fn spec_enc_audio(a: AudioView) -> Seq<u8>
    recommends
        audio_wf(a),
{
    seq![(a.sound_format << 4) | (a.sound_rate << 2) | (a.sound_size << 1) | a.sound_type]
        + spec_enc_audio_data(a.data)
}

/// Parsing an audio payload of declared size `ds`: the descriptor byte is
/// split into its fields, then the sub-payload parser runs on the
/// remaining declared length (clamped at zero).
pub open spec fn spec_parse_audio(b: Seq<u8>, ds: int) -> Result<(AudioView, int), FlvError> {
    if b.len() < 1 {
        Err(FlvError::IoError)
    } else {
        let si = b[0];
        let remaining = if ds > 1 {
            ds - 1
        } else {
            0
        };
        match spec_parse_audio_data(b.skip(1), remaining, (si >> 4) & 0x0F) {
            Ok((d, n)) => Ok(
                (
                    AudioView {
                        sound_format: (si >> 4) & 0x0F,
                        sound_rate: (si >> 2) & 0x03,
                        sound_size: (si >> 1) & 0x01,
                        sound_type: si & 0x01,
                        data: d,
                    },
                    1 + n,
                ),
            ),
            Err(e) => Err(e),
        }
    }
}

impl FlvAudioTag {
    pub open spec fn wf(&self) -> bool {
        audio_wf(self@)
    }

    /// Bytes this payload occupies on the wire, descriptor included.
    pub fn size(&self) -> (n: usize)
        requires
            spec_size_audio(self@) <= usize::MAX,
        ensures
            n == spec_size_audio(self@),
    {
        1 + self.data.size()
    }

    pub fn decode(r: &mut ByteReader, data_size: usize) -> (res: Result<FlvAudioTag, FlvError>)
        requires
            old(r).wf(),
        ensures
            final(r).wf(),
            final(r).data@ == old(r).data@,
            old(r).pos <= final(r).pos,
            match spec_parse_audio(old(r).remaining(), data_size as int) {
                Ok((a, n)) => res matches Ok(got) && got@ == a && got.wf() && final(r).pos == old(
                    r,
                ).pos + n,
                Err(e) => res matches Err(got) && got == e,
            },
    {
        let ghost b = old(r).remaining();
        let sound_info = match r.read_u8() {
            Some(v) => v,
            None => {
                return Err(FlvError::IoError);
            },
        };
        let sound_format = (sound_info >> 4) & 0x0F;
        let sound_rate = (sound_info >> 2) & 0x03;
        let sound_size = (sound_info >> 1) & 0x01;
        let sound_type = sound_info & 0x01;
        proof {
            assert(r.remaining() =~= b.skip(1));
            assert((sound_info >> 4) & 0x0F < 16 && (sound_info >> 2) & 0x03 < 4 && (sound_info
                >> 1) & 0x01 < 2 && sound_info & 0x01 < 2) by (bit_vector);
        }
        let remaining = if data_size > 1 {
            data_size - 1
        } else {
            0
        };
        let data = match AudioData::decode(r, remaining, sound_format) {
            Ok(d) => d,
            Err(e) => {
                return Err(e);
            },
        };
        proof {
            if sound_format == SoundFormat::AAC {
                assert(data@ is Aac);
            }
        }
        Ok(FlvAudioTag { sound_format, sound_rate, sound_size, sound_type, data })
    }

    pub fn encode(&self, w: &mut ByteWriter)
        requires
            self.wf(),
        ensures
            final(w).data@ == old(w).data@ + spec_enc_audio(self@),
    {
        let sound_info = (self.sound_format << 4) | (self.sound_rate << 2) | (self.sound_size << 1)
            | self.sound_type;
        w.write_u8(sound_info);
        self.data.encode(w);
        proof {
            assert(w.data@ =~= old(w).data@ + spec_enc_audio(self@));
        }
    }
}

// ---------------------------------------------------------------------------
// Laws
// ---------------------------------------------------------------------------
/// Size law: an audio payload encodes to exactly its computed size.
pub proof fn lemma_audio_size(a: AudioView)
    ensures
        spec_enc_audio(a).len() == spec_size_audio(a),
{
}

/// Round trip: a well-formed audio payload parses back from its own
/// encoding when the declared size is its exact encoded length.
pub proof fn lemma_audio_round_trip(a: AudioView, rest: Seq<u8>)
    requires
        audio_wf(a),
    ensures
        spec_parse_audio(spec_enc_audio(a) + rest, spec_size_audio(a)) == Ok::<
            (AudioView, int),
            FlvError,
        >((a, spec_size_audio(a))),
{
    let b = spec_enc_audio(a) + rest;
    let ds = spec_size_audio(a);
    let f = a.sound_format;
    let ra = a.sound_rate;
    let sz = a.sound_size;
    let ty = a.sound_type;
    let si = (f << 4) | (ra << 2) | (sz << 1) | ty;
    assert(b[0] == si);
    assert(f < 16 && ra < 4 && sz < 2 && ty < 2 ==> ((si >> 4) & 0x0F == f && (si >> 2) & 0x03 == ra
        && (si >> 1) & 0x01 == sz && si & 0x01 == ty)) by (bit_vector)
        requires
            si == (f << 4) | (ra << 2) | (sz << 1) | ty,
    ;
    let b1 = b.skip(1);
    match a.data {
        AudioDataView::Aac(p) => {
            assert(b1 =~= spec_enc_aac(p) + rest);
            let dl = p.data.len() as int;
            assert(ds == 2 + dl);
            assert(b1[0] == p.packet_type);
            assert(b1.subrange(1, 1 + dl) =~= p.data);
        },
        AudioDataView::Other(d) => {
            assert(b1 =~= d + rest);
            let dl = d.len() as int;
            assert(ds == 1 + dl);
            assert(b1.take(dl) =~= d);
        },
    }
}

} // verus!
