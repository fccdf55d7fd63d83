use rflv::error::FlvError;
use rflv::script::{Amf0DataObjectProp, Amf0Key, Amf0Number, Amf0Value, FlvScriptTag};
use rflv::stream::{ByteReader, ByteWriter};
use rflv::tag::{calc_previous_tag_size, FlvTag, FlvTagData, FlvTagType};
use rflv::video::{AvcPacketType, AvcVideoPacket, CodecId, FlvVideoData, FrameType, VideoData};
use rflv::audio::{AacAudioData, AudioData, FlvAudioTag, SoundFormat, SoundRate};

fn sample_video_tag() -> FlvTag {
    FlvTag::new_video(
        FlvVideoData {
            frame_type: FrameType::KEYFRAME,
            codec: CodecId::AVC,
            video_data: VideoData::Avc(AvcVideoPacket {
                packet_type: AvcPacketType::NALU,
                composition_time: 0,
                data: vec![1, 2, 3],
            }),
        },
        0,
    )
}

#[test]
fn video_tag_has_computed_size_and_back_pointer() {
    let tag = sample_video_tag();
    assert_eq!(tag.tag_type, FlvTagType::VIDEO);
    // descriptor(1) + packet type(1) + composition time(3) + data(3)
    assert_eq!(tag.data_size, 8);
    assert_eq!(tag.previous_tag_size, 19);
    assert_eq!(tag.stream_id, 0);
}

#[test]
fn video_tag_round_trips() {
    let tag = sample_video_tag();
    let mut w = ByteWriter::new();
    tag.encode(&mut w);
    let bytes = w.into_vec();
    // eleven envelope bytes + payload + four back-pointer bytes
    assert_eq!(bytes.len(), 8 + 15);
    let mut r = ByteReader::new(bytes);
    let back = FlvTag::decode(&mut r).unwrap();
    assert_eq!(back, tag);
}

#[test]
fn audio_tag_round_trips() {
    let tag = FlvTag::new_audio(
        FlvAudioTag {
            sound_format: SoundFormat::AAC,
            sound_rate: SoundRate::KHZ_44,
            sound_size: 1,
            sound_type: 1,
            data: AudioData::Aac(AacAudioData {
                packet_type: 0,
                data: vec![0x12, 0x10],
            }),
        },
        40,
    );
    assert_eq!(tag.tag_type, FlvTagType::AUDIO);
    assert_eq!(tag.data_size, 4);
    assert_eq!(tag.previous_tag_size, 15);
    let mut w = ByteWriter::new();
    tag.encode(&mut w);
    let mut r = ByteReader::new(w.into_vec());
    let back = FlvTag::decode(&mut r).unwrap();
    assert_eq!(back, tag);
}

#[test]
fn script_tag_round_trips() {
    let script = FlvScriptTag::new(
        "onMetaData".to_string(),
        vec![Amf0DataObjectProp {
            name: Amf0Key::new("framerate".to_string()).unwrap(),
            value: Amf0Value::Number(Amf0Number::new(30.0f64.to_bits())),
        }],
    )
    .unwrap();
    let tag = FlvTag::new_script(script, 0);
    assert_eq!(tag.tag_type, FlvTagType::SCRIPT_DATA);
    assert_eq!(tag.previous_tag_size, tag.data_size + 11);
    let mut w = ByteWriter::new();
    tag.encode(&mut w);
    let mut r = ByteReader::new(w.into_vec());
    let back = FlvTag::decode(&mut r).unwrap();
    assert_eq!(back, tag);
}

#[test]
fn tag_rejects_unknown_type() {
    // A full eleven-byte envelope whose type byte is none of 8, 9, 18.
    let mut r = ByteReader::new(vec![7, 0, 0, 0, 0, 0, 0, 0, 0, 0, 0]);
    assert_eq!(FlvTag::decode(&mut r), Err(FlvError::InvalidTagType));
}

#[test]
fn tag_rejects_truncation_mid_tag() {
    let tag = sample_video_tag();
    let mut w = ByteWriter::new();
    tag.encode(&mut w);
    let mut bytes = w.into_vec();
    bytes.truncate(bytes.len() - 1);
    let mut r = ByteReader::new(bytes);
    assert_eq!(FlvTag::decode(&mut r), Err(FlvError::IoError));
}

#[test]
fn tag_rejects_truncated_envelope() {
    let mut r = ByteReader::new(vec![9, 0, 0]);
    assert_eq!(FlvTag::decode(&mut r), Err(FlvError::IoError));
}

#[test]
fn back_pointer_is_payload_size_plus_envelope() {
    assert_eq!(calc_previous_tag_size(0), 11);
    assert_eq!(calc_previous_tag_size(8), 19);
    assert_eq!(calc_previous_tag_size(0xFF_FFFF), 0xFF_FFFF + 11);
}

#[test]
fn tag_payload_size_dispatches_by_variant() {
    let tag = sample_video_tag();
    assert_eq!(tag.data.size(), 8);
    let audio = FlvTagData::Audio(FlvAudioTag {
        sound_format: SoundFormat::MP3,
        sound_rate: 0,
        sound_size: 0,
        sound_type: 0,
        data: AudioData::Other(vec![1]),
    });
    assert_eq!(audio.size(), 2);
}

#[test]
fn script_tag_with_bad_value_marker_surfaces_amf_error() {
    // Envelope for a script tag whose payload starts with marker 5,
    // which is no value marker.
    let bytes = vec![18, 0, 0, 1, 0, 0, 0, 0, 0, 0, 0, 5];
    let mut r = ByteReader::new(bytes);
    assert_eq!(
        FlvTag::decode(&mut r),
        Err(FlvError::Amf0Error(rflv::script::Amf0Error::InvalidId))
    );
}
