use rflv::audio::{AudioData, FlvAudioTag, SoundFormat};
use rflv::error::FlvError;
use rflv::file::FlvFile;
use rflv::header::{FlvHeader, HeaderFlags, FLV_HEADER_SIGNATURE, FLV_HEADER_VERSION};
use rflv::stream::{ByteReader, ByteWriter};
use rflv::tag::FlvTag;
use rflv::video::{AvcPacketType, AvcVideoPacket, CodecId, FlvVideoData, FrameType, VideoData};

fn sample_header() -> FlvHeader {
    FlvHeader {
        signature: FLV_HEADER_SIGNATURE,
        version: FLV_HEADER_VERSION,
        flags: HeaderFlags::from_bits_retain(0x05),
        data_offset: 9,
    }
}

fn video_tag() -> FlvTag {
    FlvTag::new_video(
        FlvVideoData {
            frame_type: FrameType::KEYFRAME,
            codec: CodecId::AVC,
            video_data: VideoData::Avc(AvcVideoPacket {
                packet_type: AvcPacketType::NALU,
                composition_time: 0,
                data: vec![1, 2, 3],
            }),
        },
        0,
    )
}

fn audio_tag() -> FlvTag {
    FlvTag::new_audio(
        FlvAudioTag {
            sound_format: SoundFormat::MP3,
            sound_rate: 2,
            sound_size: 1,
            sound_type: 0,
            data: AudioData::Other(vec![0xBE, 0xEF]),
        },
        40,
    )
}

fn sample_file() -> FlvFile {
    FlvFile {
        header: sample_header(),
        tags: vec![video_tag(), audio_tag()],
    }
}

#[test]
fn file_round_trips() {
    let file = sample_file();
    let mut w = ByteWriter::new();
    file.encode(&mut w);
    let bytes = w.into_vec();
    // header(9) + sentinel(4) + video tag(8 + 15) + audio tag(3 + 15)
    assert_eq!(bytes.len(), 9 + 4 + 23 + 18);
    let mut r = ByteReader::new(bytes);
    let back = FlvFile::decode(&mut r).unwrap();
    assert_eq!(back, file);
}

#[test]
fn empty_file_round_trips() {
    let file = FlvFile {
        header: sample_header(),
        tags: vec![],
    };
    let mut w = ByteWriter::new();
    file.encode(&mut w);
    let mut r = ByteReader::new(w.into_vec());
    let back = FlvFile::decode(&mut r).unwrap();
    assert_eq!(back.tags.len(), 0);
}

#[test]
fn truncation_at_tag_boundary_keeps_decoded_tags() {
    let file = sample_file();
    let mut w = ByteWriter::new();
    file.encode(&mut w);
    let mut bytes = w.into_vec();
    // Cut the stream exactly after the first complete tag.
    bytes.truncate(9 + 4 + 23);
    let mut r = ByteReader::new(bytes);
    let back = FlvFile::decode(&mut r).unwrap();
    assert_eq!(back.tags.len(), 1);
    assert_eq!(back.tags[0], video_tag());
}

#[test]
fn truncation_mid_tag_is_an_error() {
    let file = sample_file();
    let mut w = ByteWriter::new();
    file.encode(&mut w);
    let mut bytes = w.into_vec();
    // Cut inside the second tag.
    bytes.truncate(9 + 4 + 23 + 5);
    let mut r = ByteReader::new(bytes);
    assert_eq!(FlvFile::decode(&mut r), Err(FlvError::IoError));
}

#[test]
fn nonzero_sentinel_is_rejected() {
    let file = sample_file();
    let mut w = ByteWriter::new();
    file.encode(&mut w);
    let mut bytes = w.into_vec();
    bytes[12] = 1;
    let mut r = ByteReader::new(bytes);
    assert_eq!(FlvFile::decode(&mut r), Err(FlvError::InvalidFile));
}

#[test]
fn malformed_tag_error_is_surfaced() {
    let file = FlvFile {
        header: sample_header(),
        tags: vec![],
    };
    let mut w = ByteWriter::new();
    file.encode(&mut w);
    let mut bytes = w.into_vec();
    // Append a full envelope with an unknown tag type.
    bytes.extend_from_slice(&[7, 0, 0, 0, 0, 0, 0, 0, 0, 0, 0]);
    let mut r = ByteReader::new(bytes);
    assert_eq!(FlvFile::decode(&mut r), Err(FlvError::InvalidTagType));
}

#[test]
fn header_error_is_surfaced() {
    let mut r = ByteReader::new(vec![0x00, 0x4C, 0x56, 0x01, 0x05, 0, 0, 0, 9, 0, 0, 0, 0]);
    assert_eq!(FlvFile::decode(&mut r), Err(FlvError::InvalidSignature));
}

#[test]
fn encoded_file_starts_with_header_and_sentinel() {
    let file = FlvFile {
        header: sample_header(),
        tags: vec![],
    };
    let mut w = ByteWriter::new();
    file.encode(&mut w);
    let bytes = w.into_vec();
    assert_eq!(
        bytes,
        vec![0x46, 0x4C, 0x56, 0x01, 0x05, 0, 0, 0, 9, 0, 0, 0, 0]
    );
}
