use rflv::audio::{AacAudioData, AudioData, FlvAudioTag, SoundFormat, SoundRate};
use rflv::error::FlvError;
use rflv::stream::{ByteReader, ByteWriter};
use rflv::video::{AvcPacketType, AvcVideoPacket, CodecId, FlvVideoData, FrameType, VideoData};

#[test]
fn avc_packet_round_trips() {
    let p = AvcVideoPacket {
        packet_type: AvcPacketType::NALU,
        composition_time: 0,
        data: vec![1, 2, 3],
    };
    assert_eq!(p.size(), 7);
    let mut w = ByteWriter::new();
    p.encode(&mut w);
    let bytes = w.into_vec();
    assert_eq!(bytes.len(), 7);
    let mut r = ByteReader::new(bytes);
    // Declared size is the whole video payload: descriptor + packet.
    let back = AvcVideoPacket::decode(&mut r, 8).unwrap();
    assert_eq!(back, p);
}

#[test]
fn negative_composition_time_round_trips() {
    let p = AvcVideoPacket {
        packet_type: AvcPacketType::NALU,
        composition_time: -1,
        data: vec![],
    };
    let mut w = ByteWriter::new();
    p.encode(&mut w);
    let bytes = w.into_vec();
    assert_eq!(bytes, vec![0x01, 0xFF, 0xFF, 0xFF]);
    let mut r = ByteReader::new(bytes);
    let back = AvcVideoPacket::decode(&mut r, 5).unwrap();
    assert_eq!(back.composition_time, -1);
}

#[test]
fn avc_clamps_small_declared_sizes_to_empty_data() {
    // Boundary declared sizes: 0, 1, exactly the header overhead, one more.
    for ds in [0usize, 1, 5] {
        let mut r = ByteReader::new(vec![0x01, 0, 0, 0]);
        let p = AvcVideoPacket::decode(&mut r, ds).unwrap();
        assert_eq!(p.data.len(), 0);
    }
    let mut r = ByteReader::new(vec![0x01, 0, 0, 0, 0xAA]);
    let p = AvcVideoPacket::decode(&mut r, 6).unwrap();
    assert_eq!(p.data, vec![0xAA]);
}

#[test]
fn video_payload_round_trips() {
    let v = FlvVideoData {
        frame_type: FrameType::KEYFRAME,
        codec: CodecId::AVC,
        video_data: VideoData::Avc(AvcVideoPacket {
            packet_type: AvcPacketType::SEQUENCE_HEADER,
            composition_time: 40,
            data: vec![7, 8],
        }),
    };
    let size = v.size();
    assert_eq!(size, 1 + 1 + 3 + 2);
    let mut w = ByteWriter::new();
    v.encode(&mut w);
    let bytes = w.into_vec();
    assert_eq!(bytes.len(), size);
    let mut r = ByteReader::new(bytes);
    let back = FlvVideoData::decode(&mut r, size as u32).unwrap();
    assert_eq!(back, v);
}

#[test]
fn non_avc_video_payload_is_opaque_bytes() {
    let v = FlvVideoData {
        frame_type: FrameType::INTER_FRAME,
        codec: CodecId::SORENSON_H263,
        video_data: VideoData::Other(vec![4, 5, 6, 7]),
    };
    let size = v.size();
    assert_eq!(size, 5);
    let mut w = ByteWriter::new();
    v.encode(&mut w);
    let mut r = ByteReader::new(w.into_vec());
    let back = FlvVideoData::decode(&mut r, size as u32).unwrap();
    assert_eq!(back, v);
}

#[test]
fn video_rejects_truncated_input() {
    let mut r = ByteReader::new(vec![0x17, 0x01, 0x00]);
    assert_eq!(FlvVideoData::decode(&mut r, 8), Err(FlvError::IoError));
}

#[test]
fn aac_audio_round_trips() {
    let a = FlvAudioTag {
        sound_format: SoundFormat::AAC,
        sound_rate: SoundRate::KHZ_44,
        sound_size: 1,
        sound_type: 1,
        data: AudioData::Aac(AacAudioData {
            packet_type: 1,
            data: vec![0xDE, 0xAD],
        }),
    };
    let size = a.size();
    assert_eq!(size, 1 + 1 + 2);
    let mut w = ByteWriter::new();
    a.encode(&mut w);
    let bytes = w.into_vec();
    assert_eq!(bytes.len(), size);
    assert_eq!(bytes[0], 0xAF);
    let mut r = ByteReader::new(bytes);
    let back = FlvAudioTag::decode(&mut r, size).unwrap();
    assert_eq!(back, a);
}

#[test]
fn other_audio_round_trips() {
    let a = FlvAudioTag {
        sound_format: SoundFormat::MP3,
        sound_rate: SoundRate::KHZ_22,
        sound_size: 0,
        sound_type: 0,
        data: AudioData::Other(vec![1, 2, 3]),
    };
    let size = a.size();
    assert_eq!(size, 4);
    let mut w = ByteWriter::new();
    a.encode(&mut w);
    let mut r = ByteReader::new(w.into_vec());
    let back = FlvAudioTag::decode(&mut r, size).unwrap();
    assert_eq!(back, a);
}

#[test]
fn audio_clamps_small_declared_sizes() {
    // Declared size 0: the descriptor byte is still read, the rest clamps
    // to an empty buffer.
    let mut r = ByteReader::new(vec![0x2E]);
    let a = FlvAudioTag::decode(&mut r, 0).unwrap();
    assert_eq!(a.sound_format, SoundFormat::MP3);
    assert_eq!(a.data, AudioData::Other(vec![]));
    // AAC under declared sizes 1 and 2: packet type is read, data clamps.
    for ds in [1usize, 2] {
        let mut r = ByteReader::new(vec![0xAF, 0x01]);
        let a = FlvAudioTag::decode(&mut r, ds).unwrap();
        assert_eq!(
            a.data,
            AudioData::Aac(AacAudioData {
                packet_type: 1,
                data: vec![]
            })
        );
    }
    // One past the two AAC header bytes: exactly one data byte.
    let mut r = ByteReader::new(vec![0xAF, 0x01, 0xBB]);
    let a = FlvAudioTag::decode(&mut r, 3).unwrap();
    assert_eq!(
        a.data,
        AudioData::Aac(AacAudioData {
            packet_type: 1,
            data: vec![0xBB]
        })
    );
}

#[test]
fn audio_rejects_truncated_input() {
    let mut r = ByteReader::new(vec![]);
    assert_eq!(FlvAudioTag::decode(&mut r, 4), Err(FlvError::IoError));
    let mut r = ByteReader::new(vec![0x2E, 0x01]);
    assert_eq!(FlvAudioTag::decode(&mut r, 4), Err(FlvError::IoError));
}
