use rflv::error::FlvError;
use rflv::header::{FlvHeader, HeaderFlags, FLV_HEADER_SIGNATURE, FLV_HEADER_VERSION};
use rflv::stream::{ByteReader, ByteWriter};

fn decode_bytes(bytes: Vec<u8>) -> Result<FlvHeader, FlvError> {
    let mut r = ByteReader::new(bytes);
    FlvHeader::decode(&mut r)
}

#[test]
fn header_decodes_fixed_bytes() {
    let h = decode_bytes(vec![0x46, 0x4C, 0x56, 0x01, 0x05, 0x00, 0x00, 0x00, 0x09]).unwrap();
    assert_eq!(h.signature, FLV_HEADER_SIGNATURE);
    assert_eq!(h.version, FLV_HEADER_VERSION);
    assert!(h.flags.has_audio());
    assert!(h.flags.has_video());
    assert_eq!(h.flags.bits(), 0x05);
    assert_eq!(h.data_offset, 9);
}

#[test]
fn header_round_trips() {
    let h = FlvHeader {
        signature: FLV_HEADER_SIGNATURE,
        version: FLV_HEADER_VERSION,
        flags: HeaderFlags::from_bits_retain(0x05),
        data_offset: 9,
    };
    let mut w = ByteWriter::new();
    h.encode(&mut w);
    let bytes = w.into_vec();
    assert_eq!(bytes.len(), 9);
    let back = decode_bytes(bytes).unwrap();
    assert_eq!(back, h);
}

#[test]
fn header_retains_unknown_flag_bits() {
    let h = decode_bytes(vec![0x46, 0x4C, 0x56, 0x01, 0xFF, 0x00, 0x00, 0x00, 0x09]).unwrap();
    assert_eq!(h.flags.bits(), 0xFF);
}

#[test]
fn header_rejects_bad_signature() {
    let res = decode_bytes(vec![0x46, 0x4C, 0x57, 0x01, 0x05, 0x00, 0x00, 0x00, 0x09]);
    assert_eq!(res, Err(FlvError::InvalidSignature));
}

#[test]
fn header_rejects_bad_version() {
    let res = decode_bytes(vec![0x46, 0x4C, 0x56, 0x02, 0x05, 0x00, 0x00, 0x00, 0x09]);
    assert_eq!(res, Err(FlvError::InvalidVersion));
}

#[test]
fn header_rejects_bad_data_offset() {
    let res = decode_bytes(vec![0x46, 0x4C, 0x56, 0x01, 0x05, 0x00, 0x00, 0x00, 0x0A]);
    assert_eq!(res, Err(FlvError::InvalidDataOffset));
}

#[test]
fn header_rejects_short_input() {
    assert_eq!(decode_bytes(vec![]), Err(FlvError::IoError));
    assert_eq!(decode_bytes(vec![0x46, 0x4C]), Err(FlvError::IoError));
    assert_eq!(
        decode_bytes(vec![0x46, 0x4C, 0x56, 0x01, 0x05, 0x00]),
        Err(FlvError::IoError)
    );
}
