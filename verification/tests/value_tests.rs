use rflv::script::{Amf0Bool, Amf0Error, Amf0Key, Amf0Number, Amf0String, Amf0Value};
use rflv::stream::{ByteReader, ByteWriter};

#[test]
fn key_round_trips() {
    let k = Amf0Key::new("duration".to_string()).unwrap();
    assert_eq!(k.size(), 2 + 8);
    let mut w = ByteWriter::new();
    k.encode(&mut w);
    let bytes = w.into_vec();
    assert_eq!(bytes.len(), k.size());
    assert_eq!(bytes[0], 0x00);
    assert_eq!(bytes[1], 0x08);
    let mut r = ByteReader::new(bytes);
    let back = Amf0Key::decode(&mut r).unwrap();
    assert_eq!(back, k);
}

#[test]
fn empty_key_round_trips() {
    let k = Amf0Key::new(String::new()).unwrap();
    assert_eq!(k.size(), 2);
    let mut w = ByteWriter::new();
    k.encode(&mut w);
    let mut r = ByteReader::new(w.into_vec());
    assert_eq!(Amf0Key::decode(&mut r).unwrap(), k);
}

#[test]
fn key_rejects_oversized_text() {
    let long = "a".repeat(0x1_0000);
    assert_eq!(Amf0Key::new(long), Err(Amf0Error::StringTooLong));
    let just_fits = "a".repeat(0xFFFF);
    assert!(Amf0Key::new(just_fits).is_ok());
}

#[test]
fn key_rejects_invalid_text_bytes() {
    let mut r = ByteReader::new(vec![0x00, 0x01, 0xFF]);
    assert_eq!(Amf0Key::decode(&mut r), Err(Amf0Error::Utf8Error));
}

#[test]
fn string_round_trips() {
    let s = Amf0String::new("onMetaData".to_string()).unwrap();
    assert_eq!(s.size(), 3 + 10);
    let mut w = ByteWriter::new();
    s.encode(&mut w);
    let bytes = w.into_vec();
    assert_eq!(bytes.len(), s.size());
    assert_eq!(bytes[0], 0x02);
    let mut r = ByteReader::new(bytes);
    let back = Amf0String::decode(&mut r).unwrap();
    assert_eq!(back, s);
}

#[test]
fn string_rejects_wrong_marker() {
    let mut r = ByteReader::new(vec![0x03, 0x00, 0x00]);
    assert_eq!(Amf0String::decode(&mut r), Err(Amf0Error::InvalidId));
}

#[test]
fn string_rejects_oversized_text() {
    let long = "b".repeat(0x1_0000);
    assert_eq!(Amf0String::new(long), Err(Amf0Error::StringTooLong));
}

#[test]
fn bool_round_trips() {
    for v in [true, false] {
        let b = Amf0Bool::new(v);
        assert_eq!(b.size(), 2);
        let mut w = ByteWriter::new();
        b.encode(&mut w);
        let bytes = w.into_vec();
        assert_eq!(bytes.len(), 2);
        assert_eq!(bytes[0], 0x01);
        let mut r = ByteReader::new(bytes);
        assert_eq!(Amf0Bool::decode(&mut r).unwrap(), b);
    }
}

#[test]
fn bool_decodes_any_nonzero_as_true() {
    let mut r = ByteReader::new(vec![0x01, 0x07]);
    assert_eq!(Amf0Bool::decode(&mut r).unwrap(), Amf0Bool::new(true));
}

#[test]
fn number_round_trips_exactly() {
    for x in [0.0f64, 1920.0, -2.5, f64::INFINITY] {
        let n = Amf0Number::new(x.to_bits());
        assert_eq!(n.size(), 9);
        let mut w = ByteWriter::new();
        n.encode(&mut w);
        let bytes = w.into_vec();
        assert_eq!(bytes.len(), 9);
        assert_eq!(bytes[0], 0x00);
        let mut r = ByteReader::new(bytes);
        let back = Amf0Number::decode(&mut r).unwrap();
        assert_eq!(back, n);
        assert_eq!(f64::from_bits(back.0), x);
    }
}

#[test]
fn number_wire_bytes_are_big_endian() {
    let n = Amf0Number::new(1920.0f64.to_bits());
    let mut w = ByteWriter::new();
    n.encode(&mut w);
    let bytes = w.into_vec();
    assert_eq!(bytes, vec![0x00, 0x40, 0x9E, 0x00, 0x00, 0x00, 0x00, 0x00, 0x00]);
}

#[test]
fn value_dispatches_on_marker() {
    let v = Amf0Value::String(Amf0String::new("x".to_string()).unwrap());
    let mut w = ByteWriter::new();
    v.encode(&mut w);
    let mut r = ByteReader::new(w.into_vec());
    assert_eq!(Amf0Value::decode(&mut r).unwrap(), v);

    let v = Amf0Value::Bool(Amf0Bool::new(true));
    let mut w = ByteWriter::new();
    v.encode(&mut w);
    let mut r = ByteReader::new(w.into_vec());
    assert_eq!(Amf0Value::decode(&mut r).unwrap(), v);

    let v = Amf0Value::Number(Amf0Number::new(3.5f64.to_bits()));
    let mut w = ByteWriter::new();
    v.encode(&mut w);
    let mut r = ByteReader::new(w.into_vec());
    assert_eq!(Amf0Value::decode(&mut r).unwrap(), v);
}

#[test]
fn value_size_matches_encoded_length() {
    let values = vec![
        Amf0Value::String(Amf0String::new("stereo".to_string()).unwrap()),
        Amf0Value::Bool(Amf0Bool::new(false)),
        Amf0Value::Number(Amf0Number::new(44100.0f64.to_bits())),
    ];
    for v in values {
        let mut w = ByteWriter::new();
        v.encode(&mut w);
        assert_eq!(v.size(), w.into_vec().len());
    }
}

#[test]
fn value_rejects_unknown_marker() {
    let mut r = ByteReader::new(vec![0x05, 0x00]);
    assert_eq!(Amf0Value::decode(&mut r), Err(Amf0Error::InvalidId));
}

#[test]
fn value_rejects_empty_input() {
    let mut r = ByteReader::new(vec![]);
    assert_eq!(Amf0Value::decode(&mut r), Err(Amf0Error::IoError));
}

#[test]
fn value_rejects_truncated_number() {
    let mut r = ByteReader::new(vec![0x00, 0x40, 0x9E]);
    assert_eq!(Amf0Value::decode(&mut r), Err(Amf0Error::IoError));
}

#[test]
fn non_ascii_key_round_trips() {
    let k = Amf0Key::new("se\u{f1}al \u{2713}".to_string()).unwrap();
    // Byte length, not character count: the two-byte and three-byte
    // characters count in full.
    assert_eq!(k.size(), 2 + 10);
    let mut w = ByteWriter::new();
    k.encode(&mut w);
    let mut r = ByteReader::new(w.into_vec());
    assert_eq!(Amf0Key::decode(&mut r).unwrap(), k);
}

#[test]
fn extract_parses_bodies_without_markers() {
    // A string body: length 2, then the text.
    let mut r = ByteReader::new(vec![0x00, 0x02, b'h', b'i']);
    let s = Amf0String::extract(&mut r).unwrap();
    assert_eq!(s, Amf0String::new("hi".to_string()).unwrap());

    // A boolean body: one byte.
    let mut r = ByteReader::new(vec![0x00]);
    assert_eq!(Amf0Bool::extract(&mut r).unwrap(), Amf0Bool::new(false));

    // A number body: eight big-endian bytes.
    let mut r = ByteReader::new(vec![0x40, 0x9E, 0, 0, 0, 0, 0, 0]);
    let n = Amf0Number::extract(&mut r).unwrap();
    assert_eq!(f64::from_bits(n.0), 1920.0);
}
