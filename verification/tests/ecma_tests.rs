use rflv::script::{
    Amf0DataObjectProp, Amf0EcmaArray, Amf0Error, Amf0Key, Amf0Number, Amf0Value, FlvScriptTag,
};
use rflv::stream::{ByteReader, ByteWriter};

fn number_prop(name: &str, value: f64) -> Amf0DataObjectProp {
    Amf0DataObjectProp {
        name: Amf0Key::new(name.to_string()).unwrap(),
        value: Amf0Value::Number(Amf0Number::new(value.to_bits())),
    }
}

#[test]
fn ecma_with_two_properties_round_trips() {
    let array = Amf0EcmaArray::new(vec![
        number_prop("width", 1920.0),
        number_prop("height", 1080.0),
    ]);
    assert_eq!(array.len, 2);
    // marker(1) + count(4) + ("width" key 7 + number 9) + ("height" key 8
    // + number 9) + terminator(3)
    assert_eq!(array.size(), 41);
    let mut w = ByteWriter::new();
    array.encode(&mut w);
    let bytes = w.into_vec();
    assert_eq!(bytes.len(), 41);
    let mut r = ByteReader::new(bytes);
    let back = Amf0EcmaArray::decode(&mut r).unwrap();
    assert_eq!(back.len, 2);
    assert_eq!(back, array);
}

#[test]
fn empty_ecma_round_trips() {
    let array = Amf0EcmaArray::new(vec![]);
    assert_eq!(array.size(), 8);
    let mut w = ByteWriter::new();
    array.encode(&mut w);
    let bytes = w.into_vec();
    assert_eq!(bytes, vec![0x08, 0, 0, 0, 0, 0, 0, 0x09]);
    let mut r = ByteReader::new(bytes);
    assert_eq!(Amf0EcmaArray::decode(&mut r).unwrap(), array);
}

#[test]
fn ecma_rejects_bad_terminator() {
    // An empty array whose terminator bytes are 0, 0, 8 instead of 0, 0, 9.
    let mut r = ByteReader::new(vec![0x08, 0, 0, 0, 0, 0, 0, 0x08]);
    assert_eq!(Amf0EcmaArray::decode(&mut r), Err(Amf0Error::InvalidId));
    let mut r = ByteReader::new(vec![0x08, 0, 0, 0, 0, 1, 0, 0x09]);
    assert_eq!(Amf0EcmaArray::decode(&mut r), Err(Amf0Error::InvalidId));
}

#[test]
fn ecma_rejects_missing_terminator() {
    let mut r = ByteReader::new(vec![0x08, 0, 0, 0, 0, 0, 0]);
    assert_eq!(Amf0EcmaArray::decode(&mut r), Err(Amf0Error::IoError));
}

#[test]
fn ecma_rejects_wrong_marker() {
    let mut r = ByteReader::new(vec![0x02, 0, 0, 0, 0, 0, 0, 0x09]);
    assert_eq!(Amf0EcmaArray::decode(&mut r), Err(Amf0Error::InvalidId));
}

#[test]
fn ecma_rejects_truncated_property_run() {
    // Declares one property but the input ends before it.
    let mut r = ByteReader::new(vec![0x08, 0, 0, 0, 1, 0]);
    assert_eq!(Amf0EcmaArray::decode(&mut r), Err(Amf0Error::IoError));
}

#[test]
fn script_tag_round_trips_with_exact_size() {
    let script = FlvScriptTag::new(
        "onMetaData".to_string(),
        vec![number_prop("width", 1920.0), number_prop("height", 1080.0)],
    )
    .unwrap();
    // name string (3 + 10) + array (41)
    assert_eq!(script.size(), 54);
    let mut w = ByteWriter::new();
    script.encode(&mut w);
    let bytes = w.into_vec();
    assert_eq!(bytes.len(), 54);
    let mut r = ByteReader::new(bytes);
    let back = FlvScriptTag::decode(&mut r, 54).unwrap();
    assert_eq!(back, script);
}

#[test]
fn script_tag_rejects_oversized_name() {
    let long = "c".repeat(0x1_0000);
    assert_eq!(
        FlvScriptTag::new(long, vec![]),
        Err(Amf0Error::StringTooLong)
    );
}
