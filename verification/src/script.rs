//! The AMF0 value codec used inside script-data payloads: length-prefixed
//! keys, marker-tagged strings, numbers and booleans, and the ordered,
//! sentinel-terminated ECMA array that carries stream metadata.
//!
//! A `Key` and a `String` value carry similar content but have different
//! wire shapes: a key is a bare length-prefixed string, a string value is
//! preceded by its one-byte type marker. The two are kept as distinct types.
//!
//! `extract` methods parse a value body whose marker has already been
//! consumed; `decode` methods read and check the marker first.

use crate::stream::{be_u16, be_u24, be_u32, be_u64, u16_to_be, u24_to_be, u32_to_be, u64_to_be};
use crate::stream::{lemma_u16_be_round, lemma_u24_be_round, lemma_u32_be_round, lemma_u64_be_round};
use crate::stream::{ByteReader, ByteWriter};
use vstd::prelude::*;
use vstd::utf8::{decode_utf8, encode_utf8, valid_utf8};
use vstd::utf8::{encode_utf8_decode_utf8, encode_utf8_valid_utf8};

verus! {

pub const AMF0_NUMBER: u8 = 0;

pub const AMF0_BOOL: u8 = 1;

pub const AMF0_STRING: u8 = 2;

pub const AMF0_ECMA_ARRAY: u8 = 8;

/// Everything that can go wrong in the AMF0 value codec.
#[derive(Debug, Clone, Copy, PartialEq, Eq)]
pub enum Amf0Error {
    /// A string whose byte length does not fit the 16-bit length field.
    StringTooLong,
    /// An unrecognized value marker, or a broken array terminator.
    InvalidId,
    /// String bytes that are not valid text.
    Utf8Error,
    /// The byte source ran out in the middle of a field (a short read).
    IoError,
}

/// Relies on `String::from_utf8`: it returns `Ok` exactly when the bytes
/// are valid UTF-8, and the returned string is backed by those very bytes.
#[verifier::external_body]
fn string_from_utf8(bytes: Vec<u8>) -> (r: Option<String>)
    ensures
        r is Some <==> valid_utf8(bytes@),
        r matches Some(s) ==> encode_utf8(s@) == bytes@,
{
    match String::from_utf8(bytes) {
        Ok(s) => Some(s),
        Err(_) => None,
    }
}

// ---------------------------------------------------------------------------
// Length-prefixed strings, specification level
// ---------------------------------------------------------------------------
/// Text whose UTF-8 byte length fits the 16-bit length field.
pub open spec fn lpstr_wf(text: Seq<char>) -> bool {
    encode_utf8(text).len() <= 0xFFFF
}

/// Wire bytes of a length-prefixed string: a two-byte big-endian byte
/// count, then the UTF-8 bytes themselves.
pub open spec fn spec_enc_lpstr(text: Seq<char>) -> Seq<u8>
    recommends
        lpstr_wf(text),
{
    u16_to_be(encode_utf8(text).len() as u16) + encode_utf8(text)
}

/// Parsing a length-prefixed string: the text and the bytes consumed, or
/// the first error encountered.
pub open spec fn spec_parse_lpstr(b: Seq<u8>) -> Result<(Seq<char>, int), Amf0Error> {
    if b.len() < 2 {
        Err(Amf0Error::IoError)
    } else {
        let n = be_u16(b.take(2)) as int;
        if b.len() < 2 + n {
            Err(Amf0Error::IoError)
        } else if valid_utf8(b.subrange(2, 2 + n)) {
            Ok((decode_utf8(b.subrange(2, 2 + n)), 2 + n))
        } else {
            Err(Amf0Error::Utf8Error)
        }
    }
}

/// Round trip for the shared length-prefixed string shape.
pub proof fn lemma_lpstr_round_trip(text: Seq<char>, rest: Seq<u8>)
    requires
        lpstr_wf(text),
    ensures
        spec_enc_lpstr(text).len() == 2 + encode_utf8(text).len(),
        spec_parse_lpstr(spec_enc_lpstr(text) + rest) == Ok::<(Seq<char>, int), Amf0Error>(
            (text, spec_enc_lpstr(text).len() as int),
        ),
{
    let bytes = encode_utf8(text);
    let n = bytes.len() as int;
    let b = spec_enc_lpstr(text) + rest;
    lemma_u16_be_round(n as u16);
    assert(b.take(2) =~= u16_to_be(n as u16));
    assert(b.subrange(2, 2 + n) =~= bytes);
    encode_utf8_valid_utf8(text);
    encode_utf8_decode_utf8(text);
}

// ---------------------------------------------------------------------------
// Amf0Key
// ---------------------------------------------------------------------------
/// A property key: a length-prefixed string with no leading type marker.
#[derive(Debug, PartialEq, Eq)]
pub struct Amf0Key {
    pub size: u16,
    pub key: String,
}

impl View for Amf0Key {
    type V = Seq<char>;

    open spec fn view(&self) -> Seq<char> {
        self.key@
    }
}

impl Amf0Key {
    /// The stored size field equals the key's UTF-8 byte length.
    pub open spec fn wf(&self) -> bool {
        encode_utf8(self.key@).len() == self.size
    }

    /// Bytes a key occupies on the wire: the length field plus the text.
    pub open spec fn spec_size(text: Seq<char>) -> int {
        2 + encode_utf8(text).len() as int
    }

    /// Builds a key, rejecting text whose byte length overflows the
    /// 16-bit length field.
    pub fn new(key: String) -> (res: Result<Amf0Key, Amf0Error>)
        ensures
            lpstr_wf(key@) ==> (res matches Ok(k) && k@ == key@ && k.wf()),
            !lpstr_wf(key@) ==> res == Err::<Amf0Key, Amf0Error>(Amf0Error::StringTooLong),
    {
        let len = key.as_str().as_bytes().len();
        if len > 0xFFFF {
            return Err(Amf0Error::StringTooLong);
        }
        let size = len as u16;
        Ok(Amf0Key { size, key })
    }

    pub fn size(&self) -> (n: usize)
        requires
            self.wf(),
        ensures
            n == Amf0Key::spec_size(self@),
    {
        2 + self.key.as_str().as_bytes().len()
    }

    pub fn encode(&self, w: &mut ByteWriter)
        requires
            self.wf(),
        ensures
            final(w).data@ == old(w).data@ + spec_enc_lpstr(self@),
    {
        w.write_u16_be(self.size);
        w.write_bytes(self.key.as_str().as_bytes());
        proof {
            assert(w.data@ =~= old(w).data@ + spec_enc_lpstr(self@));
        }
    }

    pub fn decode(r: &mut ByteReader) -> (res: Result<Amf0Key, Amf0Error>)
        requires
            old(r).wf(),
        ensures
            final(r).wf(),
            final(r).data@ == old(r).data@,
            old(r).pos <= final(r).pos,
            match spec_parse_lpstr(old(r).remaining()) {
                Ok((t, n)) => res matches Ok(k) && k@ == t && k.wf() && final(r).pos == old(r).pos
                    + n,
                Err(e) => res matches Err(got) && got == e,
            },
    {
        let ghost b = old(r).remaining();
        let size = match r.read_u16_be() {
            Some(v) => v,
            None => {
                return Err(Amf0Error::IoError);
            },
        };
        let bytes = match r.read_bytes(size as usize) {
            Some(v) => v,
            None => {
                return Err(Amf0Error::IoError);
            },
        };
        proof {
            assert(r.remaining() =~= b.skip(2 + size as int));
            assert(bytes@ =~= b.subrange(2, 2 + size as int));
        }
        let key = match string_from_utf8(bytes) {
            Some(s) => s,
            None => {
                return Err(Amf0Error::Utf8Error);
            },
        };
        proof {
            encode_utf8_decode_utf8(key@);
        }
        Ok(Amf0Key { size, key })
    }
}

// ---------------------------------------------------------------------------
// Amf0String
// ---------------------------------------------------------------------------
/// A string value: a type marker, then a length-prefixed string.
#[derive(Debug, PartialEq, Eq)]
pub struct Amf0String {
    pub size: u16,
    pub content: String,
}

impl View for Amf0String {
    type V = Seq<char>;

    open spec fn view(&self) -> Seq<char> {
        self.content@
    }
}

/// Wire bytes of a string value: the marker, then the length-prefixed text.
pub open spec fn spec_enc_string(text: Seq<char>) -> Seq<u8>
    recommends
        lpstr_wf(text),
{
    seq![AMF0_STRING] + spec_enc_lpstr(text)
}

/// Parsing a string value, marker included.
pub open spec fn spec_parse_string(b: Seq<u8>) -> Result<(Seq<char>, int), Amf0Error> {
    if b.len() < 1 {
        Err(Amf0Error::IoError)
    } else if b[0] != AMF0_STRING {
        Err(Amf0Error::InvalidId)
    } else {
        match spec_parse_lpstr(b.skip(1)) {
            Ok((t, n)) => Ok((t, 1 + n)),
            Err(e) => Err(e),
        }
    }
}

impl Amf0String {
    /// The stored size field equals the content's UTF-8 byte length.
    pub open spec fn wf(&self) -> bool {
        encode_utf8(self.content@).len() == self.size
    }

    /// Bytes a string value occupies: marker, length field, text.
    pub open spec fn spec_size(text: Seq<char>) -> int {
        3 + encode_utf8(text).len() as int
    }

    /// Builds a string value, rejecting text whose byte length overflows
    /// the 16-bit length field.
    pub fn new(content: String) -> (res: Result<Amf0String, Amf0Error>)
        ensures
            lpstr_wf(content@) ==> (res matches Ok(s) && s@ == content@ && s.wf()),
            !lpstr_wf(content@) ==> res == Err::<Amf0String, Amf0Error>(Amf0Error::StringTooLong),
    {
        let len = content.as_str().as_bytes().len();
        if len > 0xFFFF {
            return Err(Amf0Error::StringTooLong);
        }
        let size = len as u16;
        Ok(Amf0String { size, content })
    }

    pub fn size(&self) -> (n: usize)
        requires
            self.wf(),
        ensures
            n == Amf0String::spec_size(self@),
    {
        1 + 2 + self.content.as_str().as_bytes().len()
    }

    pub fn encode(&self, w: &mut ByteWriter)
        requires
            self.wf(),
        ensures
            final(w).data@ == old(w).data@ + spec_enc_string(self@),
    {
        w.write_u8(AMF0_STRING);
        w.write_u16_be(self.size);
        w.write_bytes(self.content.as_str().as_bytes());
        proof {
            assert(w.data@ =~= old(w).data@ + spec_enc_string(self@));
        }
    }

    /// Parses a string body whose marker has already been consumed.
    pub fn extract(r: &mut ByteReader) -> (res: Result<Amf0String, Amf0Error>)
        requires
            old(r).wf(),
        ensures
            final(r).wf(),
            final(r).data@ == old(r).data@,
            old(r).pos <= final(r).pos,
            match spec_parse_lpstr(old(r).remaining()) {
                Ok((t, n)) => res matches Ok(s) && s@ == t && s.wf() && final(r).pos == old(r).pos
                    + n,
                Err(e) => res matches Err(got) && got == e,
            },
    {
        let ghost b = old(r).remaining();
        let size = match r.read_u16_be() {
            Some(v) => v,
            None => {
                return Err(Amf0Error::IoError);
            },
        };
        let bytes = match r.read_bytes(size as usize) {
            Some(v) => v,
            None => {
                return Err(Amf0Error::IoError);
            },
        };
        proof {
            assert(bytes@ =~= b.subrange(2, 2 + size as int));
        }
        let content = match string_from_utf8(bytes) {
            Some(s) => s,
            None => {
                return Err(Amf0Error::Utf8Error);
            },
        };
        proof {
            encode_utf8_decode_utf8(content@);
        }
        Ok(Amf0String { content, size })
    }

    /// Reads and checks the string marker, then the string body.
    pub fn decode(r: &mut ByteReader) -> (res: Result<Amf0String, Amf0Error>)
        requires
            old(r).wf(),
        ensures
            final(r).wf(),
            final(r).data@ == old(r).data@,
            old(r).pos <= final(r).pos,
            match spec_parse_string(old(r).remaining()) {
                Ok((t, n)) => res matches Ok(s) && s@ == t && s.wf() && final(r).pos == old(r).pos
                    + n,
                Err(e) => res matches Err(got) && got == e,
            },
    {
        let ghost b = old(r).remaining();
        let ty = match r.read_u8() {
            Some(v) => v,
            None => {
                return Err(Amf0Error::IoError);
            },
        };
        if ty != AMF0_STRING {
            return Err(Amf0Error::InvalidId);
        }
        proof {
            assert(r.remaining() =~= b.skip(1));
        }
        Self::extract(r)
    }
}

// ---------------------------------------------------------------------------
// Amf0Bool
// ---------------------------------------------------------------------------
/// A boolean value: a type marker, then one byte (nonzero means true).
#[derive(Debug, PartialEq, Eq, Clone, Copy)]
pub struct Amf0Bool(pub bool);

impl View for Amf0Bool {
    type V = bool;

    open spec fn view(&self) -> bool {
        self.0
    }
}

/// Wire bytes of a boolean value.
pub open spec fn spec_enc_bool(v: bool) -> Seq<u8> {
    seq![AMF0_BOOL, if v { 1u8 } else { 0u8 }]
}

/// Parsing a boolean body whose marker has already been consumed: any
/// nonzero byte means true.
pub open spec fn spec_parse_bool_body(b: Seq<u8>) -> Result<(bool, int), Amf0Error> {
    if b.len() < 1 {
        Err(Amf0Error::IoError)
    } else {
        Ok((b[0] != 0, 1))
    }
}

/// Parsing a boolean value, marker included.
pub open spec fn spec_parse_bool(b: Seq<u8>) -> Result<(bool, int), Amf0Error> {
    if b.len() < 1 {
        Err(Amf0Error::IoError)
    } else if b[0] != AMF0_BOOL {
        Err(Amf0Error::InvalidId)
    } else {
        match spec_parse_bool_body(b.skip(1)) {
            Ok((v, n)) => Ok((v, 1 + n)),
            Err(e) => Err(e),
        }
    }
}

impl Amf0Bool {
    pub fn size(&self) -> (n: usize)
        ensures
            n == 2,
    {
        2
    }

    pub fn new(val: bool) -> (r: Amf0Bool)
        ensures
            r@ == val,
    {
        Amf0Bool(val)
    }

    pub fn encode(&self, w: &mut ByteWriter)
        ensures
            final(w).data@ == old(w).data@ + spec_enc_bool(self@),
    {
        w.write_u8(AMF0_BOOL);
        w.write_u8(if self.0 { 1 } else { 0 });
        proof {
            assert(w.data@ =~= old(w).data@ + spec_enc_bool(self@));
        }
    }

    /// Parses a boolean body whose marker has already been consumed.
    pub fn extract(r: &mut ByteReader) -> (res: Result<Amf0Bool, Amf0Error>)
        requires
            old(r).wf(),
        ensures
            final(r).wf(),
            final(r).data@ == old(r).data@,
            old(r).pos <= final(r).pos,
            match spec_parse_bool_body(old(r).remaining()) {
                Ok((v, n)) => res matches Ok(got) && got@ == v && final(r).pos == old(r).pos + n,
                Err(e) => res matches Err(got) && got == e,
            },
    {
        let val = match r.read_u8() {
            Some(v) => v,
            None => {
                return Err(Amf0Error::IoError);
            },
        };
        Ok(Amf0Bool(val != 0))
    }

    /// Reads and checks the boolean marker, then the boolean body.
    pub fn decode(r: &mut ByteReader) -> (res: Result<Amf0Bool, Amf0Error>)
        requires
            old(r).wf(),
        ensures
            final(r).wf(),
            final(r).data@ == old(r).data@,
            old(r).pos <= final(r).pos,
            match spec_parse_bool(old(r).remaining()) {
                Ok((v, n)) => res matches Ok(got) && got@ == v && final(r).pos == old(r).pos + n,
                Err(e) => res matches Err(got) && got == e,
            },
    {
        let ty = match r.read_u8() {
            Some(v) => v,
            None => {
                return Err(Amf0Error::IoError);
            },
        };
        if ty != AMF0_BOOL {
            return Err(Amf0Error::InvalidId);
        }
        proof {
            assert(r.remaining() =~= old(r).remaining().skip(1));
        }
        Self::extract(r)
    }
}

// ---------------------------------------------------------------------------
// Amf0Number
// ---------------------------------------------------------------------------
/// A number value: a type marker, then the eight-byte big-endian IEEE-754
/// double. The codec keeps the raw bit pattern, so every value on the wire
/// round-trips exactly, payloads of NaN included.
#[derive(Debug, PartialEq, Eq, Clone, Copy)]
pub struct Amf0Number(pub u64);

impl View for Amf0Number {
    type V = u64;

    open spec fn view(&self) -> u64 {
        self.0
    }
}

/// Wire bytes of a number value.
pub open spec fn spec_enc_number(bits: u64) -> Seq<u8> {
    seq![AMF0_NUMBER] + u64_to_be(bits)
}

/// Parsing a number body whose marker has already been consumed.
pub open spec fn spec_parse_number_body(b: Seq<u8>) -> Result<(u64, int), Amf0Error> {
    if b.len() < 8 {
        Err(Amf0Error::IoError)
    } else {
        Ok((be_u64(b.take(8)), 8))
    }
}

/// Parsing a number value, marker included.
pub open spec fn spec_parse_number(b: Seq<u8>) -> Result<(u64, int), Amf0Error> {
    if b.len() < 1 {
        Err(Amf0Error::IoError)
    } else if b[0] != AMF0_NUMBER {
        Err(Amf0Error::InvalidId)
    } else {
        match spec_parse_number_body(b.skip(1)) {
            Ok((v, n)) => Ok((v, 1 + n)),
            Err(e) => Err(e),
        }
    }
}

impl Amf0Number {
    pub fn size(&self) -> (n: usize)
        ensures
            n == 9,
    {
        1 + 8
    }

    /// Builds a number from the bit pattern of an IEEE-754 double.
    pub fn new(bits: u64) -> (r: Amf0Number)
        ensures
            r@ == bits,
    {
        Amf0Number(bits)
    }

    pub fn encode(&self, w: &mut ByteWriter)
        ensures
            final(w).data@ == old(w).data@ + spec_enc_number(self@),
    {
        w.write_u8(AMF0_NUMBER);
        w.write_u64_be(self.0);
        proof {
            assert(w.data@ =~= old(w).data@ + spec_enc_number(self@));
        }
    }

    /// Parses a number body whose marker has already been consumed.
    pub fn extract(r: &mut ByteReader) -> (res: Result<Amf0Number, Amf0Error>)
        requires
            old(r).wf(),
        ensures
            final(r).wf(),
            final(r).data@ == old(r).data@,
            old(r).pos <= final(r).pos,
            match spec_parse_number_body(old(r).remaining()) {
                Ok((v, n)) => res matches Ok(got) && got@ == v && final(r).pos == old(r).pos + n,
                Err(e) => res matches Err(got) && got == e,
            },
    {
        let bits = match r.read_u64_be() {
            Some(v) => v,
            None => {
                return Err(Amf0Error::IoError);
            },
        };
        Ok(Amf0Number(bits))
    }

    /// Reads and checks the number marker, then the number body.
    pub fn decode(r: &mut ByteReader) -> (res: Result<Amf0Number, Amf0Error>)
        requires
            old(r).wf(),
        ensures
            final(r).wf(),
            final(r).data@ == old(r).data@,
            old(r).pos <= final(r).pos,
            match spec_parse_number(old(r).remaining()) {
                Ok((v, n)) => res matches Ok(got) && got@ == v && final(r).pos == old(r).pos + n,
                Err(e) => res matches Err(got) && got == e,
            },
    {
        let ty = match r.read_u8() {
            Some(v) => v,
            None => {
                return Err(Amf0Error::IoError);
            },
        };
        if ty != AMF0_NUMBER {
            return Err(Amf0Error::InvalidId);
        }
        proof {
            assert(r.remaining() =~= old(r).remaining().skip(1));
        }
        Self::extract(r)
    }
}

// ---------------------------------------------------------------------------
// Amf0Value
// ---------------------------------------------------------------------------
/// A scalar metadata value, dispatched by its one-byte wire marker.
#[derive(Debug, PartialEq, Eq)]
pub enum Amf0Value {
    String(Amf0String),
    Bool(Amf0Bool),
    Number(Amf0Number),
}

/// The mathematical model of an `Amf0Value`.
pub enum ValueView {
    Str(Seq<char>),
    Bool(bool),
    Num(u64),
}

impl View for Amf0Value {
    type V = ValueView;

    open spec fn view(&self) -> ValueView {
        match self {
            Amf0Value::String(s) => ValueView::Str(s@),
            Amf0Value::Bool(b) => ValueView::Bool(b@),
            Amf0Value::Number(n) => ValueView::Num(n@),
        }
    }
}

/// Model-level validity of a value.
pub open spec fn value_wf(v: ValueView) -> bool {
    match v {
        ValueView::Str(t) => lpstr_wf(t),
        ValueView::Bool(_) => true,
        ValueView::Num(_) => true,
    }
}

/// Bytes a value occupies on the wire, marker included.
pub open spec fn spec_size_value(v: ValueView) -> int {
    match v {
        ValueView::Str(t) => Amf0String::spec_size(t),
        ValueView::Bool(_) => 2,
        ValueView::Num(_) => 9,
    }
}

/// Wire bytes of a value, marker included.
pub open spec fn spec_enc_value(v: ValueView) -> Seq<u8>
    recommends
        value_wf(v),
{
    match v {
        ValueView::Str(t) => spec_enc_string(t),
        ValueView::Bool(x) => spec_enc_bool(x),
        ValueView::Num(x) => spec_enc_number(x),
    }
}

/// Parsing a value body after its marker byte has been consumed.
pub open spec fn spec_parse_value_body(id: u8, b: Seq<u8>) -> Result<(ValueView, int), Amf0Error> {
    if id == AMF0_STRING {
        match spec_parse_lpstr(b) {
            Ok((t, n)) => Ok((ValueView::Str(t), 1 + n)),
            Err(e) => Err(e),
        }
    } else if id == AMF0_BOOL {
        match spec_parse_bool_body(b) {
            Ok((v, n)) => Ok((ValueView::Bool(v), 1 + n)),
            Err(e) => Err(e),
        }
    } else if id == AMF0_NUMBER {
        match spec_parse_number_body(b) {
            Ok((v, n)) => Ok((ValueView::Num(v), 1 + n)),
            Err(e) => Err(e),
        }
    } else {
        Err(Amf0Error::InvalidId)
    }
}

/// Parsing a value: one marker byte, then the matching body. The bytes
/// consumed include the marker.
pub open spec fn spec_parse_value(b: Seq<u8>) -> Result<(ValueView, int), Amf0Error> {
    if b.len() < 1 {
        Err(Amf0Error::IoError)
    } else {
        spec_parse_value_body(b[0], b.skip(1))
    }
}

impl Amf0Value {
    /// The variant's stored size field is consistent with its content.
    pub open spec fn wf(&self) -> bool {
        match self {
            Amf0Value::String(s) => s.wf(),
            Amf0Value::Bool(_) => true,
            Amf0Value::Number(_) => true,
        }
    }

    pub fn size(&self) -> (n: usize)
        requires
            self.wf(),
        ensures
            n == spec_size_value(self@),
    {
        match self {
            Amf0Value::String(s) => s.size(),
            Amf0Value::Bool(b) => b.size(),
            Amf0Value::Number(x) => x.size(),
        }
    }

    pub fn encode(&self, w: &mut ByteWriter)
        requires
            self.wf(),
        ensures
            final(w).data@ == old(w).data@ + spec_enc_value(self@),
    {
        match self {
            Amf0Value::String(s) => s.encode(w),
            Amf0Value::Bool(b) => b.encode(w),
            Amf0Value::Number(x) => x.encode(w),
        }
    }

    /// Reads the marker byte and dispatches to the matching body parser.
    pub fn decode(r: &mut ByteReader) -> (res: Result<Amf0Value, Amf0Error>)
        requires
            old(r).wf(),
        ensures
            final(r).wf(),
            final(r).data@ == old(r).data@,
            old(r).pos <= final(r).pos,
            match spec_parse_value(old(r).remaining()) {
                Ok((v, n)) => res matches Ok(got) && got@ == v && got.wf() && final(r).pos == old(
                    r,
                ).pos + n,
                Err(e) => res matches Err(got) && got == e,
            },
    {
        let id = match r.read_u8() {
            Some(v) => v,
            None => {
                return Err(Amf0Error::IoError);
            },
        };
        proof {
            assert(r.remaining() =~= old(r).remaining().skip(1));
        }
        if id == AMF0_STRING {
            match Amf0String::extract(r) {
                Ok(s) => Ok(Amf0Value::String(s)),
                Err(e) => Err(e),
            }
        } else if id == AMF0_BOOL {
            match Amf0Bool::extract(r) {
                Ok(b) => Ok(Amf0Value::Bool(b)),
                Err(e) => Err(e),
            }
        } else if id == AMF0_NUMBER {
            match Amf0Number::extract(r) {
                Ok(x) => Ok(Amf0Value::Number(x)),
                Err(e) => Err(e),
            }
        } else {
            Err(Amf0Error::InvalidId)
        }
    }
}

// ---------------------------------------------------------------------------
// Laws for scalar values
// ---------------------------------------------------------------------------
/// Size law: a value's `size()` equals the length of its encoding.
pub proof fn lemma_value_size(v: ValueView)
    requires
        value_wf(v),
    ensures
        spec_enc_value(v).len() == spec_size_value(v),
{
}

/// Size law: a key's `size()` equals the length of its encoding.
pub proof fn lemma_key_size(text: Seq<char>)
    ensures
        spec_enc_lpstr(text).len() == Amf0Key::spec_size(text),
{
}

/// Round trip: a well-formed value parses back from its own encoding,
/// whatever follows it on the wire.
pub proof fn lemma_value_round_trip(v: ValueView, rest: Seq<u8>)
    requires
        value_wf(v),
    ensures
        spec_parse_value(spec_enc_value(v) + rest) == Ok::<(ValueView, int), Amf0Error>(
            (v, spec_enc_value(v).len() as int),
        ),
{
    let b = spec_enc_value(v) + rest;
    match v {
        ValueView::Str(t) => {
            assert(b[0] == AMF0_STRING);
            assert(b.skip(1) =~= spec_enc_lpstr(t) + rest);
            lemma_lpstr_round_trip(t, rest);
        },
        ValueView::Bool(x) => {
            assert(b[0] == AMF0_BOOL);
            assert(b.skip(1)[0] == (if x {
                1u8
            } else {
                0u8
            }));
        },
        ValueView::Num(x) => {
            assert(b[0] == AMF0_NUMBER);
            lemma_u64_be_round(x);
            assert(b.skip(1).take(8) =~= u64_to_be(x));
        },
    }
}

// ---------------------------------------------------------------------------
// Amf0DataObjectProp
// ---------------------------------------------------------------------------
/// One property of an ECMA array: a key followed by a value.
#[derive(Debug, PartialEq, Eq)]
pub struct Amf0DataObjectProp {
    pub name: Amf0Key,
    pub value: Amf0Value,
}

/// The mathematical model of a property.
pub struct PropView {
    pub name: Seq<char>,
    pub value: ValueView,
}

impl View for Amf0DataObjectProp {
    type V = PropView;

    open spec fn view(&self) -> PropView {
        PropView { name: self.name@, value: self.value@ }
    }
}

impl DeepView for Amf0DataObjectProp {
    type V = PropView;

    open spec fn deep_view(&self) -> PropView {
        self.view()
    }
}

/// Model-level validity of a property.
pub open spec fn prop_wf(p: PropView) -> bool {
    lpstr_wf(p.name) && value_wf(p.value)
}

/// Bytes a property occupies on the wire.
pub open spec fn spec_size_prop(p: PropView) -> int {
    Amf0Key::spec_size(p.name) + spec_size_value(p.value)
}

/// Wire bytes of a property: the key, then the value.
pub open spec fn spec_enc_prop(p: PropView) -> Seq<u8>
    recommends
        prop_wf(p),
{
    spec_enc_lpstr(p.name) + spec_enc_value(p.value)
}

/// Parsing a property: a key, then a value.
pub open spec fn spec_parse_prop(b: Seq<u8>) -> Result<(PropView, int), Amf0Error> {
    match spec_parse_lpstr(b) {
        Err(e) => Err(e),
        Ok((name, n1)) => match spec_parse_value(b.skip(n1)) {
            Err(e) => Err(e),
            Ok((v, n2)) => Ok((PropView { name, value: v }, n1 + n2)),
        },
    }
}

impl Amf0DataObjectProp {
    /// Both halves carry consistent stored size fields.
    pub open spec fn wf(&self) -> bool {
        self.name.wf() && self.value.wf()
    }

    pub fn size(&self) -> (n: usize)
        requires
            self.wf(),
        ensures
            n == spec_size_prop(self@),
    {
        self.name.size() + self.value.size()
    }

    pub fn encode(&self, w: &mut ByteWriter)
        requires
            self.wf(),
        ensures
            final(w).data@ == old(w).data@ + spec_enc_prop(self@),
    {
        self.name.encode(w);
        self.value.encode(w);
        proof {
            assert(w.data@ =~= old(w).data@ + spec_enc_prop(self@));
        }
    }

    pub fn decode(r: &mut ByteReader) -> (res: Result<Amf0DataObjectProp, Amf0Error>)
        requires
            old(r).wf(),
        ensures
            final(r).wf(),
            final(r).data@ == old(r).data@,
            old(r).pos <= final(r).pos,
            match spec_parse_prop(old(r).remaining()) {
                Ok((p, n)) => res matches Ok(got) && got@ == p && got.wf() && final(r).pos == old(
                    r,
                ).pos + n,
                Err(e) => res matches Err(got) && got == e,
            },
    {
        let ghost b = old(r).remaining();
        let name = match Amf0Key::decode(r) {
            Ok(k) => k,
            Err(e) => {
                return Err(e);
            },
        };
        proof {
            assert(r.remaining() =~= b.skip(r.pos - old(r).pos));
        }
        let value = match Amf0Value::decode(r) {
            Ok(v) => v,
            Err(e) => {
                return Err(e);
            },
        };
        Ok(Amf0DataObjectProp { name, value })
    }
}

// ---------------------------------------------------------------------------
// Amf0EcmaArray
// ---------------------------------------------------------------------------
/// An ordered associative array: a declared property count, the properties
/// in order, and a fixed three-byte terminator on the wire.
#[derive(Debug, PartialEq, Eq)]
pub struct Amf0EcmaArray {
    pub len: u32,
    pub props: Vec<Amf0DataObjectProp>,
}

impl View for Amf0EcmaArray {
    type V = Seq<PropView>;

    open spec fn view(&self) -> Seq<PropView> {
        self.props.deep_view()
    }
}

/// Model-level validity of an array: the count fits its 32-bit field and
/// every property is valid.
pub open spec fn ecma_wf(props: Seq<PropView>) -> bool {
    &&& props.len() <= 0xFFFF_FFFF
    &&& forall|i: int| 0 <= i < props.len() ==> prop_wf(#[trigger] props[i])
}

/// Bytes a run of properties occupies on the wire.
pub open spec fn spec_size_props(props: Seq<PropView>) -> int
    decreases props.len(),
{
    if props.len() == 0 {
        0
    } else {
        spec_size_prop(props[0]) + spec_size_props(props.drop_first())
    }
}

/// Bytes an ECMA array occupies: marker, count, properties, terminator.
pub open spec fn spec_size_ecma(props: Seq<PropView>) -> int {
    8 + spec_size_props(props)
}

/// Wire bytes of a run of properties, in order.
pub open spec fn spec_enc_props(props: Seq<PropView>) -> Seq<u8>
    decreases props.len(),
{
    if props.len() == 0 {
        Seq::empty()
    } else {
        spec_enc_prop(props[0]) + spec_enc_props(props.drop_first())
    }
}

/// Wire bytes of an ECMA array: the marker, the big-endian property count,
/// each property in order, then the terminator bytes 0, 0, 9.
pub open spec fn spec_enc_ecma(props: Seq<PropView>) -> Seq<u8>
    recommends
        ecma_wf(props),
{
    seq![AMF0_ECMA_ARRAY] + u32_to_be(props.len() as u32) + spec_enc_props(props) + u24_to_be(9)
}

/// Parsing exactly `count` properties one after another.
pub open spec fn spec_parse_props(b: Seq<u8>, count: int) -> Result<
    (Seq<PropView>, int),
    Amf0Error,
>
    decreases count,
{
    if count <= 0 {
        Ok((Seq::empty(), 0))
    } else {
        match spec_parse_prop(b) {
            Err(e) => Err(e),
            Ok((p, n)) => match spec_parse_props(b.skip(n), count - 1) {
                Err(e) => Err(e),
                Ok((ps, m)) => Ok((seq![p] + ps, n + m)),
            },
        }
    }
}

/// Parsing an ECMA array: the marker, the count, that many properties, and
/// a terminator that must be exactly the bytes 0, 0, 9.
pub open spec fn spec_parse_ecma(b: Seq<u8>) -> Result<(Seq<PropView>, int), Amf0Error> {
    if b.len() < 1 {
        Err(Amf0Error::IoError)
    } else if b[0] != AMF0_ECMA_ARRAY {
        Err(Amf0Error::InvalidId)
    } else if b.len() < 5 {
        Err(Amf0Error::IoError)
    } else {
        match spec_parse_props(b.skip(5), be_u32(b.subrange(1, 5)) as int) {
            Err(e) => Err(e),
            Ok((ps, n)) => {
                if b.len() < 5 + n + 3 {
                    Err(Amf0Error::IoError)
                } else if be_u24(b.subrange(5 + n, 5 + n + 3)) != 9 {
                    Err(Amf0Error::InvalidId)
                } else {
                    Ok((ps, 5 + n + 3))
                }
            },
        }
    }
}

/// A run of properties never has a negative size.
pub proof fn lemma_size_props_nonneg(props: Seq<PropView>)
    ensures
        spec_size_props(props) >= 0,
    decreases props.len(),
{
    if props.len() > 0 {
        lemma_size_props_nonneg(props.drop_first());
    }
}

/// The size of a run of properties splits at any prefix boundary.
pub proof fn lemma_size_props_split(props: Seq<PropView>, i: int)
    requires
        0 <= i <= props.len(),
    ensures
        spec_size_props(props) == spec_size_props(props.take(i)) + spec_size_props(props.skip(i)),
    decreases i,
{
    if i == 0 {
        assert(props.take(0) =~= Seq::empty());
        assert(props.skip(0) =~= props);
    } else {
        let rest = props.drop_first();
        assert(props.take(i).drop_first() =~= rest.take(i - 1));
        assert(props.take(i)[0] == props[0]);
        assert(props.skip(i) =~= rest.skip(i - 1));
        lemma_size_props_split(rest, i - 1);
    }
}

/// Extending a prefix of properties by one extends its size and its
/// encoding by that property's size and encoding.
pub proof fn lemma_props_take_snoc(props: Seq<PropView>, i: int)
    requires
        0 <= i < props.len(),
    ensures
        spec_size_props(props.take(i + 1)) == spec_size_props(props.take(i)) + spec_size_prop(
            props[i],
        ),
        spec_enc_props(props.take(i + 1)) == spec_enc_props(props.take(i)) + spec_enc_prop(
            props[i],
        ),
    decreases i,
{
    if i == 0 {
        let s1 = props.take(1);
        assert(s1.len() == 1);
        assert(s1[0] == props[0]);
        assert(s1.drop_first() =~= Seq::<PropView>::empty());
        assert(spec_size_props(s1) == spec_size_prop(s1[0]) + spec_size_props(s1.drop_first()));
        assert(spec_size_props(Seq::<PropView>::empty()) == 0);
        assert(spec_enc_props(Seq::<PropView>::empty()) == Seq::<u8>::empty());
        assert(props.take(0) =~= Seq::<PropView>::empty());
        assert(spec_enc_props(s1) == spec_enc_prop(s1[0]) + spec_enc_props(s1.drop_first()));
        assert(spec_enc_props(s1) =~= spec_enc_props(props.take(0)) + spec_enc_prop(props[0]));
    } else {
        let rest = props.drop_first();
        lemma_props_take_snoc(rest, i - 1);
        let a = props.take(i + 1);
        let c = props.take(i);
        assert(a.len() == i + 1);
        assert(c.len() == i);
        assert(a.drop_first() =~= rest.take(i));
        assert(c.drop_first() =~= rest.take(i - 1));
        assert(a[0] == props[0]);
        assert(c[0] == props[0]);
        assert(props[i] == rest[i - 1]);
        assert(spec_size_props(a) == spec_size_prop(a[0]) + spec_size_props(a.drop_first()));
        assert(spec_size_props(c) == spec_size_prop(c[0]) + spec_size_props(c.drop_first()));
        assert(spec_enc_props(a) == spec_enc_prop(a[0]) + spec_enc_props(a.drop_first()));
        assert(spec_enc_props(c) == spec_enc_prop(c[0]) + spec_enc_props(c.drop_first()));
        assert(spec_enc_props(a) =~= spec_enc_props(c) + spec_enc_prop(props[i]));
    }
}

impl Amf0EcmaArray {
    /// The stored count equals the number of properties, and every
    /// property is well-formed.
    pub open spec fn wf(&self) -> bool {
        &&& self.len == self.props@.len()
        &&& forall|i: int|
            0 <= i < self.props@.len() ==> (#[trigger] self.props@[i]).wf()
    }

    #[verifier::loop_isolation(false)]
    pub fn size(&self) -> (n: usize)
        requires
            self.wf(),
            spec_size_ecma(self@) <= usize::MAX,
        ensures
            n == spec_size_ecma(self@),
    {
        let base: usize = 1 + 4 + 3;
        let mut acc: usize = 0;
        let mut i: usize = 0;
        proof {
            assert(self@.take(0) =~= Seq::empty());
        }
        while i < self.props.len()
            invariant
                self.wf(),
                spec_size_ecma(self@) <= usize::MAX,
                i <= self.props@.len(),
                acc == spec_size_props(self@.take(i as int)),
            decreases self.props@.len() - i,
        {
            proof {
                lemma_props_take_snoc(self@, i as int);
                lemma_size_props_split(self@, i + 1);
                lemma_size_props_nonneg(self@.skip(i + 1));
            }
            acc = acc + self.props[i].size();
            i = i + 1;
        }
        proof {
            assert(self@.take(self.props@.len() as int) =~= self@);
        }
        base + acc
    }

    /// Wraps a run of properties, recording their count.
    pub fn new(props: Vec<Amf0DataObjectProp>) -> (r: Amf0EcmaArray)
        requires
            props@.len() <= 0xFFFF_FFFF,
            forall|i: int| 0 <= i < props@.len() ==> (#[trigger] props@[i]).wf(),
        ensures
            r@ == props.deep_view(),
            r.wf(),
    {
        Amf0EcmaArray { len: props.len() as u32, props }
    }

    #[verifier::loop_isolation(false)]
    pub fn encode(&self, w: &mut ByteWriter)
        requires
            self.wf(),
        ensures
            final(w).data@ == old(w).data@ + spec_enc_ecma(self@),
    {
        let ghost prefix = old(w).data@;
        w.write_u8(AMF0_ECMA_ARRAY);
        w.write_u32_be(self.len);
        proof {
            assert(self@.take(0) =~= Seq::empty());
            assert(w.data@ =~= prefix + seq![AMF0_ECMA_ARRAY] + u32_to_be(self@.len() as u32)
                + spec_enc_props(self@.take(0)));
        }
        let mut i: usize = 0;
        while i < self.props.len()
            invariant
                self.wf(),
                i <= self.props@.len(),
                w.data@ == prefix + seq![AMF0_ECMA_ARRAY] + u32_to_be(self@.len() as u32)
                    + spec_enc_props(self@.take(i as int)),
            decreases self.props@.len() - i,
        {
            proof {
                lemma_props_take_snoc(self@, i as int);
            }
            self.props[i].encode(w);
            i = i + 1;
            proof {
                assert(w.data@ =~= prefix + seq![AMF0_ECMA_ARRAY] + u32_to_be(self@.len() as u32)
                    + spec_enc_props(self@.take(i as int)));
            }
        }
        w.write_u24_be(9);
        proof {
            assert(self@.take(self.props@.len() as int) =~= self@);
            assert(w.data@ =~= prefix + spec_enc_ecma(self@));
        }
    }

    #[verifier::loop_isolation(false)]
    #[verifier::rlimit(80)]
    pub fn decode(r: &mut ByteReader) -> (res: Result<Amf0EcmaArray, Amf0Error>)
        requires
            old(r).wf(),
        ensures
            final(r).wf(),
            final(r).data@ == old(r).data@,
            old(r).pos <= final(r).pos,
            match spec_parse_ecma(old(r).remaining()) {
                Ok((ps, n)) => res matches Ok(a) && a@ == ps && a.wf() && final(r).pos == old(
                    r,
                ).pos + n,
                Err(e) => res matches Err(got) && got == e,
            },
    {
        let ghost b = old(r).remaining();
        let ghost pos0 = old(r).pos;
        let ty = match r.read_u8() {
            Some(v) => v,
            None => {
                return Err(Amf0Error::IoError);
            },
        };
        if ty != AMF0_ECMA_ARRAY {
            return Err(Amf0Error::InvalidId);
        }
        let len = match r.read_u32_be() {
            Some(v) => v,
            None => {
                return Err(Amf0Error::IoError);
            },
        };
        proof {
            assert(b.subrange(1, 5) =~= b.skip(1).take(4));
            assert(r.remaining() =~= b.skip(5));
        }
        let ghost b5 = b.skip(5);
        let ghost pos5 = r.pos;
        let mut props: Vec<Amf0DataObjectProp> = Vec::new();
        let mut i: u32 = 0;
        while i < len
            invariant
                r.wf(),
                r.data@ == old(r).data@,
                i <= len,
                pos5 <= r.pos,
                b5 == r.data@.skip(pos5 as int),
                props.deep_view().len() == i as int,
                forall|j: int| 0 <= j < props@.len() ==> (#[trigger] props@[j]).wf(),
                match spec_parse_props(r.remaining(), len - i) {
                    Ok((ps2, m)) => spec_parse_props(b5, len as int) == Ok::<
                        (Seq<PropView>, int),
                        Amf0Error,
                    >((props.deep_view() + ps2, (r.pos - pos5) + m)),
                    Err(e) => spec_parse_props(b5, len as int) == Err::<
                        (Seq<PropView>, int),
                        Amf0Error,
                    >(e),
                },
            decreases len - i,
        {
            let ghost rem_before = r.remaining();
            let ghost dv_before = props.deep_view();
            let p = match Amf0DataObjectProp::decode(r) {
                Ok(p) => p,
                Err(e) => {
                    proof {
                        assert(spec_parse_props(rem_before, len - i) == Err::<
                            (Seq<PropView>, int),
                            Amf0Error,
                        >(e));
                    }
                    return Err(e);
                },
            };
            props.push(p);
            i = i + 1;
            proof {
                let (pv, n) = spec_parse_prop(rem_before)->Ok_0;
                assert(r.remaining() =~= rem_before.skip(n));
                assert(props.deep_view() =~= dv_before.push(p@));
                match spec_parse_props(r.remaining(), len - i) {
                    Ok((ps2, m)) => {
                        assert(spec_parse_props(rem_before, len - i + 1) == Ok::<
                            (Seq<PropView>, int),
                            Amf0Error,
                        >((seq![pv] + ps2, n + m)));
                        assert(dv_before + (seq![pv] + ps2) =~= props.deep_view() + ps2);
                    },
                    Err(_) => {},
                }
            }
        }
        let ghost nprops = r.pos - pos5;
        let ghost rem_term = r.remaining();
        proof {
            assert(props.deep_view() + Seq::<PropView>::empty() =~= props.deep_view());
        }
        let term = match r.read_u24_be() {
            Some(v) => v,
            None => {
                return Err(Amf0Error::IoError);
            },
        };
        proof {
            assert(b.subrange(5 + nprops, 5 + nprops + 3) =~= rem_term.take(3));
        }
        if term != 9 {
            return Err(Amf0Error::InvalidId);
        }
        Ok(Amf0EcmaArray { len, props })
    }
}

// ---------------------------------------------------------------------------
// FlvScriptTag
// ---------------------------------------------------------------------------
/// A script-data payload: one named root value (the name) followed by one
/// ECMA array of properties. The stored `data_size` mirrors the tag's
/// declared payload size.
#[derive(Debug, PartialEq, Eq)]
pub struct FlvScriptTag {
    pub name: Amf0String,
    pub ecma: Amf0EcmaArray,
    pub data_size: usize,
}

/// The mathematical model of a script payload.
pub struct ScriptView {
    pub name: Seq<char>,
    pub props: Seq<PropView>,
    pub data_size: int,
}

impl View for FlvScriptTag {
    type V = ScriptView;

    open spec fn view(&self) -> ScriptView {
        ScriptView { name: self.name@, props: self.ecma@, data_size: self.data_size as int }
    }
}

/// Model-level validity of a script payload: both halves are valid and the
/// recorded payload size is exactly the encoded length.
pub open spec fn script_wf(s: ScriptView) -> bool {
    &&& lpstr_wf(s.name)
    &&& ecma_wf(s.props)
    &&& s.data_size == Amf0String::spec_size(s.name) + spec_size_ecma(s.props)
}

/// Bytes a script payload occupies on the wire.
pub open spec fn spec_size_script(s: ScriptView) -> int {
    Amf0String::spec_size(s.name) + spec_size_ecma(s.props)
}

/// Wire bytes of a script payload: the name string, then the array.
pub open spec fn spec_enc_script(s: ScriptView) -> Seq<u8>
    recommends
        script_wf(s),
{
    spec_enc_string(s.name) + spec_enc_ecma(s.props)
}

/// Parsing a script payload of a tag whose declared size is `ds`: the name
/// string, then the array. The declared size is recorded, not checked.
pub open spec fn spec_parse_script(b: Seq<u8>, ds: int) -> Result<(ScriptView, int), Amf0Error> {
    match spec_parse_string(b) {
        Err(e) => Err(e),
        Ok((t, n1)) => match spec_parse_ecma(b.skip(n1)) {
            Err(e) => Err(e),
            Ok((ps, n2)) => Ok((ScriptView { name: t, props: ps, data_size: ds }, n1 + n2)),
        },
    }
}

impl FlvScriptTag {
    /// Both halves carry consistent stored fields and the recorded size is
    /// the encoded length.
    pub open spec fn wf(&self) -> bool {
        &&& self.name.wf()
        &&& self.ecma.wf()
        &&& self.data_size == spec_size_script(self@)
    }

    /// Builds a script payload and records its exact encoded size.
    pub fn new(name: String, props: Vec<Amf0DataObjectProp>) -> (res: Result<
        FlvScriptTag,
        Amf0Error,
    >)
        requires
            props@.len() <= 0xFFFF_FFFF,
            forall|i: int| 0 <= i < props@.len() ==> (#[trigger] props@[i]).wf(),
            spec_size_ecma(props.deep_view()) + 0x1_0002 <= usize::MAX,
        ensures
            lpstr_wf(name@) ==> (res matches Ok(s) && s@.name == name@ && s@.props
                == props.deep_view() && s.wf()),
            !lpstr_wf(name@) ==> res == Err::<FlvScriptTag, Amf0Error>(Amf0Error::StringTooLong),
    {
        let amf0_name = match Amf0String::new(name) {
            Ok(s) => s,
            Err(e) => {
                return Err(e);
            },
        };
        let ecma = Amf0EcmaArray::new(props);
        let data_size = amf0_name.size() + ecma.size();
        Ok(FlvScriptTag { name: amf0_name, ecma, data_size })
    }

    /// Bytes this payload occupies on the wire, computed from structure;
    /// the recorded `data_size` field is never trusted.
    pub fn size(&self) -> (n: usize)
        requires
            self.name.wf(),
            self.ecma.wf(),
            spec_size_script(self@) <= usize::MAX,
        ensures
            n == spec_size_script(self@),
    {
        self.name.size() + self.ecma.size()
    }

    pub fn encode(&self, w: &mut ByteWriter)
        requires
            self.name.wf(),
            self.ecma.wf(),
        ensures
            final(w).data@ == old(w).data@ + spec_enc_script(self@),
    {
        self.name.encode(w);
        self.ecma.encode(w);
        proof {
            assert(w.data@ =~= old(w).data@ + spec_enc_script(self@));
        }
    }

    /// Decodes a script payload from a tag whose declared payload size is
    /// `data_size`; the declared size is recorded, not validated.
    pub fn decode(r: &mut ByteReader, data_size: usize) -> (res: Result<FlvScriptTag, Amf0Error>)
        requires
            old(r).wf(),
        ensures
            final(r).wf(),
            final(r).data@ == old(r).data@,
            old(r).pos <= final(r).pos,
            match spec_parse_script(old(r).remaining(), data_size as int) {
                Ok((s, n)) => res matches Ok(got) && got@ == s && got.name.wf() && got.ecma.wf()
                    && final(r).pos == old(r).pos + n,
                Err(e) => res matches Err(got) && got == e,
            },
    {
        let ghost b = old(r).remaining();
        let name = match Amf0String::decode(r) {
            Ok(s) => s,
            Err(e) => {
                return Err(e);
            },
        };
        proof {
            assert(r.remaining() =~= b.skip(r.pos - old(r).pos));
        }
        let ecma = match Amf0EcmaArray::decode(r) {
            Ok(a) => a,
            Err(e) => {
                return Err(e);
            },
        };
        Ok(FlvScriptTag { name, ecma, data_size })
    }
}

// ---------------------------------------------------------------------------
// Laws for composite values
// ---------------------------------------------------------------------------
/// Size law: a run of properties encodes to exactly its computed size.
pub proof fn lemma_props_size(props: Seq<PropView>)
    ensures
        spec_enc_props(props).len() == spec_size_props(props),
    decreases props.len(),
{
    if props.len() > 0 {
        lemma_props_size(props.drop_first());
    }
}

/// Size law: an ECMA array's `size()` equals the length of its encoding.
pub proof fn lemma_ecma_size(props: Seq<PropView>)
    ensures
        spec_enc_ecma(props).len() == spec_size_ecma(props),
{
    lemma_props_size(props);
}

/// Size law: a script payload encodes to exactly its computed size.
pub proof fn lemma_script_size(s: ScriptView)
    ensures
        spec_enc_script(s).len() == spec_size_script(s),
{
    lemma_ecma_size(s.props);
}

/// Parsing a run of properties consumes a nonnegative number of bytes.
pub proof fn lemma_parse_props_consumed(b: Seq<u8>, count: int)
    ensures
        spec_parse_props(b, count) matches Ok((ps, m)) ==> m >= 0,
    decreases count,
{
    if count > 0 {
        match spec_parse_prop(b) {
            Ok((p, n)) => {
                lemma_parse_props_consumed(b.skip(n), count - 1);
            },
            Err(_) => {},
        }
    }
}

/// Round trip: a well-formed property parses back from its own encoding.
pub proof fn lemma_prop_round_trip(p: PropView, rest: Seq<u8>)
    requires
        prop_wf(p),
    ensures
        spec_parse_prop(spec_enc_prop(p) + rest) == Ok::<(PropView, int), Amf0Error>(
            (p, spec_enc_prop(p).len() as int),
        ),
{
    let b = spec_enc_prop(p) + rest;
    let value_rest = spec_enc_value(p.value) + rest;
    assert(b =~= spec_enc_lpstr(p.name) + value_rest);
    lemma_lpstr_round_trip(p.name, value_rest);
    let n1 = spec_enc_lpstr(p.name).len() as int;
    assert(b.skip(n1) =~= value_rest);
    lemma_value_round_trip(p.value, rest);
}

/// Round trip: a run of well-formed properties parses back, in order, from
/// its own encoding.
pub proof fn lemma_props_round_trip(props: Seq<PropView>, rest: Seq<u8>)
    requires
        forall|i: int| 0 <= i < props.len() ==> prop_wf(#[trigger] props[i]),
    ensures
        spec_parse_props(spec_enc_props(props) + rest, props.len() as int) == Ok::<
            (Seq<PropView>, int),
            Amf0Error,
        >((props, spec_enc_props(props).len() as int)),
    decreases props.len(),
{
    if props.len() == 0 {
        assert(props =~= Seq::<PropView>::empty());
        assert(spec_enc_props(props) + rest =~= rest);
        assert(spec_enc_props(props).len() == 0);
    } else {
        let first = props[0];
        let tail = props.drop_first();
        let b = spec_enc_props(props) + rest;
        let tail_rest = spec_enc_props(tail) + rest;
        assert(spec_enc_props(props) == spec_enc_prop(first) + spec_enc_props(tail));
        assert(b =~= spec_enc_prop(first) + tail_rest);
        lemma_prop_round_trip(first, tail_rest);
        let n = spec_enc_prop(first).len() as int;
        assert(b.skip(n) =~= tail_rest);
        lemma_props_round_trip(tail, rest);
        assert(seq![first] + tail =~= props);
        assert(spec_parse_prop(b) == Ok::<(PropView, int), Amf0Error>((first, n)));
        assert(spec_parse_props(b.skip(n), props.len() - 1) == Ok::<
            (Seq<PropView>, int),
            Amf0Error,
        >((tail, spec_enc_props(tail).len() as int)));
    }
}

/// An ECMA array whose terminator is present but is not exactly the bytes
/// 0, 0, 9 fails to parse, with the marker error.
pub proof fn lemma_ecma_bad_terminator(b: Seq<u8>)
    ensures
        (b.len() >= 5 && b[0] == AMF0_ECMA_ARRAY && (spec_parse_props(
            b.skip(5),
            be_u32(b.subrange(1, 5)) as int,
        ) matches Ok((ps, n)) && b.len() >= 5 + n + 3 && b.subrange(5 + n, 5 + n + 3) != u24_to_be(
            9,
        ))) ==> spec_parse_ecma(b) == Err::<(Seq<PropView>, int), Amf0Error>(Amf0Error::InvalidId),
{
    if b.len() >= 5 && b[0] == AMF0_ECMA_ARRAY {
        match spec_parse_props(b.skip(5), be_u32(b.subrange(1, 5)) as int) {
            Ok((ps, n)) => {
                lemma_parse_props_consumed(b.skip(5), be_u32(b.subrange(1, 5)) as int);
                if b.len() >= 5 + n + 3 {
                    crate::stream::lemma_u24_be_bytes_round(b.subrange(5 + n, 5 + n + 3));
                }
            },
            Err(_) => {},
        }
    }
}

/// Round trip: a well-formed ECMA array parses back from its own encoding,
/// whatever follows it on the wire.
pub proof fn lemma_ecma_round_trip(props: Seq<PropView>, rest: Seq<u8>)
    requires
        ecma_wf(props),
    ensures
        spec_parse_ecma(spec_enc_ecma(props) + rest) == Ok::<(Seq<PropView>, int), Amf0Error>(
            (props, spec_enc_ecma(props).len() as int),
        ),
{
    let b = spec_enc_ecma(props) + rest;
    let count = props.len() as u32;
    lemma_u32_be_round(count);
    assert(b[0] == AMF0_ECMA_ARRAY);
    assert(b.subrange(1, 5) =~= u32_to_be(count));
    let props_rest = spec_enc_props(props) + (u24_to_be(9) + rest);
    assert(b.skip(5) =~= props_rest);
    lemma_props_round_trip(props, u24_to_be(9) + rest);
    let n = spec_enc_props(props).len() as int;
    lemma_u24_be_round(9);
    assert(b.subrange(5 + n, 5 + n + 3) =~= u24_to_be(9));
    lemma_props_size(props);
}

/// Round trip: a well-formed script payload parses back from its own
/// encoding, and its recorded size matches the bytes consumed.
pub proof fn lemma_script_round_trip(s: ScriptView, rest: Seq<u8>)
    requires
        script_wf(s),
    ensures
        spec_parse_script(spec_enc_script(s) + rest, s.data_size) == Ok::<
            (ScriptView, int),
            Amf0Error,
        >((s, s.data_size)),
{
    let b = spec_enc_script(s) + rest;
    let ecma_rest = spec_enc_ecma(s.props) + rest;
    assert(b =~= spec_enc_string(s.name) + ecma_rest);
    assert(b[0] == AMF0_STRING);
    assert(b.skip(1) =~= spec_enc_lpstr(s.name) + ecma_rest);
    lemma_lpstr_round_trip(s.name, ecma_rest);
    let n1 = 1 + spec_enc_lpstr(s.name).len() as int;
    assert(b.skip(n1) =~= ecma_rest);
    lemma_ecma_round_trip(s.props, rest);
    lemma_ecma_size(s.props);
}

} // verus!
