//! A verified codec for the FLV container format: a nine-byte file header
//! followed by a run of self-describing tags (video, audio, script data),
//! each carrying a type-tagged payload. Script payloads embed a small
//! recursive AMF0 value codec (strings, numbers, booleans, ECMA arrays).
//!
//! Every `decode` is specified against a specification-level parser over
//! `Seq<u8>`, every `encode` against a specification-level byte-sequence
//! builder, and the round-trip and size laws are proved as lemmas in the
//! modules that own each type.

pub mod audio;
pub mod error;
pub mod file;
pub mod header;
pub mod script;
pub mod stream;
pub mod tag;
pub mod video;
