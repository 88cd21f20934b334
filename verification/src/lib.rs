//! Decoder for the Marshal binary object-graph format, restricted to the
//! subset produced by a particular game engine: a type-tag dispatcher, a
//! variable-length signed-integer codec, dual caches (object cache and symbol
//! cache) that resolve back-references to shared and cyclic substructure, and
//! fixed-layout little-endian readers for the engine's Color, Tone and Table
//! records.

pub mod error;
pub mod links;
pub mod model;
pub mod reader;
pub mod utf8;
pub mod value;
pub mod varint;

pub use error::{DecodeError, ErrorKind};
pub use reader::{decode, Decoded, Reader, MAX_DEPTH};
pub use value::{
    classify_float_text, Color, Diagnostic, FloatKind, Object, PureObject, Table, Tone, Value,
};
pub use varint::{decode_fixnum, encode_fixnum};
