//! The decoder's failure surface: an error kind and the byte offset at which
//! the failure was detected.

use vstd::prelude::*;

verus! {

/// Why a decode failed.
#[derive(Debug, PartialEq, Eq)]
pub enum ErrorKind {
    /// A read ran past the end of the input.
    UnexpectedEof,
    /// A type tag outside the supported subset.
    UnknownTypeTag(u8),
    /// A Fixnum whose magnitude does not fit in 32 bits.
    IntegerTooLarge,
    /// A symbol whose bytes are not valid UTF-8.
    InvalidUtf8,
    /// A Link index at or past the current object-cache length.
    LinkIndexOutOfRange,
    /// A Symlink index at or past the current symbol-cache length.
    SymlinkIndexOutOfRange,
    /// A hash key that was not encoded as a Fixnum.
    HashKeyNotInteger,
    /// An instance-variable name that does not begin with the `@` sentinel.
    ObjectKeyNotInstanceVariable,
    /// A user-defined record whose type name is not Color, Tone or Table.
    UnsupportedUserDefinedType(Vec<u8>),
    /// The nesting depth limit was exceeded.
    ResourceLimitExceeded,
}

/// The mathematical image of an `ErrorKind`.
#[verifier::ext_equal]
pub enum SpecErrorKind {
    UnexpectedEof,
    UnknownTypeTag(u8),
    IntegerTooLarge,
    InvalidUtf8,
    LinkIndexOutOfRange,
    SymlinkIndexOutOfRange,
    HashKeyNotInteger,
    ObjectKeyNotInstanceVariable,
    UnsupportedUserDefinedType(Seq<u8>),
    ResourceLimitExceeded,
}

/// A decode error: the kind of failure and the byte offset at which it was
/// detected.
#[derive(Debug, PartialEq, Eq)]
pub struct DecodeError {
    pub kind: ErrorKind,
    pub offset: usize,
}

/// The mathematical image of a `DecodeError`.
#[verifier::ext_equal]
pub struct SpecError {
    pub kind: SpecErrorKind,
    pub offset: int,
}

impl View for ErrorKind {
    type V = SpecErrorKind;

    open spec fn view(&self) -> SpecErrorKind {
        match *self {
            ErrorKind::UnexpectedEof => SpecErrorKind::UnexpectedEof,
            ErrorKind::UnknownTypeTag(b) => SpecErrorKind::UnknownTypeTag(b),
            ErrorKind::IntegerTooLarge => SpecErrorKind::IntegerTooLarge,
            ErrorKind::InvalidUtf8 => SpecErrorKind::InvalidUtf8,
            ErrorKind::LinkIndexOutOfRange => SpecErrorKind::LinkIndexOutOfRange,
            ErrorKind::SymlinkIndexOutOfRange => SpecErrorKind::SymlinkIndexOutOfRange,
            ErrorKind::HashKeyNotInteger => SpecErrorKind::HashKeyNotInteger,
            ErrorKind::ObjectKeyNotInstanceVariable => SpecErrorKind::ObjectKeyNotInstanceVariable,
            ErrorKind::UnsupportedUserDefinedType(ref n) => SpecErrorKind::UnsupportedUserDefinedType(
                n@,
            ),
            ErrorKind::ResourceLimitExceeded => SpecErrorKind::ResourceLimitExceeded,
        }
    }
}

impl View for DecodeError {
    type V = SpecError;

    open spec fn view(&self) -> SpecError {
        SpecError { kind: self.kind@, offset: self.offset as int }
    }
}

impl DecodeError {
    /// A short machine-readable name for this error's kind.
    pub fn kind_name(&self) -> &'static str {
        match self.kind {
            ErrorKind::UnexpectedEof => "unexpected end of input",
            ErrorKind::UnknownTypeTag(_) => "unknown type tag",
            ErrorKind::IntegerTooLarge => "integer too large for 32 bits",
            ErrorKind::InvalidUtf8 => "symbol is not valid UTF-8",
            ErrorKind::LinkIndexOutOfRange => "link index out of range",
            ErrorKind::SymlinkIndexOutOfRange => "symlink index out of range",
            ErrorKind::HashKeyNotInteger => "hash key is not an integer",
            ErrorKind::ObjectKeyNotInstanceVariable => "object key is not an instance variable",
            ErrorKind::UnsupportedUserDefinedType(_) => "unsupported user-defined type",
            ErrorKind::ResourceLimitExceeded => "nesting depth limit exceeded",
        }
    }
}

} // verus!
