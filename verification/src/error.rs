//! Errors of the wire-format decoders.
use vstd::prelude::*;

use crate::text::{push_decimal, spec_decimal};

verus! {

/// Error type for decoding operations.
#[derive(Debug, Clone, Copy, PartialEq, Eq, Structural)]
pub enum DecodeError {
    /// Unexpected end of input.
    UnexpectedEof,
    /// Invalid UTF-8 in string.
    InvalidUtf8,
    /// Invalid bool value (not 0 or 1).
    InvalidBool(u8),
    /// Unknown enum variant.
    UnknownEnumVariant(u32),
    /// Unknown union variant.
    UnknownUnionVariant(u32),
    /// LEB128 overflow.
    Leb128Overflow,
    /// Invalid wire type.
    InvalidWireType(u8),
    /// Invalid length (not a multiple of element size).
    InvalidLength,
}

impl DecodeError {
    /// The human-readable description of the error.
    pub open spec fn spec_message(self) -> Seq<char> {
        match self {
            DecodeError::UnexpectedEof => "unexpected end of input"@,
            DecodeError::InvalidUtf8 => "invalid UTF-8 in string"@,
            DecodeError::InvalidBool(v) => "invalid bool value: "@ + spec_decimal(v as nat),
            DecodeError::UnknownEnumVariant(v) => "unknown enum variant: "@ + spec_decimal(v as nat),
            DecodeError::UnknownUnionVariant(v) => "unknown union variant: "@ + spec_decimal(
                v as nat,
            ),
            DecodeError::Leb128Overflow => "LEB128 overflow"@,
            DecodeError::InvalidWireType(v) => "invalid wire type: "@ + spec_decimal(v as nat),
            DecodeError::InvalidLength => "invalid length (not a multiple of element size)"@,
        }
    }

    /// The human-readable description of the error (what `Display` prints).
    pub fn message(&self) -> (r: String)
        ensures
            r@ == self.spec_message(),
    {
        match self {
            DecodeError::UnexpectedEof => String::from_str("unexpected end of input"),
            DecodeError::InvalidUtf8 => String::from_str("invalid UTF-8 in string"),
            DecodeError::InvalidBool(v) => {
                let mut s = String::from_str("invalid bool value: ");
                push_decimal(&mut s, *v as u64);
                s
            },
            DecodeError::UnknownEnumVariant(v) => {
                let mut s = String::from_str("unknown enum variant: ");
                push_decimal(&mut s, *v as u64);
                s
            },
            DecodeError::UnknownUnionVariant(v) => {
                let mut s = String::from_str("unknown union variant: ");
                push_decimal(&mut s, *v as u64);
                s
            },
            DecodeError::Leb128Overflow => String::from_str("LEB128 overflow"),
            DecodeError::InvalidWireType(v) => {
                let mut s = String::from_str("invalid wire type: ");
                push_decimal(&mut s, *v as u64);
                s
            },
            DecodeError::InvalidLength => String::from_str(
                "invalid length (not a multiple of element size)",
            ),
        }
    }
}

} // verus!
