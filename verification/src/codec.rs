//! The encoding of values: the `WireType`, `Encode` and `Decode` traits and their
//! implementations for the primitive types, strings, arrays and optional values.
use vstd::prelude::*;

use vstd::utf8::{decode_utf8, encode_utf8, encode_utf8_decode_utf8, encode_utf8_valid_utf8, valid_utf8};

use crate::error::DecodeError;
use crate::text::string_from_utf8;
use crate::leb128::{consumed, is_suffix_of, decode_leb128_u64, encode_leb128_u64, leb128, lemma_leb128_roundtrip, spec_decode_leb128, spec_unzigzag, spec_zigzag, zigzag_decode, zigzag_encode};
use crate::message::{lemma_skip_bytes, lemma_skip_fixed8, lemma_skip_varint, spec_field_value, spec_skip};
use crate::wire;

verus! {

/// The outcome of a decoder: a value and the bytes taken, or an error.
pub type DecodeResult<V> = Result<(V, nat), DecodeError>;

/// Trait for types that have a wire type.
///
/// Besides the wire type and the fixed size, it states the format itself: the bytes that
/// stand for a value (by its deep view), standalone and as the content of a length-delimited
/// field.
pub trait WireType: DeepView + Sized {
    /// The wire type used when encoding this type as a message/union field.
    const WIRE_TYPE: u8;

    /// Fixed encoded size in bytes, if every value encodes to the same number of bytes.
    spec fn spec_fixed_size() -> Option<usize>;

    /// Fixed encoded size in bytes, if known at compile time. None means variable-length encoding.
    fn fixed_size() -> (r: Option<usize>)
        ensures
            r == Self::spec_fixed_size(),
    ;

    /// The self-describing encoding of a value.
    spec fn spec_encode(v: <Self as DeepView>::V) -> Seq<u8>;

    /// The encoding of a value whose byte length is written by the caller.
    spec fn spec_encode_delimited(v: <Self as DeepView>::V) -> Seq<u8>;

    /// A fixed size is never zero.
    proof fn lemma_fixed_size_positive()
        ensures
            Self::spec_fixed_size() matches Some(n) ==> n > 0,
    ;
}

/// Trait for types that can be encoded.
pub trait Encode: WireType {
    /// Encode the value to the buffer. Self-describing format.
    fn encode(&self, buf: &mut Vec<u8>)
        ensures
            final(buf)@ == old(buf)@ + Self::spec_encode(self.deep_view()),
    ;

    /// Encode when the byte length will be written by the caller (for BYTES wire type fields).
    fn encode_delimited(&self, buf: &mut Vec<u8>)
        ensures
            final(buf)@ == old(buf)@ + Self::spec_encode_delimited(self.deep_view()),
    ;
}

/// Trait for types that can be decoded.
pub trait Decode: WireType {
    /// What decoding from the start of `s` gives: the value (by its deep view) and the bytes
    /// taken, or the error.
    spec fn spec_decode(s: Seq<u8>) -> DecodeResult<<Self as DeepView>::V>;

    /// What decoding a value of `len` bytes, whose length the caller has read, gives.
    spec fn spec_decode_delimited(len: usize, s: Seq<u8>) -> DecodeResult<<Self as DeepView>::V>;

    /// The values that a machine can hold and encode: those for which the round trip
    /// through the format is promised.
    spec fn spec_fits(v: <Self as DeepView>::V) -> bool;

    /// Decode a value from the buffer. Self-describing format.
    fn decode(buf: &mut &[u8]) -> (res: Result<Self, DecodeError>)
        ensures
            is_suffix_of(final(buf)@, old(buf)@),
            res matches Ok(v) ==> Self::spec_decode(old(buf)@) == Ok::<
                (<Self as DeepView>::V, nat),
                DecodeError,
            >((v.deep_view(), consumed(old(buf)@, final(buf)@))),
            res matches Err(e) ==> Self::spec_decode(old(buf)@) == Err::<
                (<Self as DeepView>::V, nat),
                DecodeError,
            >(e),
    ;

    /// Decode when the byte length is already known (for BYTES wire type fields).
    fn decode_delimited(len: usize, buf: &mut &[u8]) -> (res: Result<Self, DecodeError>)
        ensures
            is_suffix_of(final(buf)@, old(buf)@),
            res matches Ok(v) ==> Self::spec_decode_delimited(len, old(buf)@) == Ok::<
                (<Self as DeepView>::V, nat),
                DecodeError,
            >((v.deep_view(), consumed(old(buf)@, final(buf)@))),
            res matches Err(e) ==> Self::spec_decode_delimited(len, old(buf)@) == Err::<
                (<Self as DeepView>::V, nat),
                DecodeError,
            >(e),
    ;

    /// Decoding an encoded value, whatever follows it, gives the value back and consumes
    /// exactly its encoding.
    proof fn lemma_decode_encode(v: <Self as DeepView>::V, rest: Seq<u8>)
        requires
            Self::spec_fits(v),
        ensures
            Self::spec_decode(Self::spec_encode(v) + rest) == Ok::<
                (<Self as DeepView>::V, nat),
                DecodeError,
            >((v, Self::spec_encode(v).len())),
    ;

    /// The same for the delimited form, given its length.
    proof fn lemma_decode_encode_delimited(v: <Self as DeepView>::V, rest: Seq<u8>)
        requires
            Self::spec_fits(v),
        ensures
            Self::spec_encode_delimited(v).len() <= usize::MAX,
            Self::spec_decode_delimited(
                Self::spec_encode_delimited(v).len() as usize,
                Self::spec_encode_delimited(v) + rest,
            ) == Ok::<(<Self as DeepView>::V, nat), DecodeError>(
                (v, Self::spec_encode_delimited(v).len()),
            ),
    ;

    /// A value of a fixed-size type encodes to exactly that many bytes.
    proof fn lemma_fixed_size(v: <Self as DeepView>::V)
        ensures
            Self::spec_fixed_size() matches Some(n) ==> Self::spec_encode(v).len() == n,
    ;

    /// The value part of a field of this type, skipped by its wire type alone, as a decoder
    /// that does not know the field skips it, takes exactly its bytes.
    proof fn lemma_skip_field_value(v: <Self as DeepView>::V, rest: Seq<u8>)
        requires
            Self::spec_fits(v),
        ensures
            spec_skip(Self::WIRE_TYPE, spec_field_value::<Self>(v) + rest) == Ok::<nat, DecodeError>(
                spec_field_value::<Self>(v).len(),
            ),
    ;
}

/// Takes the first byte off `buf`.
fn take_byte(buf: &mut &[u8]) -> (r: Option<u8>)
    ensures
        old(buf)@.len() == 0 ==> r is None && final(buf)@ == old(buf)@,
        old(buf)@.len() > 0 ==> r == Some(old(buf)@[0]) && final(buf)@ == old(buf)@.skip(1),
        is_suffix_of(final(buf)@, old(buf)@),
{
    if buf.len() == 0 {
        assert(buf@ =~= buf@.skip(0));
        return None;
    }
    let b = buf[0];
    *buf = &buf[1..buf.len()];
    assert(buf@ =~= old(buf)@.skip(1));
    Some(b)
}

/// Appends `bytes` to `buf`.
pub fn append_bytes(buf: &mut Vec<u8>, bytes: &[u8])
    ensures
        final(buf)@ == old(buf)@ + bytes@,
{
    let mut i: usize = 0;
    while i < bytes.len()
        invariant
            i <= bytes.len(),
            buf@ == old(buf)@ + bytes@.take(i as int),
        decreases bytes.len() - i,
    {
        buf.push(bytes[i]);
        assert(bytes@.take(i + 1) =~= bytes@.take(i as int).push(bytes@[i as int]));
        i = i + 1;
    }
    assert(bytes@.take(bytes.len() as int) =~= bytes@);
}

/// What decoding a single byte gives.
pub open spec fn spec_decode_byte(s: Seq<u8>) -> DecodeResult<u8> {
    if s.len() == 0 {
        Err(DecodeError::UnexpectedEof)
    } else {
        Ok((s[0], 1))
    }
}

// ============================================================================
// bool, u8, i8
// ============================================================================
impl WireType for bool {
    const WIRE_TYPE: u8 = wire::FIXED8;

    open spec fn spec_fixed_size() -> Option<usize> {
        Some(1)
    }

    fn fixed_size() -> (r: Option<usize>) {
        Some(1)
    }

    open spec fn spec_encode(v: bool) -> Seq<u8> {
        seq![if v { 1u8 } else { 0u8 }]
    }

    open spec fn spec_encode_delimited(v: bool) -> Seq<u8> {
        Self::spec_encode(v)
    }

    proof fn lemma_fixed_size_positive() {
    }
}

impl Encode for bool {
    fn encode(&self, buf: &mut Vec<u8>) {
        buf.push(if *self { 1 } else { 0 });
    }

    fn encode_delimited(&self, buf: &mut Vec<u8>) {
        self.encode(buf);
    }
}

impl Decode for bool {
    open spec fn spec_decode(s: Seq<u8>) -> DecodeResult<bool> {
        if s.len() == 0 {
            Err(DecodeError::UnexpectedEof)
        } else if s[0] == 0 {
            Ok((false, 1))
        } else if s[0] == 1 {
            Ok((true, 1))
        } else {
            Err(DecodeError::InvalidBool(s[0]))
        }
    }

    open spec fn spec_decode_delimited(len: usize, s: Seq<u8>) -> DecodeResult<bool> {
        Self::spec_decode(s)
    }

    open spec fn spec_fits(v: bool) -> bool {
        true
    }

    fn decode(buf: &mut &[u8]) -> (res: Result<Self, DecodeError>) {
        match take_byte(buf) {
            None => Err(DecodeError::UnexpectedEof),
            Some(byte) => {
                if byte == 0 {
                    Ok(false)
                } else if byte == 1 {
                    Ok(true)
                } else {
                    Err(DecodeError::InvalidBool(byte))
                }
            },
        }
    }

    fn decode_delimited(len: usize, buf: &mut &[u8]) -> (res: Result<Self, DecodeError>) {
        Self::decode(buf)
    }

    proof fn lemma_decode_encode(v: bool, rest: Seq<u8>) {
    }

    proof fn lemma_decode_encode_delimited(v: bool, rest: Seq<u8>) {
    }

    proof fn lemma_fixed_size(v: bool) {
    }

    proof fn lemma_skip_field_value(v: bool, rest: Seq<u8>) {
        lemma_skip_fixed8(if v { 1u8 } else { 0u8 }, rest);
    }
}

impl WireType for u8 {
    const WIRE_TYPE: u8 = wire::FIXED8;

    open spec fn spec_fixed_size() -> Option<usize> {
        Some(1)
    }

    fn fixed_size() -> (r: Option<usize>) {
        Some(1)
    }

    open spec fn spec_encode(v: u8) -> Seq<u8> {
        seq![v]
    }

    open spec fn spec_encode_delimited(v: u8) -> Seq<u8> {
        Self::spec_encode(v)
    }

    proof fn lemma_fixed_size_positive() {
    }
}

impl Encode for u8 {
    fn encode(&self, buf: &mut Vec<u8>) {
        buf.push(*self);
    }

    fn encode_delimited(&self, buf: &mut Vec<u8>) {
        self.encode(buf);
    }
}

impl Decode for u8 {
    open spec fn spec_decode(s: Seq<u8>) -> DecodeResult<u8> {
        spec_decode_byte(s)
    }

    open spec fn spec_decode_delimited(len: usize, s: Seq<u8>) -> DecodeResult<u8> {
        Self::spec_decode(s)
    }

    open spec fn spec_fits(v: u8) -> bool {
        true
    }

    fn decode(buf: &mut &[u8]) -> (res: Result<Self, DecodeError>) {
        match take_byte(buf) {
            None => Err(DecodeError::UnexpectedEof),
            Some(byte) => Ok(byte),
        }
    }

    fn decode_delimited(len: usize, buf: &mut &[u8]) -> (res: Result<Self, DecodeError>) {
        Self::decode(buf)
    }

    proof fn lemma_decode_encode(v: u8, rest: Seq<u8>) {
    }

    proof fn lemma_decode_encode_delimited(v: u8, rest: Seq<u8>) {
    }

    proof fn lemma_fixed_size(v: u8) {
    }

    proof fn lemma_skip_field_value(v: u8, rest: Seq<u8>) {
        lemma_skip_fixed8(v, rest);
    }
}

impl WireType for i8 {
    const WIRE_TYPE: u8 = wire::FIXED8;

    open spec fn spec_fixed_size() -> Option<usize> {
        Some(1)
    }

    fn fixed_size() -> (r: Option<usize>) {
        Some(1)
    }

    /// The byte of the two's complement representation.
    open spec fn spec_encode(v: i8) -> Seq<u8> {
        seq![v as u8]
    }

    open spec fn spec_encode_delimited(v: i8) -> Seq<u8> {
        Self::spec_encode(v)
    }

    proof fn lemma_fixed_size_positive() {
    }
}

impl Encode for i8 {
    fn encode(&self, buf: &mut Vec<u8>) {
        buf.push(#[verifier::truncate] (*self as u8));
    }

    fn encode_delimited(&self, buf: &mut Vec<u8>) {
        self.encode(buf);
    }
}

impl Decode for i8 {
    open spec fn spec_decode(s: Seq<u8>) -> DecodeResult<i8> {
        if s.len() == 0 {
            Err(DecodeError::UnexpectedEof)
        } else {
            Ok((s[0] as i8, 1))
        }
    }

    open spec fn spec_decode_delimited(len: usize, s: Seq<u8>) -> DecodeResult<i8> {
        Self::spec_decode(s)
    }

    open spec fn spec_fits(v: i8) -> bool {
        true
    }

    fn decode(buf: &mut &[u8]) -> (res: Result<Self, DecodeError>) {
        match take_byte(buf) {
            None => Err(DecodeError::UnexpectedEof),
            Some(byte) => Ok(#[verifier::truncate] (byte as i8)),
        }
    }

    fn decode_delimited(len: usize, buf: &mut &[u8]) -> (res: Result<Self, DecodeError>) {
        Self::decode(buf)
    }

    proof fn lemma_decode_encode(v: i8, rest: Seq<u8>) {
        assert((v as u8) as i8 == v) by (bit_vector);
    }

    proof fn lemma_decode_encode_delimited(v: i8, rest: Seq<u8>) {
        Self::lemma_decode_encode(v, rest);
    }

    proof fn lemma_fixed_size(v: i8) {
    }

    proof fn lemma_skip_field_value(v: i8, rest: Seq<u8>) {
        lemma_skip_fixed8(v as u8, rest);
    }
}

// ============================================================================
// Variable-length integers: LEB128, zigzag for the signed ones
// ============================================================================

impl WireType for u16 {
    const WIRE_TYPE: u8 = wire::VARINT;

    open spec fn spec_fixed_size() -> Option<usize> {
        None
    }

    fn fixed_size() -> (r: Option<usize>) {
        None
    }

    open spec fn spec_encode(v: u16) -> Seq<u8> {
        leb128(v as u64)
    }

    open spec fn spec_encode_delimited(v: u16) -> Seq<u8> {
        Self::spec_encode(v)
    }

    proof fn lemma_fixed_size_positive() {
    }
}

impl Encode for u16 {
    fn encode(&self, buf: &mut Vec<u8>) {
        encode_leb128_u64(*self as u64, buf);
    }

    fn encode_delimited(&self, buf: &mut Vec<u8>) {
        self.encode(buf);
    }
}

impl Decode for u16 {
    /// The LEB128 value, truncated to the type's width.
    open spec fn spec_decode(s: Seq<u8>) -> DecodeResult<u16> {
        match spec_decode_leb128(s) {
            Ok((w, n)) => Ok((w as u16, n)),
            Err(e) => Err(e),
        }
    }

    open spec fn spec_decode_delimited(len: usize, s: Seq<u8>) -> DecodeResult<u16> {
        Self::spec_decode(s)
    }

    open spec fn spec_fits(v: u16) -> bool {
        true
    }

    fn decode(buf: &mut &[u8]) -> (res: Result<Self, DecodeError>) {
        match decode_leb128_u64(buf) {
            Ok(v) => Ok(#[verifier::truncate] (v as u16)),
            Err(e) => Err(e),
        }
    }

    fn decode_delimited(len: usize, buf: &mut &[u8]) -> (res: Result<Self, DecodeError>) {
        Self::decode(buf)
    }

    proof fn lemma_decode_encode(v: u16, rest: Seq<u8>) {
        lemma_leb128_roundtrip(v as u64, rest);
    }

    proof fn lemma_decode_encode_delimited(v: u16, rest: Seq<u8>) {
        lemma_leb128_roundtrip(v as u64, rest);
    }

    proof fn lemma_fixed_size(v: u16) {
    }

    proof fn lemma_skip_field_value(v: u16, rest: Seq<u8>) {
        lemma_skip_varint(v as u64, rest);
    }
}

impl WireType for u32 {
    const WIRE_TYPE: u8 = wire::VARINT;

    open spec fn spec_fixed_size() -> Option<usize> {
        None
    }

    fn fixed_size() -> (r: Option<usize>) {
        None
    }

    open spec fn spec_encode(v: u32) -> Seq<u8> {
        leb128(v as u64)
    }

    open spec fn spec_encode_delimited(v: u32) -> Seq<u8> {
        Self::spec_encode(v)
    }

    proof fn lemma_fixed_size_positive() {
    }
}

impl Encode for u32 {
    fn encode(&self, buf: &mut Vec<u8>) {
        encode_leb128_u64(*self as u64, buf);
    }

    fn encode_delimited(&self, buf: &mut Vec<u8>) {
        self.encode(buf);
    }
}

impl Decode for u32 {
    /// The LEB128 value, truncated to the type's width.
    open spec fn spec_decode(s: Seq<u8>) -> DecodeResult<u32> {
        match spec_decode_leb128(s) {
            Ok((w, n)) => Ok((w as u32, n)),
            Err(e) => Err(e),
        }
    }

    open spec fn spec_decode_delimited(len: usize, s: Seq<u8>) -> DecodeResult<u32> {
        Self::spec_decode(s)
    }

    open spec fn spec_fits(v: u32) -> bool {
        true
    }

    fn decode(buf: &mut &[u8]) -> (res: Result<Self, DecodeError>) {
        match decode_leb128_u64(buf) {
            Ok(v) => Ok(#[verifier::truncate] (v as u32)),
            Err(e) => Err(e),
        }
    }

    fn decode_delimited(len: usize, buf: &mut &[u8]) -> (res: Result<Self, DecodeError>) {
        Self::decode(buf)
    }

    proof fn lemma_decode_encode(v: u32, rest: Seq<u8>) {
        lemma_leb128_roundtrip(v as u64, rest);
    }

    proof fn lemma_decode_encode_delimited(v: u32, rest: Seq<u8>) {
        lemma_leb128_roundtrip(v as u64, rest);
    }

    proof fn lemma_fixed_size(v: u32) {
    }

    proof fn lemma_skip_field_value(v: u32, rest: Seq<u8>) {
        lemma_skip_varint(v as u64, rest);
    }
}

impl WireType for u64 {
    const WIRE_TYPE: u8 = wire::VARINT;

    open spec fn spec_fixed_size() -> Option<usize> {
        None
    }

    fn fixed_size() -> (r: Option<usize>) {
        None
    }

    open spec fn spec_encode(v: u64) -> Seq<u8> {
        leb128(v)
    }

    open spec fn spec_encode_delimited(v: u64) -> Seq<u8> {
        Self::spec_encode(v)
    }

    proof fn lemma_fixed_size_positive() {
    }
}

impl Encode for u64 {
    fn encode(&self, buf: &mut Vec<u8>) {
        encode_leb128_u64(*self, buf);
    }

    fn encode_delimited(&self, buf: &mut Vec<u8>) {
        self.encode(buf);
    }
}

impl Decode for u64 {
    /// The LEB128 value, truncated to the type's width.
    open spec fn spec_decode(s: Seq<u8>) -> DecodeResult<u64> {
        match spec_decode_leb128(s) {
            Ok((w, n)) => Ok((w, n)),
            Err(e) => Err(e),
        }
    }

    open spec fn spec_decode_delimited(len: usize, s: Seq<u8>) -> DecodeResult<u64> {
        Self::spec_decode(s)
    }

    open spec fn spec_fits(v: u64) -> bool {
        true
    }

    fn decode(buf: &mut &[u8]) -> (res: Result<Self, DecodeError>) {
        match decode_leb128_u64(buf) {
            Ok(v) => Ok(v),
            Err(e) => Err(e),
        }
    }

    fn decode_delimited(len: usize, buf: &mut &[u8]) -> (res: Result<Self, DecodeError>) {
        Self::decode(buf)
    }

    proof fn lemma_decode_encode(v: u64, rest: Seq<u8>) {
        lemma_leb128_roundtrip(v, rest);
    }

    proof fn lemma_decode_encode_delimited(v: u64, rest: Seq<u8>) {
        lemma_leb128_roundtrip(v, rest);
    }

    proof fn lemma_fixed_size(v: u64) {
    }

    proof fn lemma_skip_field_value(v: u64, rest: Seq<u8>) {
        lemma_skip_varint(v, rest);
    }
}

impl WireType for i16 {
    const WIRE_TYPE: u8 = wire::VARINT;

    open spec fn spec_fixed_size() -> Option<usize> {
        None
    }

    fn fixed_size() -> (r: Option<usize>) {
        None
    }

    /// The LEB128 encoding of the zigzag mapping of the value.
    open spec fn spec_encode(v: i16) -> Seq<u8> {
        leb128(spec_zigzag(v as int) as u64)
    }

    open spec fn spec_encode_delimited(v: i16) -> Seq<u8> {
        Self::spec_encode(v)
    }

    proof fn lemma_fixed_size_positive() {
    }
}

impl Encode for i16 {
    fn encode(&self, buf: &mut Vec<u8>) {
        encode_leb128_u64(zigzag_encode(*self as i64), buf);
    }

    fn encode_delimited(&self, buf: &mut Vec<u8>) {
        self.encode(buf);
    }
}

impl Decode for i16 {
    /// The inverse zigzag mapping of the LEB128 value, truncated to the type's width.
    open spec fn spec_decode(s: Seq<u8>) -> DecodeResult<i16> {
        match spec_decode_leb128(s) {
            Ok((w, n)) => Ok((spec_unzigzag(w as int) as i16, n)),
            Err(e) => Err(e),
        }
    }

    open spec fn spec_decode_delimited(len: usize, s: Seq<u8>) -> DecodeResult<i16> {
        Self::spec_decode(s)
    }

    open spec fn spec_fits(v: i16) -> bool {
        true
    }

    fn decode(buf: &mut &[u8]) -> (res: Result<Self, DecodeError>) {
        match decode_leb128_u64(buf) {
            Ok(v) => Ok(#[verifier::truncate] (zigzag_decode(v) as i16)),
            Err(e) => Err(e),
        }
    }

    fn decode_delimited(len: usize, buf: &mut &[u8]) -> (res: Result<Self, DecodeError>) {
        Self::decode(buf)
    }

    proof fn lemma_decode_encode(v: i16, rest: Seq<u8>) {
        lemma_leb128_roundtrip(spec_zigzag(v as int) as u64, rest);
    }

    proof fn lemma_decode_encode_delimited(v: i16, rest: Seq<u8>) {
        lemma_leb128_roundtrip(spec_zigzag(v as int) as u64, rest);
    }

    proof fn lemma_fixed_size(v: i16) {
    }

    proof fn lemma_skip_field_value(v: i16, rest: Seq<u8>) {
        lemma_skip_varint(spec_zigzag(v as int) as u64, rest);
    }
}

impl WireType for i32 {
    const WIRE_TYPE: u8 = wire::VARINT;

    open spec fn spec_fixed_size() -> Option<usize> {
        None
    }

    fn fixed_size() -> (r: Option<usize>) {
        None
    }

    /// The LEB128 encoding of the zigzag mapping of the value.
    open spec fn spec_encode(v: i32) -> Seq<u8> {
        leb128(spec_zigzag(v as int) as u64)
    }

    open spec fn spec_encode_delimited(v: i32) -> Seq<u8> {
        Self::spec_encode(v)
    }

    proof fn lemma_fixed_size_positive() {
    }
}

impl Encode for i32 {
    fn encode(&self, buf: &mut Vec<u8>) {
        encode_leb128_u64(zigzag_encode(*self as i64), buf);
    }

    fn encode_delimited(&self, buf: &mut Vec<u8>) {
        self.encode(buf);
    }
}

impl Decode for i32 {
    /// The inverse zigzag mapping of the LEB128 value, truncated to the type's width.
    open spec fn spec_decode(s: Seq<u8>) -> DecodeResult<i32> {
        match spec_decode_leb128(s) {
            Ok((w, n)) => Ok((spec_unzigzag(w as int) as i32, n)),
            Err(e) => Err(e),
        }
    }

    open spec fn spec_decode_delimited(len: usize, s: Seq<u8>) -> DecodeResult<i32> {
        Self::spec_decode(s)
    }

    open spec fn spec_fits(v: i32) -> bool {
        true
    }

    fn decode(buf: &mut &[u8]) -> (res: Result<Self, DecodeError>) {
        match decode_leb128_u64(buf) {
            Ok(v) => Ok(#[verifier::truncate] (zigzag_decode(v) as i32)),
            Err(e) => Err(e),
        }
    }

    fn decode_delimited(len: usize, buf: &mut &[u8]) -> (res: Result<Self, DecodeError>) {
        Self::decode(buf)
    }

    proof fn lemma_decode_encode(v: i32, rest: Seq<u8>) {
        lemma_leb128_roundtrip(spec_zigzag(v as int) as u64, rest);
    }

    proof fn lemma_decode_encode_delimited(v: i32, rest: Seq<u8>) {
        lemma_leb128_roundtrip(spec_zigzag(v as int) as u64, rest);
    }

    proof fn lemma_fixed_size(v: i32) {
    }

    proof fn lemma_skip_field_value(v: i32, rest: Seq<u8>) {
        lemma_skip_varint(spec_zigzag(v as int) as u64, rest);
    }
}

impl WireType for i64 {
    const WIRE_TYPE: u8 = wire::VARINT;

    open spec fn spec_fixed_size() -> Option<usize> {
        None
    }

    fn fixed_size() -> (r: Option<usize>) {
        None
    }

    /// The LEB128 encoding of the zigzag mapping of the value.
    open spec fn spec_encode(v: i64) -> Seq<u8> {
        leb128(spec_zigzag(v as int) as u64)
    }

    open spec fn spec_encode_delimited(v: i64) -> Seq<u8> {
        Self::spec_encode(v)
    }

    proof fn lemma_fixed_size_positive() {
    }
}

impl Encode for i64 {
    fn encode(&self, buf: &mut Vec<u8>) {
        encode_leb128_u64(zigzag_encode(*self), buf);
    }

    fn encode_delimited(&self, buf: &mut Vec<u8>) {
        self.encode(buf);
    }
}

impl Decode for i64 {
    /// The inverse zigzag mapping of the LEB128 value, truncated to the type's width.
    open spec fn spec_decode(s: Seq<u8>) -> DecodeResult<i64> {
        match spec_decode_leb128(s) {
            Ok((w, n)) => Ok((spec_unzigzag(w as int) as i64, n)),
            Err(e) => Err(e),
        }
    }

    open spec fn spec_decode_delimited(len: usize, s: Seq<u8>) -> DecodeResult<i64> {
        Self::spec_decode(s)
    }

    open spec fn spec_fits(v: i64) -> bool {
        true
    }

    fn decode(buf: &mut &[u8]) -> (res: Result<Self, DecodeError>) {
        match decode_leb128_u64(buf) {
            Ok(v) => Ok(zigzag_decode(v)),
            Err(e) => Err(e),
        }
    }

    fn decode_delimited(len: usize, buf: &mut &[u8]) -> (res: Result<Self, DecodeError>) {
        Self::decode(buf)
    }

    proof fn lemma_decode_encode(v: i64, rest: Seq<u8>) {
        lemma_leb128_roundtrip(spec_zigzag(v as int) as u64, rest);
    }

    proof fn lemma_decode_encode_delimited(v: i64, rest: Seq<u8>) {
        lemma_leb128_roundtrip(spec_zigzag(v as int) as u64, rest);
    }

    proof fn lemma_fixed_size(v: i64) {
    }

    proof fn lemma_skip_field_value(v: i64, rest: Seq<u8>) {
        lemma_skip_varint(spec_zigzag(v as int) as u64, rest);
    }
}

// ============================================================================
// String
// ============================================================================
/// What reading `len` bytes of UTF-8 text from the start of `s` gives.
pub open spec fn spec_decode_utf8_run(len: usize, s: Seq<u8>) -> DecodeResult<Seq<char>> {
    if s.len() < len {
        Err(DecodeError::UnexpectedEof)
    } else if valid_utf8(s.take(len as int)) {
        Ok((decode_utf8(s.take(len as int)), len as nat))
    } else {
        Err(DecodeError::InvalidUtf8)
    }
}

/// Adds `n` bytes, taken before, to the count of a successful decode.
pub open spec fn after_prefix<V>(n: nat, r: DecodeResult<V>) -> DecodeResult<V> {
    match r {
        Ok((v, m)) => Ok((v, n + m)),
        Err(e) => Err(e),
    }
}

impl WireType for String {
    const WIRE_TYPE: u8 = wire::BYTES;

    open spec fn spec_fixed_size() -> Option<usize> {
        None
    }

    fn fixed_size() -> (r: Option<usize>) {
        None
    }

    /// The byte length in LEB128, then the UTF-8 bytes.
    open spec fn spec_encode(v: Seq<char>) -> Seq<u8> {
        leb128(encode_utf8(v).len() as u64) + encode_utf8(v)
    }

    /// The UTF-8 bytes alone.
    open spec fn spec_encode_delimited(v: Seq<char>) -> Seq<u8> {
        encode_utf8(v)
    }

    proof fn lemma_fixed_size_positive() {
    }
}

impl Encode for String {
    fn encode(&self, buf: &mut Vec<u8>) {
        let bytes = self.as_str().as_bytes();
        encode_leb128_u64(bytes.len() as u64, buf);
        append_bytes(buf, bytes);
    }

    fn encode_delimited(&self, buf: &mut Vec<u8>) {
        let bytes = self.as_str().as_bytes();
        append_bytes(buf, bytes);
    }
}

impl Decode for String {
    /// The byte length in LEB128, then that many bytes of UTF-8.
    open spec fn spec_decode(s: Seq<u8>) -> DecodeResult<Seq<char>> {
        match spec_decode_leb128(s) {
            Ok((len, n)) => after_prefix(n, spec_decode_utf8_run(len as usize, s.skip(n as int))),
            Err(e) => Err(e),
        }
    }

    open spec fn spec_decode_delimited(len: usize, s: Seq<u8>) -> DecodeResult<Seq<char>> {
        spec_decode_utf8_run(len, s)
    }

    open spec fn spec_fits(v: Seq<char>) -> bool {
        encode_utf8(v).len() <= usize::MAX && encode_utf8(v).len() <= u64::MAX
    }

    fn decode(buf: &mut &[u8]) -> (res: Result<Self, DecodeError>) {
        let ghost start = buf@;
        let len = match decode_leb128_u64(buf) {
            Ok(v) => #[verifier::truncate] (v as usize),
            Err(e) => return Err(e),
        };
        let ghost mid = buf@;
        let res = Self::decode_delimited(len, buf);
        assert(mid == start.skip(consumed(start, mid) as int));
        assert(buf@ =~= start.skip(consumed(start, buf@) as int));
        res
    }

    fn decode_delimited(len: usize, buf: &mut &[u8]) -> (res: Result<Self, DecodeError>) {
        if buf.len() < len {
            assert(buf@ =~= buf@.skip(0));
            return Err(DecodeError::UnexpectedEof);
        }
        let bytes = vstd::slice::slice_to_vec(&buf[0..len]);
        *buf = &buf[len..buf.len()];
        assert(bytes@ =~= old(buf)@.take(len as int));
        assert(buf@ =~= old(buf)@.skip(len as int));
        match string_from_utf8(bytes) {
            Some(s) => Ok(s),
            None => Err(DecodeError::InvalidUtf8),
        }
    }

    proof fn lemma_decode_encode(v: Seq<char>, rest: Seq<u8>) {
        let e = encode_utf8(v);
        let l = e.len() as u64;
        lemma_leb128_roundtrip(l, e + rest);
        assert(leb128(l) + e + rest =~= leb128(l) + (e + rest));
        assert((leb128(l) + (e + rest)).skip(leb128(l).len() as int) =~= e + rest);
        assert((e + rest).take(e.len() as int) =~= e);
        encode_utf8_valid_utf8(v);
        encode_utf8_decode_utf8(v);
    }

    proof fn lemma_decode_encode_delimited(v: Seq<char>, rest: Seq<u8>) {
        let e = encode_utf8(v);
        assert((e + rest).take(e.len() as int) =~= e);
        encode_utf8_valid_utf8(v);
        encode_utf8_decode_utf8(v);
    }

    proof fn lemma_fixed_size(v: Seq<char>) {
    }

    proof fn lemma_skip_field_value(v: Seq<char>, rest: Seq<u8>) {
        Self::lemma_decode_encode_delimited(v, rest);
        lemma_skip_bytes(Self::spec_encode_delimited(v), rest);
    }
}

// ============================================================================
// Vec (Array)
// ============================================================================
/// The encodings of the values one after another.
pub open spec fn encode_all<T: WireType>(vs: Seq<<T as DeepView>::V>) -> Seq<u8>
    decreases vs.len(),
{
    if vs.len() == 0 {
        Seq::empty()
    } else {
        encode_all::<T>(vs.drop_last()) + T::spec_encode(vs.last())
    }
}

/// What decoding `count` values one after another from the start of `s` gives.
pub open spec fn decode_count<T: Decode>(count: nat, s: Seq<u8>) -> DecodeResult<
    Seq<<T as DeepView>::V>,
>
    decreases count,
{
    if count == 0 {
        Ok((Seq::empty(), 0))
    } else {
        match decode_count::<T>((count - 1) as nat, s) {
            Ok((vs, m)) => match T::spec_decode(s.skip(m as int)) {
                Ok((v, n)) => Ok((vs.push(v), m + n)),
                Err(e) => Err(e),
            },
            Err(e) => Err(e),
        }
    }
}

/// A successful decode of content whose length `len` was given takes exactly `len` bytes.
pub open spec fn with_length<V>(len: usize, r: DecodeResult<V>) -> DecodeResult<V> {
    match r {
        Ok((v, _)) => Ok((v, len as nat)),
        Err(e) => Err(e),
    }
}

proof fn lemma_decode_count_error_persists<T: Decode>(k: nat, count: nat, s: Seq<u8>)
    requires
        k <= count,
        decode_count::<T>(k, s) is Err,
    ensures
        decode_count::<T>(count, s) == decode_count::<T>(k, s),
    decreases count,
{
    if k < count {
        lemma_decode_count_error_persists::<T>(k, (count - 1) as nat, s);
    }
}

proof fn lemma_decode_count_encode_all<T: Decode>(vs: Seq<<T as DeepView>::V>, rest: Seq<u8>)
    requires
        forall|i: int| 0 <= i < vs.len() ==> T::spec_fits(#[trigger] vs[i]),
    ensures
        decode_count::<T>(vs.len(), encode_all::<T>(vs) + rest) == Ok::<
            (Seq<<T as DeepView>::V>, nat),
            DecodeError,
        >((vs, encode_all::<T>(vs).len())),
    decreases vs.len(),
{
    if vs.len() == 0 {
        assert(vs =~= Seq::<<T as DeepView>::V>::empty());
    } else {
        let init = vs.drop_last();
        let last = vs.last();
        let tail = T::spec_encode(last) + rest;
        assert forall|i: int| 0 <= i < init.len() implies T::spec_fits(#[trigger] init[i]) by {
            assert(init[i] == vs[i]);
        }
        lemma_decode_count_encode_all::<T>(init, tail);
        assert(encode_all::<T>(vs) + rest =~= encode_all::<T>(init) + tail);
        assert((encode_all::<T>(init) + tail).skip(encode_all::<T>(init).len() as int) =~= tail);
        assert(T::spec_fits(vs[vs.len() - 1]));
        T::lemma_decode_encode(last, rest);
        assert(init.push(last) =~= vs);
    }
}

proof fn lemma_encode_all_fixed<T: Decode>(vs: Seq<<T as DeepView>::V>, size: usize)
    requires
        T::spec_fixed_size() == Some(size),
    ensures
        encode_all::<T>(vs).len() == vs.len() * size,
    decreases vs.len(),
{
    if vs.len() > 0 {
        lemma_encode_all_fixed::<T>(vs.drop_last(), size);
        T::lemma_fixed_size(vs.last());
        assert(vs.len() * size == (vs.len() - 1) * size + size) by (nonlinear_arith);
    }
}

proof fn lemma_encode_all_prefix<T: WireType>(vs: Seq<<T as DeepView>::V>, i: int)
    requires
        0 <= i < vs.len(),
    ensures
        encode_all::<T>(vs.take(i + 1)) == encode_all::<T>(vs.take(i)) + T::spec_encode(vs[i]),
{
    assert(vs.take(i + 1).drop_last() =~= vs.take(i));
}

/// Encodes every element of `v` in order.
fn encode_elements<T: Encode>(v: &Vec<T>, buf: &mut Vec<u8>)
    ensures
        final(buf)@ == old(buf)@ + encode_all::<T>(v.deep_view()),
{
    let mut i: usize = 0;
    while i < v.len()
        invariant
            i <= v.len(),
            buf@ == old(buf)@ + encode_all::<T>(v.deep_view().take(i as int)),
        decreases v.len() - i,
    {
        proof {
            lemma_encode_all_prefix::<T>(v.deep_view(), i as int);
        }
        v[i].encode(buf);
        i = i + 1;
    }
    assert(v.deep_view().take(v.len() as int) =~= v.deep_view());
}

/// Decodes `count` values one after another.
fn decode_elements<T: Decode>(count: usize, buf: &mut &[u8]) -> (res: Result<Vec<T>, DecodeError>)
    ensures
        is_suffix_of(final(buf)@, old(buf)@),
        res matches Ok(v) ==> decode_count::<T>(count as nat, old(buf)@) == Ok::<
            (Seq<<T as DeepView>::V>, nat),
            DecodeError,
        >((v.deep_view(), consumed(old(buf)@, final(buf)@))),
        res matches Err(e) ==> decode_count::<T>(count as nat, old(buf)@) == Err::<
            (Seq<<T as DeepView>::V>, nat),
            DecodeError,
        >(e),
{
    let ghost s = buf@;
    let mut result: Vec<T> = Vec::new();
    let mut i: usize = 0;
    assert(buf@ =~= s.skip(0));
    assert(result.deep_view() =~= Seq::<<T as DeepView>::V>::empty());
    while i < count
        invariant
            s == old(buf)@,
            i <= count,
            is_suffix_of(buf@, s),
            decode_count::<T>(i as nat, s) == Ok::<(Seq<<T as DeepView>::V>, nat), DecodeError>(
                (result.deep_view(), consumed(s, buf@)),
            ),
        decreases count - i,
    {
        let ghost before = buf@;
        let ghost old_dv = result.deep_view();
        assert(before == s.skip(consumed(s, before) as int));
        match T::decode(buf) {
            Ok(x) => {
                result.push(x);
                assert(result.deep_view() =~= old_dv.push(x.deep_view()));
                assert(buf@ =~= s.skip(consumed(s, buf@) as int));
            },
            Err(e) => {
                proof {
                    lemma_decode_count_error_persists::<T>((i + 1) as nat, count as nat, s);
                    assert(buf@ =~= s.skip(consumed(s, buf@) as int));
                }
                return Err(e);
            },
        }
        i = i + 1;
    }
    Ok(result)
}

impl<T: WireType> WireType for Vec<T> {
    const WIRE_TYPE: u8 = wire::BYTES;

    open spec fn spec_fixed_size() -> Option<usize> {
        None
    }

    fn fixed_size() -> (r: Option<usize>) {
        None
    }

    /// The count in LEB128, then the elements.
    open spec fn spec_encode(v: Seq<<T as DeepView>::V>) -> Seq<u8> {
        leb128(v.len() as u64) + encode_all::<T>(v)
    }

    /// Fixed-size elements alone (their count follows from the byte length); otherwise the
    /// count, then the elements.
    open spec fn spec_encode_delimited(v: Seq<<T as DeepView>::V>) -> Seq<u8> {
        if T::spec_fixed_size() is Some {
            encode_all::<T>(v)
        } else {
            Self::spec_encode(v)
        }
    }

    proof fn lemma_fixed_size_positive() {
    }
}

impl<T: Encode> Encode for Vec<T> {
    fn encode(&self, buf: &mut Vec<u8>) {
        encode_leb128_u64(self.len() as u64, buf);
        encode_elements(self, buf);
    }

    fn encode_delimited(&self, buf: &mut Vec<u8>) {
        if T::fixed_size().is_some() {
            encode_elements(self, buf);
        } else {
            encode_leb128_u64(self.len() as u64, buf);
            encode_elements(self, buf);
        }
    }
}

impl<T: Decode> Decode for Vec<T> {
    /// The count in LEB128, then that many elements.
    open spec fn spec_decode(s: Seq<u8>) -> DecodeResult<Seq<<T as DeepView>::V>> {
        match spec_decode_leb128(s) {
            Ok((c, n)) => after_prefix(n, decode_count::<T>((c as usize) as nat, s.skip(n as int))),
            Err(e) => Err(e),
        }
    }

    /// Within the `len` bytes: for fixed-size elements, `len / size` elements (`len` must be a
    /// multiple of the size); otherwise a count in LEB128 and that many elements.
    open spec fn spec_decode_delimited(len: usize, s: Seq<u8>) -> DecodeResult<
        Seq<<T as DeepView>::V>,
    > {
        if s.len() < len {
            Err(DecodeError::UnexpectedEof)
        } else {
            let t = s.take(len as int);
            match T::spec_fixed_size() {
                Some(size) => if len % size != 0 {
                    Err(DecodeError::InvalidLength)
                } else {
                    with_length(len, decode_count::<T>((len / size) as nat, t))
                },
                None => match spec_decode_leb128(t) {
                    Ok((c, n)) => with_length(
                        len,
                        decode_count::<T>((c as usize) as nat, t.skip(n as int)),
                    ),
                    Err(e) => Err(e),
                },
            }
        }
    }

    open spec fn spec_fits(v: Seq<<T as DeepView>::V>) -> bool {
        &&& v.len() <= usize::MAX
        &&& Self::spec_encode(v).len() <= usize::MAX
        &&& forall|i: int| 0 <= i < v.len() ==> T::spec_fits(#[trigger] v[i])
    }

    fn decode(buf: &mut &[u8]) -> (res: Result<Self, DecodeError>) {
        let ghost start = buf@;
        let count = match decode_leb128_u64(buf) {
            Ok(v) => #[verifier::truncate] (v as usize),
            Err(e) => return Err(e),
        };
        let ghost mid = buf@;
        assert(mid == start.skip(consumed(start, mid) as int));
        let res = decode_elements::<T>(count, buf);
        assert(buf@ =~= start.skip(consumed(start, buf@) as int));
        res
    }

    /// Nothing is taken from `buf` unless a whole array is read.
    fn decode_delimited(len: usize, buf: &mut &[u8]) -> (res: Result<Self, DecodeError>)
        ensures
            res is Err ==> final(buf)@ == old(buf)@,
    {
        if buf.len() < len {
            assert(buf@ =~= buf@.skip(0));
            return Err(DecodeError::UnexpectedEof);
        }
        let mut slice: &[u8] = &buf[0..len];
        let ghost t = slice@;
        assert(t =~= old(buf)@.take(len as int));
        let result = match T::fixed_size() {
            Some(elem_size) => {
                proof {
                    T::lemma_fixed_size_positive();
                }
                if len % elem_size != 0 {
                    assert(buf@ =~= buf@.skip(0));
                    return Err(DecodeError::InvalidLength);
                }
                let count = len / elem_size;
                match decode_elements::<T>(count, &mut slice) {
                    Ok(v) => v,
                    Err(e) => {
                        assert(buf@ =~= buf@.skip(0));
                        return Err(e);
                    },
                }
            },
            None => {
                let count = match decode_leb128_u64(&mut slice) {
                    Ok(c) => #[verifier::truncate] (c as usize),
                    Err(e) => {
                        assert(buf@ =~= buf@.skip(0));
                        return Err(e);
                    },
                };
                match decode_elements::<T>(count, &mut slice) {
                    Ok(v) => v,
                    Err(e) => {
                        assert(buf@ =~= buf@.skip(0));
                        return Err(e);
                    },
                }
            },
        };
        *buf = &buf[len..buf.len()];
        assert(buf@ =~= old(buf)@.skip(len as int));
        Ok(result)
    }

    proof fn lemma_decode_encode(v: Seq<<T as DeepView>::V>, rest: Seq<u8>) {
        let l = v.len() as u64;
        let e = encode_all::<T>(v);
        lemma_leb128_roundtrip(l, e + rest);
        assert(leb128(l) + e + rest =~= leb128(l) + (e + rest));
        assert((leb128(l) + (e + rest)).skip(leb128(l).len() as int) =~= e + rest);
        lemma_decode_count_encode_all::<T>(v, rest);
    }

    proof fn lemma_decode_encode_delimited(v: Seq<<T as DeepView>::V>, rest: Seq<u8>) {
        let e = encode_all::<T>(v);
        let d = Self::spec_encode_delimited(v);
        assert((d + rest).take(d.len() as int) =~= d);
        lemma_decode_count_encode_all::<T>(v, Seq::empty());
        assert(e + Seq::<u8>::empty() =~= e);
        match T::spec_fixed_size() {
            Some(size) => {
                T::lemma_fixed_size_positive();
                lemma_encode_all_fixed::<T>(v, size);
                assert((v.len() * size) % (size as int) == 0) by (nonlinear_arith)
                    requires size > 0;
                assert((v.len() * size) / (size as int) == v.len()) by (nonlinear_arith)
                    requires size > 0;
            },
            None => {
                let l = v.len() as u64;
                lemma_leb128_roundtrip(l, e);
                assert(d.skip(leb128(l).len() as int) =~= e);
            },
        }
    }

    proof fn lemma_fixed_size(v: Seq<<T as DeepView>::V>) {
    }

    proof fn lemma_skip_field_value(v: Seq<<T as DeepView>::V>, rest: Seq<u8>) {
        Self::lemma_decode_encode_delimited(v, rest);
        lemma_skip_bytes(Self::spec_encode_delimited(v), rest);
    }
}

// ============================================================================
// Option (for struct optional fields)
// ============================================================================
// Option doesn't have a real wire type - it inherits from the inner type.
// This is only used for struct optional fields, whose presence is encoded separately.
impl<T: WireType> WireType for Option<T> {
    const WIRE_TYPE: u8 = T::WIRE_TYPE;

    open spec fn spec_fixed_size() -> Option<usize> {
        T::spec_fixed_size()
    }

    fn fixed_size() -> (r: Option<usize>) {
        T::fixed_size()
    }

    /// The inner value's encoding when present, nothing when absent.
    open spec fn spec_encode(v: Option<<T as DeepView>::V>) -> Seq<u8> {
        match v {
            Some(x) => T::spec_encode(x),
            None => Seq::empty(),
        }
    }

    open spec fn spec_encode_delimited(v: Option<<T as DeepView>::V>) -> Seq<u8> {
        Self::spec_encode(v)
    }

    proof fn lemma_fixed_size_positive() {
        T::lemma_fixed_size_positive();
    }
}

impl<T: Encode> Encode for Option<T> {
    fn encode(&self, buf: &mut Vec<u8>) {
        if let Some(v) = self {
            v.encode(buf);
        } else {
            assert(buf@ =~= old(buf)@ + Seq::<u8>::empty());
        }
    }

    fn encode_delimited(&self, buf: &mut Vec<u8>) {
        self.encode(buf);
    }
}

// ============================================================================
// Wire types
// ============================================================================
/// The wire type of each type, as the wire format's table gives it: FIXED8 for `bool`, `u8`
/// and `i8`; VARINT for the other integers; BYTES for strings and arrays; an optional value
/// has the wire type of its value.
pub proof fn lemma_wire_types<T: WireType>()
    ensures
        <bool as WireType>::WIRE_TYPE == wire::FIXED8,
        <u8 as WireType>::WIRE_TYPE == wire::FIXED8,
        <i8 as WireType>::WIRE_TYPE == wire::FIXED8,
        <u16 as WireType>::WIRE_TYPE == wire::VARINT,
        <u32 as WireType>::WIRE_TYPE == wire::VARINT,
        <u64 as WireType>::WIRE_TYPE == wire::VARINT,
        <i16 as WireType>::WIRE_TYPE == wire::VARINT,
        <i32 as WireType>::WIRE_TYPE == wire::VARINT,
        <i64 as WireType>::WIRE_TYPE == wire::VARINT,
        <String as WireType>::WIRE_TYPE == wire::BYTES,
        <Vec<T> as WireType>::WIRE_TYPE == wire::BYTES,
        <Option<T> as WireType>::WIRE_TYPE == T::WIRE_TYPE,
{
}

} // verus!
