//! Message and union fields: tags, tagged values, skipping unknown fields, and the
//! presence bits of structs with optional fields.
use vstd::prelude::*;

use crate::codec::{after_prefix, Decode, DecodeResult, Encode, WireType, append_bytes};
use crate::error::DecodeError;
use crate::leb128::{
    consumed, decode_leb128_u64, encode_leb128_u64, is_suffix_of, leb128, leb_error_consumed, leb_extent,
    lemma_leb128_roundtrip, spec_decode_leb128,
};
use crate::wire;

verus! {

// ============================================================================
// Tags
// ============================================================================
/// A field tag: the index in the high bits, the wire type in the low three, `(index << 3) | wire_type`.
pub open spec fn spec_tag(index: u32, wire_type: u8) -> u64 {
    ((index as u64) << 3u64) | (wire_type as u64)
}

/// What decoding a tag gives: `None` for the terminator (a zero tag), else the index and
/// the wire type.
pub open spec fn spec_decode_tag(s: Seq<u8>) -> DecodeResult<Option<(u32, u8)>> {
    match spec_decode_leb128(s) {
        Ok((t, n)) => if t == 0 {
            Ok((None, n))
        } else {
            Ok((Some(((t >> 3u64) as u32, (t & 7u64) as u8)), n))
        },
        Err(e) => Err(e),
    }
}

/// How many bytes reading a LEB128 integer from the front of `s` takes, whether or not it
/// can be read.
pub open spec fn leb_taken(s: Seq<u8>) -> nat {
    match spec_decode_leb128(s) {
        Ok((_, n)) => n,
        Err(e) => leb_error_consumed(s, e),
    }
}

/// Encode a message field tag (index and wire type).
pub fn encode_tag(index: u32, wire_type: u8, buf: &mut Vec<u8>)
    ensures
        final(buf)@ == old(buf)@ + leb128(spec_tag(index, wire_type)),
{
    let tag = ((index as u64) << 3) | (wire_type as u64);
    encode_leb128_u64(tag, buf);
}

/// Decode a message field tag, returning (index, wire_type), or None if terminator.
pub fn decode_tag(buf: &mut &[u8]) -> (res: Result<Option<(u32, u8)>, DecodeError>)
    ensures
        is_suffix_of(final(buf)@, old(buf)@),
        res matches Ok(t) ==> spec_decode_tag(old(buf)@) == Ok::<
            (Option<(u32, u8)>, nat),
            DecodeError,
        >((t, consumed(old(buf)@, final(buf)@))),
        res matches Err(e) ==> spec_decode_tag(old(buf)@) == Err::<
            (Option<(u32, u8)>, nat),
            DecodeError,
        >(e),
        res is Ok ==> 1 <= consumed(old(buf)@, final(buf)@),
        final(buf)@ == old(buf)@.skip(leb_taken(old(buf)@) as int),
{
    let ghost s = buf@;
    let tag = match decode_leb128_u64(buf) {
        Ok(t) => t,
        Err(e) => return Err(e),
    };
    assert(buf@ =~= s.skip(consumed(s, buf@) as int));
    if tag == 0 {
        return Ok(None);
    }
    let wire_type = (tag & 0x7) as u8;
    let index = (tag >> 3) as u32;
    Ok(Some((index, wire_type)))
}

/// Decoding the tag of a field with index at least 1 and a wire type below 8 gives back the
/// index and the wire type; the encoding of zero is the message terminator.
pub proof fn lemma_tag_roundtrip(index: u32, wire_type: u8, rest: Seq<u8>)
    requires
        wire_type < 8,
    ensures
        index >= 1 ==> spec_decode_tag(leb128(spec_tag(index, wire_type)) + rest) == Ok::<
            (Option<(u32, u8)>, nat),
            DecodeError,
        >((Some((index, wire_type)), leb128(spec_tag(index, wire_type)).len())),
        spec_decode_tag(leb128(0) + rest) == Ok::<(Option<(u32, u8)>, nat), DecodeError>(
            (None, 1),
        ),
{
    let t = spec_tag(index, wire_type);
    lemma_leb128_roundtrip(t, rest);
    lemma_leb128_roundtrip(0, rest);
    assert(leb128(0) == seq![0u8]);
    let i = index as u64;
    let w = wire_type as u64;
    assert(w < 8 && i <= 0xffff_ffff ==> ((((i << 3u64) | w) >> 3u64) == i && (((i << 3u64) | w)
        & 7u64) == w && (i >= 1 ==> ((i << 3u64) | w) != 0))) by (bit_vector);
}

// ============================================================================
// Tagged fields
// ============================================================================
/// The value part of a field: for the BYTES wire type, the byte length in LEB128 and the
/// delimited encoding; otherwise the self-describing encoding.
pub open spec fn spec_field_value<T: WireType>(v: <T as DeepView>::V) -> Seq<u8> {
    if T::WIRE_TYPE == wire::BYTES {
        leb128(T::spec_encode_delimited(v).len() as u64) + T::spec_encode_delimited(v)
    } else {
        T::spec_encode(v)
    }
}

/// What decoding the value part of a field of type `T` gives.
pub open spec fn spec_decode_field<T: Decode>(s: Seq<u8>) -> DecodeResult<<T as DeepView>::V> {
    if T::WIRE_TYPE == wire::BYTES {
        match spec_decode_leb128(s) {
            Ok((len, n)) => after_prefix(
                n,
                T::spec_decode_delimited(len as usize, s.skip(n as int)),
            ),
            Err(e) => Err(e),
        }
    } else {
        T::spec_decode(s)
    }
}

/// Encode a tagged field value (used for message fields and union variants).
/// Gets the wire type from T::WIRE_TYPE.
pub fn encode_field<T: Encode>(index: u32, value: &T, buf: &mut Vec<u8>)
    ensures
        final(buf)@ == old(buf)@ + leb128(spec_tag(index, T::WIRE_TYPE)) + spec_field_value::<T>(
            value.deep_view(),
        ),
{
    let wire_type = T::WIRE_TYPE;
    encode_tag(index, wire_type, buf);
    if wire_type == wire::BYTES {
        // Write length prefix, then delimited content
        let ghost head = buf@;
        let start = buf.len();
        buf.push(0);  // placeholder for length
        value.encode_delimited(buf);
        let ghost d = T::spec_encode_delimited(value.deep_view());
        assert(buf@ == head + seq![0u8] + d);
        let data_len = buf.len() - start - 1;
        assert(data_len == d.len());
        if data_len < 128 {
            buf.set(start, data_len as u8);
            assert(leb128(data_len as u64) == seq![data_len as u8]);
            assert(buf@ =~= head + leb128(data_len as u64) + d);
        } else {
            let data = vstd::slice::slice_to_vec(&buf.as_slice()[start + 1..buf.len()]);
            assert(data@ =~= d);
            buf.truncate(start);
            assert(buf@ =~= head);
            encode_leb128_u64(data_len as u64, buf);
            append_bytes(buf, data.as_slice());
        }
    } else {
        value.encode(buf);
    }
}

/// Encode a message terminator.
pub fn encode_message_end(buf: &mut Vec<u8>)
    ensures
        final(buf)@ == old(buf)@ + leb128(0),
{
    buf.push(0);
    assert(leb128(0) == seq![0u8]);
}

/// Decode a tagged field value (used for message fields and union variants).
/// Uses decode_delimited for BYTES wire type.
pub fn decode_field<T: Decode>(buf: &mut &[u8]) -> (res: Result<T, DecodeError>)
    ensures
        is_suffix_of(final(buf)@, old(buf)@),
        res matches Ok(v) ==> spec_decode_field::<T>(old(buf)@) == Ok::<
            (<T as DeepView>::V, nat),
            DecodeError,
        >((v.deep_view(), consumed(old(buf)@, final(buf)@))),
        res matches Err(e) ==> spec_decode_field::<T>(old(buf)@) == Err::<
            (<T as DeepView>::V, nat),
            DecodeError,
        >(e),
{
    if T::WIRE_TYPE == wire::BYTES {
        // Read length prefix, then decode delimited content
        let ghost start = buf@;
        let len = match decode_leb128_u64(buf) {
            Ok(l) => #[verifier::truncate] (l as usize),
            Err(e) => return Err(e),
        };
        let ghost mid = buf@;
        assert(mid == start.skip(consumed(start, mid) as int));
        let res = T::decode_delimited(len, buf);
        assert(buf@ =~= start.skip(consumed(start, buf@) as int));
        res
    } else {
        T::decode(buf)
    }
}

/// Decoding the value part of an encoded field gives the value back and consumes exactly
/// that part.
pub proof fn lemma_field_roundtrip<T: Decode>(v: <T as DeepView>::V, rest: Seq<u8>)
    requires
        T::spec_fits(v),
    ensures
        spec_decode_field::<T>(spec_field_value::<T>(v) + rest) == Ok::<
            (<T as DeepView>::V, nat),
            DecodeError,
        >((v, spec_field_value::<T>(v).len())),
{
    if T::WIRE_TYPE == wire::BYTES {
        let d = T::spec_encode_delimited(v);
        T::lemma_decode_encode_delimited(v, rest);
        let l = d.len() as u64;
        lemma_leb128_roundtrip(l, d + rest);
        assert(leb128(l) + d + rest =~= leb128(l) + (d + rest));
        assert((leb128(l) + (d + rest)).skip(leb128(l).len() as int) =~= d + rest);
    } else {
        T::lemma_decode_encode(v, rest);
    }
}

// ============================================================================
// Skipping values by wire type
// ============================================================================
/// `s` without its first `n` bytes (empty when `n` is larger than `s`).
pub open spec fn drop_bytes(s: Seq<u8>, n: nat) -> Seq<u8> {
    if n <= s.len() {
        s.skip(n as int)
    } else {
        Seq::empty()
    }
}

proof fn lemma_leb_extent_bounds(s: Seq<u8>, i: nat)
    ensures
        leb_extent(s, i) matches Ok(n) ==> i < n <= s.len(),
        leb_extent(s, i) == Err::<nat, DecodeError>(DecodeError::Leb128Overflow) ==> s.len() >= 11,
    decreases 10 - i,
{
    if i < s.len() && i < 10 && s[i as int] >= 128 {
        lemma_leb_extent_bounds(s, i + 1);
    }
}

/// A decoded LEB128 integer takes at least one byte and no more than there are.
pub proof fn lemma_leb_decode_bounds(s: Seq<u8>)
    ensures
        spec_decode_leb128(s) matches Ok((_, n)) ==> 1 <= n <= s.len(),
{
    lemma_leb_extent_bounds(s, 0);
}

/// How many bytes skipping a value of the given wire type takes, or why it cannot be skipped.
pub open spec fn spec_skip(wire_type: u8, s: Seq<u8>) -> Result<nat, DecodeError>
    decreases s.len(), 1nat,
{
    if wire_type == wire::FIXED8 {
        if s.len() < 1 {
            Err(DecodeError::UnexpectedEof)
        } else {
            Ok(1)
        }
    } else if wire_type == wire::VARINT {
        match spec_decode_leb128(s) {
            Ok((_, n)) => Ok(n),
            Err(e) => Err(e),
        }
    } else if wire_type == wire::FIXED32 {
        if s.len() < 4 {
            Err(DecodeError::UnexpectedEof)
        } else {
            Ok(4)
        }
    } else if wire_type == wire::FIXED64 {
        if s.len() < 8 {
            Err(DecodeError::UnexpectedEof)
        } else {
            Ok(8)
        }
    } else if wire_type == wire::BYTES {
        match spec_decode_leb128(s) {
            Ok((len, n)) => if s.len() - n < len as usize {
                Err(DecodeError::UnexpectedEof)
            } else {
                Ok(n + (len as usize) as nat)
            },
            Err(e) => Err(e),
        }
    } else if wire_type == wire::MESSAGE {
        spec_skip_fields(s)
    } else if wire_type == wire::UNION {
        match spec_decode_leb128(s) {
            Ok((tag, n)) => {
                proof {
                    lemma_leb_decode_bounds(s);
                }
                match spec_skip((tag & 7u64) as u8, drop_bytes(s, n)) {
                    Ok(m) => Ok(n + m),
                    Err(e) => Err(e),
                }
            },
            Err(e) => Err(e),
        }
    } else if wire_type == wire::UNIT {
        Ok(0)
    } else {
        Err(DecodeError::InvalidWireType(wire_type))
    }
}

/// How many bytes skipping message fields up to and including the terminator takes.
pub open spec fn spec_skip_fields(s: Seq<u8>) -> Result<nat, DecodeError>
    decreases s.len(), 0nat,
{
    match spec_decode_tag(s) {
        Err(e) => Err(e),
        Ok((None, n)) => Ok(n),
        Ok((Some((_, wt)), n)) => {
            proof {
                lemma_leb_decode_bounds(s);
            }
            match spec_skip(wt, drop_bytes(s, n)) {
                Ok(m) => match spec_skip_fields(drop_bytes(s, n + m)) {
                    Ok(k) => Ok(n + m + k),
                    Err(e) => Err(e),
                },
                Err(e) => Err(e),
            }
        },
    }
}

/// A value of wire type FIXED8, one byte, is skipped exactly.
pub proof fn lemma_skip_fixed8(b: u8, rest: Seq<u8>)
    ensures
        spec_skip(wire::FIXED8, seq![b] + rest) == Ok::<nat, DecodeError>(1),
{
}

/// A LEB128 integer is skipped exactly as a VARINT.
pub proof fn lemma_skip_varint(x: u64, rest: Seq<u8>)
    ensures
        spec_skip(wire::VARINT, leb128(x) + rest) == Ok::<nat, DecodeError>(leb128(x).len()),
{
    lemma_leb128_roundtrip(x, rest);
}

/// Length-prefixed bytes are skipped exactly as BYTES.
pub proof fn lemma_skip_bytes(d: Seq<u8>, rest: Seq<u8>)
    requires
        d.len() <= usize::MAX,
    ensures
        spec_skip(wire::BYTES, leb128(d.len() as u64) + d + rest) == Ok::<nat, DecodeError>(
            (leb128(d.len() as u64) + d).len(),
        ),
{
    let l = d.len() as u64;
    lemma_leb128_roundtrip(l, d + rest);
    assert(leb128(l) + d + rest =~= leb128(l) + (d + rest));
}

/// A decoder that does not know a field skips it whole: the field's tag gives back its index
/// and wire type, and skipping by that wire type takes exactly the rest of the field, so that
/// decoding goes on at what follows it.
pub proof fn law_unknown_field_skipped<T: Decode>(index: u32, v: <T as DeepView>::V, rest: Seq<u8>)
    requires
        index >= 1,
        T::WIRE_TYPE < 8,
        T::spec_fits(v),
    ensures
        ({
            let tag = leb128(spec_tag(index, T::WIRE_TYPE));
            let value = spec_field_value::<T>(v);
            &&& spec_decode_tag(tag + value + rest) == Ok::<(Option<(u32, u8)>, nat), DecodeError>(
                (Some((index, T::WIRE_TYPE)), tag.len()),
            )
            &&& spec_skip(T::WIRE_TYPE, (tag + value + rest).skip(tag.len() as int)) == Ok::<
                nat,
                DecodeError,
            >(value.len())
        }),
{
    let tag = leb128(spec_tag(index, T::WIRE_TYPE));
    let value = spec_field_value::<T>(v);
    lemma_tag_roundtrip(index, T::WIRE_TYPE, value + rest);
    assert(tag + value + rest =~= tag + (value + rest));
    assert((tag + value + rest).skip(tag.len() as int) =~= value + rest);
    T::lemma_skip_field_value(v, rest);
}

/// How many bytes skipping a value of the given wire type takes from the front of `s`,
/// whether the skip succeeds or fails; a value that is cut short is taken up to where the
/// skip finds out.
pub open spec fn skip_taken(wire_type: u8, s: Seq<u8>) -> nat
    decreases s.len(), 1nat,
{
    if wire_type == wire::FIXED8 {
        if s.len() < 1 {
            0
        } else {
            1
        }
    } else if wire_type == wire::VARINT {
        leb_taken(s)
    } else if wire_type == wire::FIXED32 {
        if s.len() < 4 {
            0
        } else {
            4
        }
    } else if wire_type == wire::FIXED64 {
        if s.len() < 8 {
            0
        } else {
            8
        }
    } else if wire_type == wire::BYTES {
        match spec_decode_leb128(s) {
            Ok((len, n)) => if s.len() - n < len as usize {
                n
            } else {
                n + (len as usize) as nat
            },
            Err(e) => leb_error_consumed(s, e),
        }
    } else if wire_type == wire::MESSAGE {
        fields_taken(s)
    } else if wire_type == wire::UNION {
        match spec_decode_leb128(s) {
            Ok((tag, n)) => {
                proof {
                    lemma_leb_decode_bounds(s);
                }
                n + skip_taken((tag & 7u64) as u8, drop_bytes(s, n))
            },
            Err(e) => leb_error_consumed(s, e),
        }
    } else {
        0
    }
}

/// How many bytes skipping message fields up to the terminator takes from the front of `s`,
/// whether the skip succeeds or fails.
pub open spec fn fields_taken(s: Seq<u8>) -> nat
    decreases s.len(), 0nat,
{
    match spec_decode_tag(s) {
        Err(_) => leb_taken(s),
        Ok((None, n)) => n,
        Ok((Some((_, wt)), n)) => {
            proof {
                lemma_leb_decode_bounds(s);
            }
            match spec_skip(wt, drop_bytes(s, n)) {
                Ok(m) => n + m + fields_taken(drop_bytes(s, n + m)),
                Err(_) => n + skip_taken(wt, drop_bytes(s, n)),
            }
        },
    }
}

/// Reading a LEB128 integer takes no more bytes than there are.
proof fn lemma_leb_taken_bound(s: Seq<u8>)
    ensures
        leb_taken(s) <= s.len(),
{
    lemma_leb_extent_bounds(s, 0);
}

/// Skipping takes no more bytes than there are.
proof fn lemma_skip_taken_bound(wire_type: u8, s: Seq<u8>)
    ensures
        skip_taken(wire_type, s) <= s.len(),
    decreases s.len(), 1nat,
{
    lemma_leb_taken_bound(s);
    lemma_leb_decode_bounds(s);
    if wire_type == wire::MESSAGE {
        lemma_fields_taken_bound(s);
    } else if wire_type == wire::UNION {
        if let Ok((tag, n)) = spec_decode_leb128(s) {
            lemma_skip_taken_bound((tag & 7u64) as u8, drop_bytes(s, n));
        }
    }
}

/// Skipping fields takes no more bytes than there are.
proof fn lemma_fields_taken_bound(s: Seq<u8>)
    ensures
        fields_taken(s) <= s.len(),
    decreases s.len(), 0nat,
{
    lemma_leb_taken_bound(s);
    lemma_leb_decode_bounds(s);
    if let Ok((Some((_, wt)), n)) = spec_decode_tag(s) {
        match spec_skip(wt, drop_bytes(s, n)) {
            Ok(m) => {
                lemma_skip_taken_bound(wt, drop_bytes(s, n));
                lemma_skip_consumed_bound(wt, drop_bytes(s, n));
                lemma_fields_taken_bound(drop_bytes(s, n + m));
            },
            Err(_) => {
                lemma_skip_taken_bound(wt, drop_bytes(s, n));
            },
        }
    }
}

/// A successful skip takes no more bytes than there are.
proof fn lemma_skip_consumed_bound(wire_type: u8, s: Seq<u8>)
    ensures
        spec_skip(wire_type, s) matches Ok(m) ==> m <= s.len(),
    decreases s.len(), 1nat,
{
    lemma_leb_decode_bounds(s);
    if wire_type == wire::MESSAGE {
        lemma_skip_fields_consumed_bound(s);
    } else if wire_type == wire::UNION {
        if let Ok((tag, n)) = spec_decode_leb128(s) {
            lemma_skip_consumed_bound((tag & 7u64) as u8, drop_bytes(s, n));
        }
    }
}

/// A successful skip of fields takes no more bytes than there are.
proof fn lemma_skip_fields_consumed_bound(s: Seq<u8>)
    ensures
        spec_skip_fields(s) matches Ok(m) ==> m <= s.len(),
    decreases s.len(), 0nat,
{
    lemma_leb_decode_bounds(s);
    if let Ok((Some((_, wt)), n)) = spec_decode_tag(s) {
        lemma_skip_consumed_bound(wt, drop_bytes(s, n));
        if let Ok(m) = spec_skip(wt, drop_bytes(s, n)) {
            lemma_skip_fields_consumed_bound(drop_bytes(s, n + m));
        }
    }
}

/// Adds `n` consumed bytes in front of a skip outcome.
pub open spec fn skipped_after(n: nat, r: Result<nat, DecodeError>) -> Result<nat, DecodeError> {
    match r {
        Ok(m) => Ok(n + m),
        Err(e) => Err(e),
    }
}

/// Skip a field value based on wire type.
pub fn skip_by_wire_type(wire_type: u8, buf: &mut &[u8]) -> (res: Result<(), DecodeError>)
    ensures
        is_suffix_of(final(buf)@, old(buf)@),
        res is Ok ==> spec_skip(wire_type, old(buf)@) == Ok::<nat, DecodeError>(
            consumed(old(buf)@, final(buf)@),
        ),
        res matches Err(e) ==> spec_skip(wire_type, old(buf)@) == Err::<nat, DecodeError>(e),
        final(buf)@ == old(buf)@.skip(skip_taken(wire_type, old(buf)@) as int),
    decreases old(buf)@.len(), 1nat,
{
    let ghost s = buf@;
    if wire_type == wire::FIXED8 {
        if buf.len() < 1 {
            assert(buf@ =~= s.skip(0));
            return Err(DecodeError::UnexpectedEof);
        }
        *buf = &buf[1..buf.len()];
        assert(buf@ =~= s.skip(1));
        Ok(())
    } else if wire_type == wire::VARINT {
        match decode_leb128_u64(buf) {
            Ok(_) => {
                assert(buf@ =~= s.skip(consumed(s, buf@) as int));
                Ok(())
            },
            Err(e) => Err(e),
        }
    } else if wire_type == wire::FIXED32 {
        if buf.len() < 4 {
            assert(buf@ =~= s.skip(0));
            return Err(DecodeError::UnexpectedEof);
        }
        *buf = &buf[4..buf.len()];
        assert(buf@ =~= s.skip(4));
        Ok(())
    } else if wire_type == wire::FIXED64 {
        if buf.len() < 8 {
            assert(buf@ =~= s.skip(0));
            return Err(DecodeError::UnexpectedEof);
        }
        *buf = &buf[8..buf.len()];
        assert(buf@ =~= s.skip(8));
        Ok(())
    } else if wire_type == wire::BYTES {
        let len = match decode_leb128_u64(buf) {
            Ok(l) => #[verifier::truncate] (l as usize),
            Err(e) => return Err(e),
        };
        let ghost mid = buf@;
        assert(mid == s.skip(consumed(s, mid) as int));
        if buf.len() < len {
            assert(buf@ =~= s.skip(consumed(s, buf@) as int));
            return Err(DecodeError::UnexpectedEof);
        }
        *buf = &buf[len..buf.len()];
        assert(buf@ =~= s.skip(consumed(s, buf@) as int));
        Ok(())
    } else if wire_type == wire::MESSAGE {
        // Read fields until terminator
        skip_fields(buf)
    } else if wire_type == wire::UNION {
        // Read tag and skip payload
        let tag = match decode_leb128_u64(buf) {
            Ok(t) => t,
            Err(e) => return Err(e),
        };
        let ghost mid = buf@;
        proof {
            lemma_leb_decode_bounds(s);
            assert(mid == s.skip(consumed(s, mid) as int));
            assert(drop_bytes(s, consumed(s, mid)) == mid);
        }
        let wt = (tag & 0x7) as u8;
        let r = skip_by_wire_type(wt, buf);
        proof {
            lemma_skip_taken_bound(wt, mid);
        }
        assert(buf@ =~= s.skip(consumed(s, buf@) as int));
        assert(buf@ =~= s.skip((consumed(s, mid) + skip_taken(wt, mid)) as int));
        r
    } else if wire_type == wire::UNIT {
        // No payload to skip
        assert(buf@ =~= s.skip(0));
        Ok(())
    } else {
        assert(buf@ =~= s.skip(0));
        Err(DecodeError::InvalidWireType(wire_type))
    }
}

/// Skips message fields up to and including the terminator.
fn skip_fields(buf: &mut &[u8]) -> (res: Result<(), DecodeError>)
    ensures
        is_suffix_of(final(buf)@, old(buf)@),
        res is Ok ==> spec_skip_fields(old(buf)@) == Ok::<nat, DecodeError>(
            consumed(old(buf)@, final(buf)@),
        ),
        res matches Err(e) ==> spec_skip_fields(old(buf)@) == Err::<nat, DecodeError>(e),
        final(buf)@ == old(buf)@.skip(fields_taken(old(buf)@) as int),
    decreases old(buf)@.len(), 0nat,
{
    let ghost s = buf@;
    assert(buf@ =~= s.skip(0));
    loop
        invariant
            s == old(buf)@,
            is_suffix_of(buf@, s),
            spec_skip_fields(s) == skipped_after(consumed(s, buf@), spec_skip_fields(buf@)),
            fields_taken(s) == consumed(s, buf@) + fields_taken(buf@),
        decreases buf@.len(),
    {
        let ghost cur = buf@;
        let t = match decode_tag(buf) {
            Ok(t) => t,
            Err(e) => {
                proof {
                    lemma_leb_taken_bound(cur);
                }
                assert(fields_taken(cur) == leb_taken(cur));
                assert(buf@ =~= s.skip(consumed(s, buf@) as int));
                assert(consumed(s, buf@) == consumed(s, cur) + consumed(cur, buf@));
                assert(fields_taken(s) == consumed(s, buf@));
                return Err(e);
            },
        };
        let ghost mid = buf@;
        proof {
            lemma_leb_decode_bounds(cur);
            assert(mid == cur.skip(consumed(cur, mid) as int));
            assert(drop_bytes(cur, consumed(cur, mid)) == mid);
        }
        match t {
            None => {
                assert(fields_taken(cur) == consumed(cur, mid));
                assert(buf@ =~= s.skip(consumed(s, buf@) as int));
                assert(consumed(s, buf@) == consumed(s, cur) + consumed(cur, buf@));
                assert(fields_taken(s) == consumed(s, buf@));
                return Ok(());
            },
            Some((_, wt)) => {
                match skip_by_wire_type(wt, buf) {
                    Ok(()) => {},
                    Err(e) => {
                        proof {
                            lemma_skip_taken_bound(wt, mid);
                        }
                        assert(fields_taken(cur) == consumed(cur, mid) + skip_taken(wt, mid));
                        assert(buf@ =~= s.skip(consumed(s, buf@) as int));
                        assert(consumed(s, buf@) == consumed(s, cur) + consumed(cur, mid)
                            + consumed(mid, buf@));
                        assert(fields_taken(s) == consumed(s, buf@));
                        return Err(e);
                    },
                }
                proof {
                    let n = consumed(cur, mid);
                    let m = consumed(mid, buf@);
                    assert(fields_taken(cur) == n + m + fields_taken(drop_bytes(cur, n + m)));
                    assert(buf@ =~= cur.skip((n + m) as int));
                    assert(drop_bytes(cur, n + m) == buf@);
                    assert(buf@ =~= s.skip(consumed(s, buf@) as int));
                }
            },
        }
    }
}

// ============================================================================
// Struct presence bits
// ============================================================================
/// Bit `i` of `bytes`, counting from the least significant bit of the first byte.
pub open spec fn bit_of(bytes: Seq<u8>, i: int) -> bool {
    bit(bytes[i / 8], (i % 8) as u8)
}

/// Bit `k` of the byte `b`.
pub open spec fn bit(b: u8, k: u8) -> bool {
    (b >> k) & 1u8 == 1u8
}

/// The number of bytes that hold `count` presence bits.
pub open spec fn presence_byte_count(count: nat) -> nat {
    (count + 7) / 8
}

/// `bytes` holds the presence bits `bits`, packed LSB-first, padded with zero bits.
pub open spec fn encodes_presence(bits: Seq<bool>, bytes: Seq<u8>) -> bool {
    &&& bytes.len() == presence_byte_count(bits.len())
    &&& forall|i: int|
        0 <= i < 8 * bytes.len() ==> #[trigger] bit_of(bytes, i) == (i < bits.len() && bits[i])
}

/// The presence bits that decoding `count` of them from the start of `s` gives.
pub open spec fn spec_decode_presence(count: nat, s: Seq<u8>) -> Seq<bool> {
    Seq::new(count, |i: int| bit_of(s, i))
}

proof fn lemma_set_bit(b: u8, j: u8, k: u8)
    by (bit_vector)
    requires
        j < 8,
        k < 8,
    ensures
        ((b | (1u8 << j)) >> k) & 1u8 == (if k == j {
            1u8
        } else {
            (b >> k) & 1u8
        }),
        (0u8 >> k) & 1u8 == 0u8,
{
}

/// Encode presence bits for optional fields.
pub fn encode_presence_bits(bits: &[bool], buf: &mut Vec<u8>)
    requires
        bits@.len() + 7 <= usize::MAX,
    ensures
        final(buf)@.len() == old(buf)@.len() + presence_byte_count(bits@.len()),
        final(buf)@ == old(buf)@ + final(buf)@.skip(old(buf)@.len() as int),
        encodes_presence(bits@, final(buf)@.skip(old(buf)@.len() as int)),
{
    let num_bytes = (bits.len() + 7) / 8;
    let ghost start = buf@;
    let mut byte_idx: usize = 0;
    while byte_idx < num_bytes
        invariant
            num_bytes == presence_byte_count(bits@.len()),
            bits@.len() + 7 <= usize::MAX,
            byte_idx <= num_bytes,
            buf@.len() == start.len() + byte_idx,
            buf@.take(start.len() as int) == start,
            forall|i: int|
                0 <= i < 8 * byte_idx ==> #[trigger] bit_of(buf@.skip(start.len() as int), i) == (i
                    < bits@.len() && bits@[i]),
        decreases num_bytes - byte_idx,
    {
        let mut byte: u8 = 0;
        let mut bit_idx: u8 = 0;
        assert forall|k: u8| k < 8 implies !#[trigger] bit(0u8, k) by {
            lemma_set_bit(0u8, 0u8, k);
        }
        while bit_idx < 8
            invariant
                byte_idx < num_bytes,
                num_bytes == presence_byte_count(bits@.len()),
                bits@.len() + 7 <= usize::MAX,
                bit_idx <= 8,
                forall|k: u8|
                    k < 8 ==> #[trigger] bit(byte, k) == (k < bit_idx && 8
                        * byte_idx + k < bits@.len() && bits@[8 * byte_idx + k]),
            decreases 8 - bit_idx,
        {
            let idx = byte_idx * 8 + bit_idx as usize;
            if idx < bits.len() && bits[idx] {
                let ghost old_byte = byte;
                byte = byte | (1u8 << bit_idx);
                assert forall|k: u8| k < 8 implies #[trigger] bit(byte, k) == (k
                    <= bit_idx && 8 * byte_idx + k < bits@.len() && bits@[8 * byte_idx + k]) by {
                    lemma_set_bit(old_byte, bit_idx, k);
                    assert(bit(old_byte, k) == (k < bit_idx && 8 * byte_idx + k < bits@.len()
                        && bits@[8 * byte_idx + k]));
                }
            }
            bit_idx = bit_idx + 1;
        }
        let ghost prev = buf@;
        buf.push(byte);
        proof {
            let out = buf@.skip(start.len() as int);
            assert(buf@.take(start.len() as int) =~= start);
            assert forall|i: int| 0 <= i < 8 * (byte_idx + 1) implies #[trigger] bit_of(out, i) == (
            i < bits@.len() && bits@[i]) by {
                if i < 8 * byte_idx {
                    assert(out[i / 8] == prev.skip(start.len() as int)[i / 8]);
                    assert(bit_of(prev.skip(start.len() as int), i) == (i < bits@.len() && bits@[i]));
                } else {
                    assert(i / 8 == byte_idx);
                    assert(out[i / 8] == byte);
                    let k = (i % 8) as u8;
                    assert(8 * byte_idx + k == i);
                }
            }
        }
        byte_idx = byte_idx + 1;
    }
    assert(buf@ =~= start + buf@.skip(start.len() as int));
}

/// Decode presence bits for optional fields.
pub fn decode_presence_bits(count: usize, buf: &mut &[u8]) -> (res: Result<Vec<bool>, DecodeError>)
    requires
        count + 7 <= usize::MAX,
    ensures
        old(buf)@.len() < presence_byte_count(count as nat) ==> res == Err::<Vec<bool>, DecodeError>(
            DecodeError::UnexpectedEof,
        ) && final(buf)@ == old(buf)@,
        old(buf)@.len() >= presence_byte_count(count as nat) ==> (res matches Ok(bits) && bits@
            == spec_decode_presence(count as nat, old(buf)@) && final(buf)@ == old(buf)@.skip(
            presence_byte_count(count as nat) as int,
        )),
{
    let num_bytes = (count + 7) / 8;
    if buf.len() < num_bytes {
        return Err(DecodeError::UnexpectedEof);
    }
    let mut result: Vec<bool> = Vec::new();
    let mut i: usize = 0;
    while i < count
        invariant
            i <= count,
            count + 7 <= usize::MAX,
            num_bytes == presence_byte_count(count as nat),
            buf@ == old(buf)@,
            buf@.len() >= num_bytes,
            result@ == spec_decode_presence(i as nat, buf@),
        decreases count - i,
    {
        let byte_idx = i / 8;
        let bit_idx = (i % 8) as u8;
        let present = (buf[byte_idx] >> bit_idx) & 1 == 1;
        result.push(present);
        assert(result@ =~= spec_decode_presence((i + 1) as nat, buf@));
        i = i + 1;
    }
    *buf = &buf[num_bytes..buf.len()];
    Ok(result)
}

/// Decoding presence bits that encode `bits` gives `bits` back.
pub proof fn lemma_presence_roundtrip(bits: Seq<bool>, bytes: Seq<u8>, rest: Seq<u8>)
    requires
        encodes_presence(bits, bytes),
    ensures
        spec_decode_presence(bits.len(), bytes + rest) == bits,
{
    assert forall|i: int| 0 <= i < bits.len() implies #[trigger] spec_decode_presence(
        bits.len(),
        bytes + rest,
    )[i] == bits[i] by {
        assert(i / 8 < bytes.len());
        assert((bytes + rest)[i / 8] == bytes[i / 8]);
        assert(bit_of(bytes, i) == (i < bits.len() && bits[i]));
    }
    assert(spec_decode_presence(bits.len(), bytes + rest) =~= bits);
}

} // verus!
