use volex::map::MapEntries;
use volex::error::DecodeError;
use volex::wire;
use volex::{
    decode_field, decode_leb128_u64, decode_presence_bits, decode_tag, encode_field,
    encode_leb128_u64, encode_message_end, encode_presence_bits, encode_tag, skip_by_wire_type,
    zigzag_decode, zigzag_encode, Decode, Encode, WireType,
};

fn leb(v: u64) -> Vec<u8> {
    let mut b = Vec::new();
    encode_leb128_u64(v, &mut b);
    b
}

fn encoded<T: Encode>(v: &T) -> Vec<u8> {
    let mut b = Vec::new();
    v.encode(&mut b);
    b
}

#[test]
fn leb128_examples_from_the_wire_format() {
    assert_eq!(leb(0), vec![0x00]);
    assert_eq!(leb(1), vec![0x01]);
    assert_eq!(leb(127), vec![0x7f]);
    assert_eq!(leb(128), vec![0x80, 0x01]);
    assert_eq!(leb(300), vec![0xac, 0x02]);
    assert_eq!(leb(16384), vec![0x80, 0x80, 0x01]);
    assert_eq!(
        leb(u64::MAX),
        vec![0xff, 0xff, 0xff, 0xff, 0xff, 0xff, 0xff, 0xff, 0xff, 0x01]
    );
}

#[test]
fn leb128_appends_to_what_is_there() {
    let mut b = vec![9u8];
    encode_leb128_u64(300, &mut b);
    assert_eq!(b, vec![9, 0xac, 0x02]);
}

#[test]
fn leb128_roundtrip() {
    for v in [0u64, 1, 127, 128, 255, 300, 16383, 16384, 1 << 32, u64::MAX - 1, u64::MAX] {
        let b = leb(v);
        let mut s = &b[..];
        assert_eq!(decode_leb128_u64(&mut s), Ok(v));
        assert!(s.is_empty());
    }
}

#[test]
fn leb128_decode_leaves_the_rest() {
    let data = [0xac, 0x02, 0x07];
    let mut s = &data[..];
    assert_eq!(decode_leb128_u64(&mut s), Ok(300));
    assert_eq!(s, &[0x07]);
}

#[test]
fn leb128_unexpected_eof() {
    let mut s: &[u8] = &[];
    assert_eq!(decode_leb128_u64(&mut s), Err(DecodeError::UnexpectedEof));
    let data = [0x80, 0x80];
    let mut s = &data[..];
    assert_eq!(decode_leb128_u64(&mut s), Err(DecodeError::UnexpectedEof));
    assert!(s.is_empty());
}

#[test]
fn leb128_overflow() {
    let data = [0x80u8; 12];
    let mut s = &data[..];
    assert_eq!(decode_leb128_u64(&mut s), Err(DecodeError::Leb128Overflow));
    assert_eq!(s.len(), 1);
}

#[test]
fn zigzag_examples_from_the_wire_format() {
    let cases: [(i64, u64); 7] = [(0, 0), (-1, 1), (1, 2), (-2, 3), (64, 128), (-64, 127), (-65, 129)];
    for (n, z) in cases {
        assert_eq!(zigzag_encode(n), z);
        assert_eq!(zigzag_decode(z), n);
    }
    assert_eq!(zigzag_encode(i64::MIN), u64::MAX);
    assert_eq!(zigzag_encode(i64::MAX), u64::MAX - 1);
}

#[test]
fn zigzag_roundtrip() {
    for n in [0i64, 1, -1, 63, -64, 1000, -1000, i64::MAX, i64::MIN] {
        assert_eq!(zigzag_decode(zigzag_encode(n)), n);
    }
    for u in [0u64, 1, 2, 3, 127, 128, u64::MAX] {
        assert_eq!(zigzag_encode(zigzag_decode(u)), u);
    }
}

#[test]
fn signed_integers_are_zigzag_encoded() {
    assert_eq!(encoded(&-65i32), vec![0x81, 0x01]);
    assert_eq!(encoded(&64i64), vec![0x80, 0x01]);
    assert_eq!(encoded(&-1i16), vec![0x01]);
    let data = [0x81u8, 0x01];
    let mut s = &data[..];
    assert_eq!(i32::decode(&mut s), Ok(-65));
}

#[test]
fn fixed_size_integers() {
    assert_eq!(encoded(&200u8), vec![200]);
    assert_eq!(encoded(&-1i8), vec![0xff]);
    let data = [0xffu8];
    let mut s = &data[..];
    assert_eq!(i8::decode(&mut s), Ok(-1));
    let mut e: &[u8] = &[];
    assert_eq!(u8::decode(&mut e), Err(DecodeError::UnexpectedEof));
}

#[test]
fn bool_encoding() {
    assert_eq!(encoded(&true), vec![1]);
    assert_eq!(encoded(&false), vec![0]);
    let data = [2u8];
    let mut s = &data[..];
    assert_eq!(bool::decode(&mut s), Err(DecodeError::InvalidBool(2)));
}

#[test]
fn unsigned_integers_wider_than_the_type_keep_their_low_bits() {
    let b = leb(70000);
    let mut s = &b[..];
    assert_eq!(u16::decode(&mut s), Ok(4464));
    let mut s = &b[..];
    assert_eq!(u32::decode(&mut s), Ok(70000));
}

#[test]
fn string_encoding() {
    assert_eq!(encoded(&"hi".to_string()), vec![2, b'h', b'i']);
    let data = [5u8, b'a', b'l', b'i', b'c', b'e'];
    let mut s = &data[..];
    assert_eq!(String::decode(&mut s), Ok("alice".to_string()));
    let bad = [1u8, 0xff];
    let mut s = &bad[..];
    assert_eq!(String::decode(&mut s), Err(DecodeError::InvalidUtf8));
    let short = [3u8, b'a'];
    let mut s = &short[..];
    assert_eq!(String::decode(&mut s), Err(DecodeError::UnexpectedEof));
}

#[test]
fn vec_encoding() {
    assert_eq!(encoded(&vec![1u32, 300]), vec![2, 1, 0xac, 0x02]);
    let data = [2u8, 1, 0xac, 0x02];
    let mut s = &data[..];
    assert_eq!(Vec::<u32>::decode(&mut s), Ok(vec![1, 300]));
}

#[test]
fn vec_of_fixed_size_elements_in_a_field_has_no_count() {
    let mut b = Vec::new();
    encode_field(3, &vec![1u8, 2, 3], &mut b);
    assert_eq!(b, vec![(3 << 3) | wire::BYTES, 3, 1, 2, 3]);
    let mut s = &b[..];
    assert_eq!(decode_tag(&mut s), Ok(Some((3, wire::BYTES))));
    assert_eq!(decode_field::<Vec<u8>>(&mut s), Ok(vec![1, 2, 3]));
    assert!(s.is_empty());
}

#[test]
fn vec_delimited_with_a_bad_length() {
    let data = [1u8, 2, 3];
    let mut s = &data[..];
    assert_eq!(Vec::<u8>::decode_delimited(5, &mut s), Err(DecodeError::UnexpectedEof));
}

#[test]
fn option_encodes_its_value_or_nothing() {
    assert_eq!(encoded(&Some(5u32)), vec![5]);
    assert_eq!(encoded(&None::<u32>), Vec::<u8>::new());
}

#[test]
fn wire_types_of_primitives() {
    assert_eq!(<bool as WireType>::WIRE_TYPE, wire::FIXED8);
    assert_eq!(<u32 as WireType>::WIRE_TYPE, wire::VARINT);
    assert_eq!(<String as WireType>::WIRE_TYPE, wire::BYTES);
    assert_eq!(<Vec<u8> as WireType>::WIRE_TYPE, wire::BYTES);
    assert_eq!(<u8 as WireType>::fixed_size(), Some(1));
    assert_eq!(<u64 as WireType>::fixed_size(), None);
}

#[test]
fn tags() {
    let mut b = Vec::new();
    encode_tag(1, wire::VARINT, &mut b);
    assert_eq!(b, vec![0x09]);
    let mut s = &b[..];
    assert_eq!(decode_tag(&mut s), Ok(Some((1, wire::VARINT))));
    let end = [0u8];
    let mut s = &end[..];
    assert_eq!(decode_tag(&mut s), Ok(None));
}

#[test]
fn message_with_two_fields() {
    let mut b = Vec::new();
    encode_field(1, &42u64, &mut b);
    encode_field(2, &"alice".to_string(), &mut b);
    encode_message_end(&mut b);
    assert_eq!(b, vec![0x09, 42, 0x14, 5, b'a', b'l', b'i', b'c', b'e', 0]);

    let mut s = &b[..];
    assert_eq!(decode_tag(&mut s), Ok(Some((1, wire::VARINT))));
    assert_eq!(decode_field::<u64>(&mut s), Ok(42));
    assert_eq!(decode_tag(&mut s), Ok(Some((2, wire::BYTES))));
    assert_eq!(decode_field::<String>(&mut s), Ok("alice".to_string()));
    assert_eq!(decode_tag(&mut s), Ok(None));
    assert!(s.is_empty());
}

#[test]
fn long_field_gets_a_longer_length() {
    let text = "x".repeat(200);
    let mut b = Vec::new();
    encode_field(1, &text, &mut b);
    assert_eq!(&b[..3], &[0x0c, 0xc8, 0x01]);
    assert_eq!(b.len(), 3 + 200);
    let mut s = &b[1..];
    assert_eq!(decode_field::<String>(&mut s), Ok(text));
}

#[test]
fn skipping_unknown_fields() {
    let mut b = Vec::new();
    encode_field(1, &42u64, &mut b);
    encode_field(2, &"alice".to_string(), &mut b);
    encode_message_end(&mut b);
    b.push(0x77);
    let mut s = &b[..];
    assert_eq!(skip_by_wire_type(wire::MESSAGE, &mut s), Ok(()));
    assert_eq!(s, &[0x77]);

    let fixed = [1u8, 2, 3, 4, 5];
    let mut s = &fixed[..];
    assert_eq!(skip_by_wire_type(wire::FIXED32, &mut s), Ok(()));
    assert_eq!(s, &[5]);
    let mut s = &fixed[..];
    assert_eq!(skip_by_wire_type(wire::FIXED64, &mut s), Err(DecodeError::UnexpectedEof));
    let mut s = &fixed[..];
    assert_eq!(skip_by_wire_type(wire::UNIT, &mut s), Ok(()));
    assert_eq!(s.len(), 5);
    let mut s = &fixed[..];
    assert_eq!(skip_by_wire_type(9, &mut s), Err(DecodeError::InvalidWireType(9)));
}

#[test]
fn skipping_a_union() {
    let mut b = Vec::new();
    encode_field(2, &7u32, &mut b);
    b.push(0x55);
    let mut s = &b[..];
    assert_eq!(skip_by_wire_type(wire::UNION, &mut s), Ok(()));
    assert_eq!(s, &[0x55]);
}

#[test]
fn presence_bits_example() {
    let mut b = Vec::new();
    encode_presence_bits(&[true], &mut b);
    assert_eq!(b, vec![0x01]);
    let mut b = Vec::new();
    encode_presence_bits(&[false], &mut b);
    assert_eq!(b, vec![0x00]);
    let bits = [true, false, true, false, false, false, false, false, true];
    let mut b = Vec::new();
    encode_presence_bits(&bits, &mut b);
    assert_eq!(b, vec![0x05, 0x01]);
    let mut s = &b[..];
    assert_eq!(decode_presence_bits(9, &mut s), Ok(bits.to_vec()));
    assert!(s.is_empty());
    let mut s = &b[..1];
    assert_eq!(decode_presence_bits(9, &mut s), Err(DecodeError::UnexpectedEof));
    let mut b = Vec::new();
    encode_presence_bits(&[], &mut b);
    assert!(b.is_empty());
}

#[test]
fn decode_error_messages() {
    assert_eq!(DecodeError::UnexpectedEof.message(), "unexpected end of input");
    assert_eq!(DecodeError::InvalidUtf8.message(), "invalid UTF-8 in string");
    assert_eq!(DecodeError::InvalidBool(2).message(), "invalid bool value: 2");
    assert_eq!(DecodeError::UnknownEnumVariant(17).message(), "unknown enum variant: 17");
    assert_eq!(DecodeError::UnknownUnionVariant(0).message(), "unknown union variant: 0");
    assert_eq!(DecodeError::Leb128Overflow.message(), "LEB128 overflow");
    assert_eq!(DecodeError::InvalidWireType(8).message(), "invalid wire type: 8");
    assert_eq!(
        DecodeError::InvalidLength.message(),
        "invalid length (not a multiple of element size)"
    );
}

#[test]
fn unknown_fields_are_skipped_whole() {
    let mut b = Vec::new();
    encode_field(7, &-300i32, &mut b);
    encode_field(8, &true, &mut b);
    encode_field(9, &vec![10u16, 20, 30], &mut b);
    encode_field(10, &"ünïcode".to_string(), &mut b);
    encode_field(11, &u64::MAX, &mut b);
    b.push(0xAB);
    let mut s: &[u8] = &b;
    let expected = [(7, wire::VARINT), (8, wire::FIXED8), (9, wire::BYTES), (10, wire::BYTES), (11, wire::VARINT)];
    for (index, wt) in expected {
        assert_eq!(decode_tag(&mut s), Ok(Some((index, wt))));
        assert_eq!(skip_by_wire_type(wt, &mut s), Ok(()));
    }
    assert_eq!(s, &[0xAB][..]);
}

#[test]
fn maps_encode_as_entries() {
    let m = MapEntries::new(vec![(1u8, true), (2u8, false)]);
    let mut b = Vec::new();
    m.encode(&mut b);
    assert_eq!(b, vec![2, 1, 1, 2, 0]);
    let mut d = Vec::new();
    m.encode_delimited(&mut d);
    assert_eq!(d, vec![1, 1, 2, 0]);

    let s = MapEntries::new(vec![("a".to_string(), 7u32)]);
    let mut d = Vec::new();
    s.encode_delimited(&mut d);
    assert_eq!(d, vec![1, 1, b'a', 7]);
    assert_eq!(<MapEntries<String, u32> as WireType>::WIRE_TYPE, wire::BYTES);

    let mut f = Vec::new();
    encode_field(3, &m, &mut f);
    assert_eq!(f, vec![(3 << 3) | wire::BYTES, 4, 1, 1, 2, 0]);
}

#[test]
fn maps_decode_and_infer_their_count() {
    let bytes = [1u8, 1, 2, 0, 9];
    let mut s: &[u8] = &bytes;
    let m = <MapEntries<u8, bool> as Decode>::decode_delimited(4, &mut s).unwrap();
    assert_eq!(*m.entries(), vec![(1, true), (2, false)]);
    assert_eq!(s, &[9][..]);

    let mut s: &[u8] = &bytes;
    assert_eq!(<MapEntries<u8, bool> as Decode>::decode_delimited(3, &mut s).err(), Some(DecodeError::InvalidLength));
    assert_eq!(s, &bytes[..]);
    let short = [1u8, 1];
    let mut s: &[u8] = &short;
    assert_eq!(<MapEntries<u8, bool> as Decode>::decode_delimited(4, &mut s).err(), Some(DecodeError::UnexpectedEof));
    assert_eq!(s, &short[..]);

    let standalone = [2u8, 1, 1, 1, 0];
    let mut s: &[u8] = &standalone;
    let m = <MapEntries<u8, bool> as Decode>::decode(&mut s).unwrap();
    assert_eq!(*m.entries(), vec![(1, false)]);
    assert!(s.is_empty());

    let strings = [1u8, 1, b'a', 7];
    let mut s: &[u8] = &strings;
    let m = <MapEntries<String, u32> as Decode>::decode_delimited(4, &mut s).unwrap();
    assert_eq!(*m.entries(), vec![("a".to_string(), 7)]);
}

#[test]
fn failed_skips_leave_what_was_read() {
    let mut s: &[u8] = &[0x01];
    assert_eq!(skip_by_wire_type(8, &mut s), Err(DecodeError::InvalidWireType(8)));
    assert_eq!(s, &[0x01][..]);
    let mut s: &[u8] = &[1, 2, 3];
    assert_eq!(skip_by_wire_type(wire::FIXED32, &mut s), Err(DecodeError::UnexpectedEof));
    assert_eq!(s, &[1, 2, 3][..]);
    let mut s: &[u8] = &[];
    assert_eq!(skip_by_wire_type(wire::FIXED8, &mut s), Err(DecodeError::UnexpectedEof));
    let mut s: &[u8] = &[0x05, 0x61];
    assert_eq!(skip_by_wire_type(wire::BYTES, &mut s), Err(DecodeError::UnexpectedEof));
    assert_eq!(s, &[0x61][..]);
}

#[test]
fn presence_bits_are_appended() {
    let mut b = vec![0xEE];
    encode_presence_bits(&[true, false, true, false, false, false, false, false, true], &mut b);
    assert_eq!(b, vec![0xEE, 0b0000_0101, 0b0000_0001]);
}

#[test]
fn failed_array_reads_take_nothing() {
    let bytes = [1u8, 2, 3];
    let mut s: &[u8] = &bytes;
    assert_eq!(<Vec<u8> as Decode>::decode_delimited(4, &mut s), Err(DecodeError::UnexpectedEof));
    assert_eq!(s, &bytes[..]);
    let words = [0x80u8, 0x80, 0x80];
    let mut s: &[u8] = &words;
    assert_eq!(<Vec<u16> as Decode>::decode_delimited(3, &mut s), Err(DecodeError::UnexpectedEof));
    assert_eq!(s, &words[..]);
}

#[test]
fn a_repeated_key_keeps_its_last_entry() {
    let m = MapEntries::new(vec![(1u32, 10u8), (2, 20), (1, 11), (3, 30), (2, 21)]);
    assert_eq!(*m.entries(), vec![(1, 11), (3, 30), (2, 21)]);
    let s = MapEntries::new(vec![("a".to_string(), 1u8), ("b".to_string(), 2), ("a".to_string(), 3)]);
    assert_eq!(*s.entries(), vec![("b".to_string(), 2), ("a".to_string(), 3)]);
    let v = MapEntries::new(vec![(vec![1u8, 2], true), (vec![1u8], false), (vec![1u8, 2], false)]);
    assert_eq!(*v.entries(), vec![(vec![1u8], false), (vec![1u8, 2], false)]);
    let bytes = [3u8, 5, 1, 6, 2, 5, 3];
    let mut r: &[u8] = &bytes;
    let d = <MapEntries<u8, u8> as Decode>::decode(&mut r).unwrap();
    assert_eq!(*d.entries(), vec![(6, 2), (5, 3)]);
    let mut out = Vec::new();
    d.encode(&mut out);
    assert_eq!(out, vec![2, 6, 2, 5, 3]);
}
