//! LEB128 variable-length integers and zigzag mapping of signed integers.
use vstd::prelude::*;
use vstd::arithmetic::power2::{pow2, lemma_pow2_adds, lemma2_to64, lemma_pow2_pos};
use vstd::bits::lemma_u64_shl_is_mul;

use crate::error::DecodeError;

verus! {

/// `128^k`.
pub open spec fn pow128(k: nat) -> nat
    decreases k,
{
    if k == 0 {
        1
    } else {
        128 * pow128((k - 1) as nat)
    }
}

/// `after` is what is left of `before` once a prefix of it has been consumed.
pub open spec fn is_suffix_of(after: Seq<u8>, before: Seq<u8>) -> bool {
    after.len() <= before.len() && after == before.skip(before.len() - after.len())
}

/// How many bytes were consumed going from `before` to `after`.
pub open spec fn consumed(before: Seq<u8>, after: Seq<u8>) -> nat {
    (before.len() - after.len()) as nat
}

/// `2^64`, the modulus of `u64` arithmetic.
pub open spec fn two_pow_64() -> nat {
    0x1_0000_0000_0000_0000
}

/// The LEB128 encoding of `v`: seven bits per byte, least significant group first,
/// the high bit of every byte but the last set.
pub open spec fn leb128(v: u64) -> Seq<u8>
    decreases v,
{
    if v < 128 {
        seq![v as u8]
    } else {
        seq![(v % 128 + 128) as u8] + leb128(v / 128)
    }
}

/// The number that a run of LEB128 bytes stands for (the high bit of each byte ignored),
/// least significant group first.
pub open spec fn leb_value(s: Seq<u8>) -> nat
    decreases s.len(),
{
    if s.len() == 0 {
        0
    } else {
        (s[0] % 128) as nat + 128 * leb_value(s.drop_first())
    }
}

/// Where the LEB128 integer that starts `s` ends, searching from byte `i`: the end index when a
/// byte without the continuation bit is found among the first ten bytes; `UnexpectedEof` when the
/// input ends first; `Leb128Overflow` when an eleventh byte would have to be read.
pub open spec fn leb_extent(s: Seq<u8>, i: nat) -> Result<nat, DecodeError>
    decreases 10 - i,
{
    if i >= s.len() {
        Err(DecodeError::UnexpectedEof)
    } else if i >= 10 {
        Err(DecodeError::Leb128Overflow)
    } else if s[i as int] < 128 {
        Ok(i + 1)
    } else {
        leb_extent(s, i + 1)
    }
}

/// What decoding a LEB128 integer from the start of `s` gives: the value (reduced modulo `2^64`)
/// and the number of bytes it takes.
pub open spec fn spec_decode_leb128(s: Seq<u8>) -> Result<(u64, nat), DecodeError> {
    match leb_extent(s, 0) {
        Ok(n) => Ok(((leb_value(s.take(n as int)) % two_pow_64()) as u64, n)),
        Err(e) => Err(e),
    }
}

/// How many bytes a failed LEB128 decode consumes: all of the input on `UnexpectedEof`,
/// eleven bytes on `Leb128Overflow`.
pub open spec fn leb_error_consumed(s: Seq<u8>, e: DecodeError) -> nat {
    if e == DecodeError::Leb128Overflow {
        11
    } else {
        s.len()
    }
}

/// The zigzag mapping of signed to unsigned integers: `0, -1, 1, -2, ...` to `0, 1, 2, 3, ...`.
pub open spec fn spec_zigzag(n: int) -> int {
    if n >= 0 {
        2 * n
    } else {
        -2 * n - 1
    }
}

/// The inverse of the zigzag mapping.
pub open spec fn spec_unzigzag(u: int) -> int {
    if u % 2 == 0 {
        u / 2
    } else {
        -(u / 2) - 1
    }
}

proof fn lemma_pow128_is_pow2(k: nat)
    ensures
        pow128(k) == pow2(7 * k),
    decreases k,
{
    if k == 0 {
        lemma2_to64();
    } else {
        lemma_pow128_is_pow2((k - 1) as nat);
        lemma_pow2_adds(7 * (k - 1) as nat, 7);
        lemma2_to64();
        assert(7 * k == 7 * (k - 1) as nat + 7);
    }
}

proof fn lemma_pow128_monotone(a: nat, b: nat)
    requires
        a <= b,
    ensures
        pow128(a) <= pow128(b),
        pow128(a) >= 1,
    decreases b,
{
    if b > a {
        lemma_pow128_monotone(a, (b - 1) as nat);
        assert(pow128(b) == 128 * pow128((b - 1) as nat));
    } else {
        lemma_pow128_positive(a);
    }
}

proof fn lemma_pow128_positive(a: nat)
    ensures
        pow128(a) >= 1,
    decreases a,
{
    if a > 0 {
        lemma_pow128_positive((a - 1) as nat);
    }
}

/// The value of `p` followed by one more byte.
proof fn lemma_leb_value_push(p: Seq<u8>, b: u8)
    ensures
        leb_value(p.push(b)) == leb_value(p) + (b % 128) as nat * pow128(p.len()),
    decreases p.len(),
{
    let q = p.push(b);
    if p.len() == 0 {
        assert(q.drop_first() =~= Seq::<u8>::empty());
        assert(leb_value(q.drop_first()) == 0);
        assert(q[0] == b);
    } else {
        assert(q.drop_first() =~= p.drop_first().push(b));
        assert(q[0] == p[0]);
        lemma_leb_value_push(p.drop_first(), b);
        let x = (b % 128) as nat;
        let k = p.drop_first().len();
        let r = leb_value(p.drop_first());
        assert(pow128(p.len()) == 128 * pow128(k));
        assert(128 * (r + x * pow128(k)) == 128 * r + x * (128 * pow128(k))) by (nonlinear_arith);
        assert(leb_value(q) == (p[0] % 128) as nat + 128 * leb_value(q.drop_first()));
        assert(leb_value(p) == (p[0] % 128) as nat + 128 * r);
    }
}

proof fn lemma_leb_value_bound(p: Seq<u8>)
    ensures
        leb_value(p) < pow128(p.len()),
    decreases p.len(),
{
    if p.len() > 0 {
        lemma_leb_value_bound(p.drop_first());
        let r = leb_value(p.drop_first());
        let k = p.drop_first().len();
        assert(r + 1 <= pow128(k));
        assert((p[0] % 128) as nat + 128 * r < 128 * pow128(k)) by (nonlinear_arith)
            requires
                r + 1 <= pow128(k),
                (p[0] % 128) < 128,
        ;
    }
}

/// One step of the decoding loop: OR-ing the next seven bits in at bit `7 * i` adds them
/// to the value, modulo `2^64`.
proof fn lemma_decode_step(p: Seq<u8>, acc: u64, b: u8)
    requires
        p.len() <= 9,
        acc as nat == leb_value(p),
    ensures
        ((acc | (((b & 0x7f) as u64) << (7 * p.len()) as u64)) as nat) == leb_value(p.push(b))
            % two_pow_64(),
        p.len() < 9 ==> leb_value(p.push(b)) < two_pow_64(),
{
    let i = p.len();
    let sh: u64 = (7 * i) as u64;
    let x: u64 = (b & 0x7f) as u64;
    assert(x == (b % 128) as u64) by (bit_vector)
        requires
            x == (b & 0x7f) as u64,
    ;
    lemma_leb_value_push(p, b);
    lemma_leb_value_bound(p);
    lemma_pow128_is_pow2(i);
    lemma_pow128_monotone(i, 9);
    lemma_pow128_is_pow2(9);
    lemma2_to64();
    lemma_pow2_pos(63);
    assert(pow2(63) == 0x8000_0000_0000_0000) by {
        vstd::arithmetic::power2::lemma2_to64_rest();
    }
    assert(pow128(i) <= 0x8000_0000_0000_0000);
    assert(1u64 << sh == pow2(sh as nat)) by {
        lemma_u64_shl_is_mul(1u64, sh);
    }
    assert(acc < (1u64 << sh));
    assert((acc | (x << sh)) == acc + (x << sh)) by (bit_vector)
        requires
            sh < 64,
            acc < (1u64 << sh),
    ;
    if i < 9 {
        lemma_pow128_monotone(i + 1, 9);
        assert(pow128(i + 1) == 128 * pow128(i));
        assert(x * pow128(i) + pow128(i) <= 128 * pow128(i)) by (nonlinear_arith)
            requires
                x < 128,
        ;
        assert(x * pow2(sh as nat) <= u64::MAX);
        lemma_u64_shl_is_mul(x, sh);
        assert(leb_value(p.push(b)) < pow128(i + 1)) by (nonlinear_arith)
            requires
                leb_value(p.push(b)) == leb_value(p) + x * pow128(i),
                leb_value(p) < pow128(i),
                x * pow128(i) + pow128(i) <= pow128(i + 1),
        ;
    } else {
        assert(sh == 63);
        assert(x << 63u64 == (x % 2) * 0x8000_0000_0000_0000) by (bit_vector)
            requires
                x < 128,
        ;
        let v = leb_value(p);
        assert(pow128(i) == 0x8000_0000_0000_0000);
        assert((v + x * 0x8000_0000_0000_0000) % (two_pow_64() as int) == v + (x % 2)
            * 0x8000_0000_0000_0000) by (nonlinear_arith)
            requires
                v < 0x8000_0000_0000_0000,
                x < 128,
        ;
    }
}

/// Encodes an unsigned integer as LEB128, appending it to `buf`.
pub fn encode_leb128_u64(value: u64, buf: &mut Vec<u8>)
    ensures
        final(buf)@ == old(buf)@ + leb128(value),
{
    let mut value = value;
    let ghost start = buf@;
    let ghost orig = value;
    loop
        invariant_except_break
            start + leb128(orig) == buf@ + leb128(value),
        ensures
            buf@ == start + leb128(orig),
        decreases value,
    {
        let low = value & 0x7F;
        let mut byte = low as u8;
        let ghost before = value;
        value = value >> 7;
        assert(low == before % 128 && value == before / 128 && low < 128) by (bit_vector)
            requires
                low == before & 0x7F,
                value == before >> 7,
        ;
        if value != 0 {
            assert((low as u8) | 0x80u8 == (low + 128) as u8) by (bit_vector)
                requires
                    low < 128,
            ;
            byte = byte | 0x80;
        }
        buf.push(byte);
        proof {
            if value != 0 {
                assert(leb128(before) == seq![byte] + leb128(value));
                assert(start + leb128(orig) == buf@ + leb128(value));
            } else {
                assert(leb128(before) == seq![byte]);
                assert(buf@ == start + leb128(orig));
            }
        }
        if value == 0 {
            break;
        }
    }
}

/// Decodes an unsigned LEB128 integer from the front of `buf`, advancing `buf` past the bytes
/// read. Bits beyond the 64th are dropped; an eleventh byte is an overflow.
pub fn decode_leb128_u64(buf: &mut &[u8]) -> (res: Result<u64, DecodeError>)
    ensures
        res matches Ok(v) ==> spec_decode_leb128(old(buf)@) == Ok::<(u64, nat), DecodeError>(
            (v, consumed(old(buf)@, final(buf)@)),
        ),
        res matches Err(e) ==> spec_decode_leb128(old(buf)@) == Err::<(u64, nat), DecodeError>(e),
        res matches Err(e) ==> final(buf)@ == old(buf)@.skip(leb_error_consumed(old(buf)@, e) as int),
        is_suffix_of(final(buf)@, old(buf)@),
        res is Ok ==> 1 <= consumed(old(buf)@, final(buf)@) <= 10,
{
    let ghost s = buf@;
    let mut result: u64 = 0;
    let mut shift: u64 = 0;
    let mut i: usize = 0;
    loop
        invariant
            s == old(buf)@,
            i <= 10,
            i <= s.len(),
            shift == 7 * i,
            buf@ == s.skip(i as int),
            forall|j: int| 0 <= j < i ==> s[j] >= 128,
            leb_extent(s, 0) == leb_extent(s, i as nat),
            i <= 9 ==> result as nat == leb_value(s.take(i as int)),
            i == 10 ==> result as nat == leb_value(s.take(i as int)) % two_pow_64(),
        decreases 11 - i,
    {
        proof {
            lemma_leb_extent_skip(s, 0, i as nat);
        }
        if buf.is_empty() {
            assert(s.skip(i as int).len() == 0);
            assert(i == s.len());
            assert(leb_extent(s, i as nat) == Err::<nat, DecodeError>(DecodeError::UnexpectedEof));
            assert(spec_decode_leb128(s) == Err::<(u64, nat), DecodeError>(DecodeError::UnexpectedEof));
            assert(leb_error_consumed(s, DecodeError::UnexpectedEof) == s.len());
            assert(buf@ =~= s.skip(s.len() as int));
            return Err(DecodeError::UnexpectedEof);
        }
        let byte = buf[0];
        *buf = &buf[1..buf.len()];
        assert(byte == s[i as int]);
        assert(buf@ =~= s.skip(i + 1));
        if shift >= 64 {
            assert(i == 10);
            assert(leb_extent(s, i as nat) == Err::<nat, DecodeError>(DecodeError::Leb128Overflow));
            assert(spec_decode_leb128(s) == Err::<(u64, nat), DecodeError>(DecodeError::Leb128Overflow));
            assert(leb_error_consumed(s, DecodeError::Leb128Overflow) == 11);
            return Err(DecodeError::Leb128Overflow);
        }
        proof {
            assert(s.take(i as int).push(byte) =~= s.take(i + 1));
            lemma_decode_step(s.take(i as int), result, byte);
        }
        result = result | (((byte & 0x7F) as u64) << shift);
        if byte & 0x80 == 0 {
            assert(byte < 128) by (bit_vector)
                requires
                    byte & 0x80 == 0,
            ;
            assert(leb_extent(s, i as nat) == Ok::<nat, DecodeError>((i + 1) as nat));
            proof {
                if i < 9 {
                    vstd::arithmetic::div_mod::lemma_small_mod(
                        leb_value(s.take(i + 1)),
                        two_pow_64(),
                    );
                }
            }
            assert(buf@ =~= s.skip(i + 1));
            return Ok(result);
        }
        assert(byte >= 128) by (bit_vector)
            requires
                byte & 0x80 != 0,
        ;
        proof {
            if i < 9 {
                vstd::arithmetic::div_mod::lemma_small_mod(leb_value(s.take(i + 1)), two_pow_64());
            }
        }
        shift = shift + 7;
        i = i + 1;
        assert(buf@ =~= s.skip(i as int));
    }
}

proof fn lemma_leb_extent_skip(s: Seq<u8>, from: nat, to: nat)
    requires
        from <= to <= 10,
        to <= s.len(),
        forall|j: int| from <= j < to ==> s[j] >= 128,
    ensures
        leb_extent(s, from) == leb_extent(s, to),
    decreases to - from,
{
    if from < to {
        lemma_leb_extent_skip(s, from + 1, to);
    }
}

/// Zigzag-encodes a signed integer: `(n << 1) ^ (n >> 63)`.
pub fn zigzag_encode(n: i64) -> (r: u64)
    ensures
        r as int == spec_zigzag(n as int),
{
    if n >= 0 {
        (n as u64) * 2
    } else {
        ((-(n + 1)) as u64) * 2 + 1
    }
}

/// Zigzag-decodes an unsigned integer: `(n >> 1) ^ -(n & 1)`.
pub fn zigzag_decode(n: u64) -> (r: i64)
    ensures
        r as int == spec_unzigzag(n as int),
{
    let half = (n / 2) as i64;
    if n % 2 == 0 {
        half
    } else {
        -half - 1
    }
}

/// The LEB128 encoding of `v` is at most ten bytes, every byte but the last has the
/// continuation bit, and the bytes stand for `v`.
pub proof fn lemma_leb128_shape(v: u64)
    ensures
        1 <= leb128(v).len() <= 10,
        leb128(v).last() < 128,
        forall|j: int| 0 <= j < leb128(v).len() - 1 ==> leb128(v)[j] >= 128,
        leb_value(leb128(v)) == v,
        v < pow128((leb128(v).len() - 1) as nat) * 128,
        leb128(v).len() == 1 || v >= pow128((leb128(v).len() - 1) as nat),
    decreases v,
{
    if v < 128 {
        assert(leb128(v).drop_first() =~= Seq::<u8>::empty());
        assert(leb_value(leb128(v).drop_first()) == 0);
    } else {
        lemma_leb128_shape(v / 128);
        let t = leb128(v / 128);
        let s = leb128(v);
        assert(s == seq![(v % 128 + 128) as u8] + t);
        assert(s.drop_first() =~= t);
        assert((v % 128 + 128) as u8 % 128 == v % 128);
        assert(leb_value(s) == v % 128 + 128 * (v / 128));
        if t.len() > 1 {
            assert(v >= pow128(t.len())) by (nonlinear_arith)
                requires
                    v / 128 >= pow128((t.len() - 1) as nat),
                    pow128(t.len()) == 128 * pow128((t.len() - 1) as nat),
            ;
        }
        assert forall|j: int| 0 <= j < s.len() - 1 implies s[j] >= 128 by {
            if j > 0 {
                assert(s[j] == t[j - 1]);
            }
        }
        assert(pow128(t.len()) == 128 * pow128((t.len() - 1) as nat));
        assert(v < pow128(t.len()) * 128) by (nonlinear_arith)
            requires
                v / 128 < pow128((t.len() - 1) as nat) * 128,
                pow128(t.len()) == 128 * pow128((t.len() - 1) as nat),
                v >= 0,
        ;
        if t.len() == 10 {
            lemma_pow128_is_pow2(9);
            lemma2_to64();
            assert(pow2(63) == 0x8000_0000_0000_0000) by {
                vstd::arithmetic::power2::lemma2_to64_rest();
            }
            assert(v / 128 < 0x8000_0000_0000_0000 * 128);
            assert(false) by (nonlinear_arith)
                requires
                    v / 128 < 0x8000_0000_0000_0000 * 128,
                    v / 128 >= pow128(9) * 128,
                    pow128(9) == 0x8000_0000_0000_0000,
                    v <= 0xffff_ffff_ffff_ffff,
            ;
        }
    }
}

/// Decoding the LEB128 encoding of `v`, whatever follows it, gives back `v` and consumes
/// exactly the encoding.
pub proof fn lemma_leb128_roundtrip(v: u64, rest: Seq<u8>)
    ensures
        spec_decode_leb128(leb128(v) + rest) == Ok::<(u64, nat), DecodeError>(
            (v, leb128(v).len()),
        ),
        1 <= leb128(v).len() <= 10,
{
    let e = leb128(v);
    let s = e + rest;
    lemma_leb128_shape(v);
    lemma_leb_extent_skip(s, 0, (e.len() - 1) as nat);
    assert(s[e.len() - 1] == e.last());
    assert(leb_extent(s, (e.len() - 1) as nat) == Ok::<nat, DecodeError>(e.len()));
    assert(s.take(e.len() as int) =~= e);
    vstd::arithmetic::div_mod::lemma_small_mod(v as nat, two_pow_64());
}

/// Zigzag decoding undoes zigzag encoding.
pub proof fn lemma_zigzag_roundtrip(n: i64)
    ensures
        spec_unzigzag(spec_zigzag(n as int)) == n,
{
}

/// Zigzag encoding undoes zigzag decoding.
pub proof fn lemma_unzigzag_roundtrip(u: u64)
    ensures
        spec_zigzag(spec_unzigzag(u as int)) == u,
{
}

} // verus!
