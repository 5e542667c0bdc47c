//! Maps `{K: V}`: their entries, each a key then its value, with the count in front
//! (left out, inside a field, when keys and values both have a fixed size); no key is kept
//! twice, the last entry of a key winning.
use vstd::prelude::*;

use crate::codec::{Decode, DecodeResult, Encode, WireType};
use crate::error::DecodeError;
use crate::leb128::consumed;
use crate::message::lemma_skip_bytes;
use crate::text::str_eq;
use crate::wire;

verus! {

// ============================================================================
// One entry: a key, then its value
// ============================================================================
/// The fixed size of an entry: the key's and the value's added, when both are fixed (and the
/// sum fits in `usize`).
pub open spec fn entry_fixed_size(k: Option<usize>, v: Option<usize>) -> Option<usize> {
    match (k, v) {
        (Some(a), Some(b)) => if a + b <= usize::MAX {
            Some((a + b) as usize)
        } else {
            None
        },
        _ => None,
    }
}

/// A map entry encodes as its key, then its value. It only stands inside a map; as a field of
/// its own it would be length-delimited bytes.
impl<K: WireType, V: WireType> WireType for (K, V) {
    const WIRE_TYPE: u8 = wire::BYTES;

    open spec fn spec_fixed_size() -> Option<usize> {
        entry_fixed_size(K::spec_fixed_size(), V::spec_fixed_size())
    }

    fn fixed_size() -> (r: Option<usize>) {
        match (K::fixed_size(), V::fixed_size()) {
            (Some(a), Some(b)) => a.checked_add(b),
            _ => None,
        }
    }

    open spec fn spec_encode(e: (<K as DeepView>::V, <V as DeepView>::V)) -> Seq<u8> {
        K::spec_encode(e.0) + V::spec_encode(e.1)
    }

    open spec fn spec_encode_delimited(e: (<K as DeepView>::V, <V as DeepView>::V)) -> Seq<u8> {
        Self::spec_encode(e)
    }

    proof fn lemma_fixed_size_positive() {
        K::lemma_fixed_size_positive();
    }
}

impl<K: Encode, V: Encode> Encode for (K, V) {
    fn encode(&self, buf: &mut Vec<u8>) {
        self.0.encode(buf);
        self.1.encode(buf);
        assert(buf@ =~= old(buf)@ + Self::spec_encode(self.deep_view()));
    }

    fn encode_delimited(&self, buf: &mut Vec<u8>) {
        self.encode(buf);
    }
}

impl<K: Decode, V: Decode> Decode for (K, V) {
    /// The key, then the value after it.
    open spec fn spec_decode(s: Seq<u8>) -> DecodeResult<(<K as DeepView>::V, <V as DeepView>::V)> {
        match K::spec_decode(s) {
            Ok((k, n)) => match V::spec_decode(s.skip(n as int)) {
                Ok((v, m)) => Ok(((k, v), n + m)),
                Err(e) => Err(e),
            },
            Err(e) => Err(e),
        }
    }

    open spec fn spec_decode_delimited(len: usize, s: Seq<u8>) -> DecodeResult<
        (<K as DeepView>::V, <V as DeepView>::V),
    > {
        Self::spec_decode(s)
    }

    open spec fn spec_fits(e: (<K as DeepView>::V, <V as DeepView>::V)) -> bool {
        &&& K::spec_fits(e.0)
        &&& V::spec_fits(e.1)
        &&& Self::spec_encode(e).len() <= usize::MAX
    }

    fn decode(buf: &mut &[u8]) -> (res: Result<Self, DecodeError>) {
        let ghost start = buf@;
        let k = match K::decode(buf) {
            Ok(k) => k,
            Err(e) => return Err(e),
        };
        let ghost mid = buf@;
        assert(mid =~= start.skip(consumed(start, mid) as int));
        let v = match V::decode(buf) {
            Ok(v) => v,
            Err(e) => {
                assert(buf@ =~= start.subrange(start.len() - buf@.len(), start.len() as int));
                return Err(e);
            },
        };
        assert(buf@ =~= start.skip(consumed(start, buf@) as int));
        assert(buf@ =~= start.subrange(start.len() - buf@.len(), start.len() as int));
        assert(consumed(start, buf@) == consumed(start, mid) + consumed(mid, buf@));
        assert((k, v).deep_view() == (k.deep_view(), v.deep_view()));
        Ok((k, v))
    }

    fn decode_delimited(len: usize, buf: &mut &[u8]) -> (res: Result<Self, DecodeError>) {
        Self::decode(buf)
    }

    proof fn lemma_decode_encode(e: (<K as DeepView>::V, <V as DeepView>::V), rest: Seq<u8>) {
        let ek = K::spec_encode(e.0);
        let ev = V::spec_encode(e.1);
        K::lemma_decode_encode(e.0, ev + rest);
        V::lemma_decode_encode(e.1, rest);
        assert(ek + ev + rest =~= ek + (ev + rest));
        assert((ek + (ev + rest)).skip(ek.len() as int) =~= ev + rest);
    }

    proof fn lemma_decode_encode_delimited(
        e: (<K as DeepView>::V, <V as DeepView>::V),
        rest: Seq<u8>,
    ) {
        Self::lemma_decode_encode(e, rest);
    }

    proof fn lemma_fixed_size(e: (<K as DeepView>::V, <V as DeepView>::V)) {
        K::lemma_fixed_size(e.0);
        V::lemma_fixed_size(e.1);
    }

    proof fn lemma_skip_field_value(e: (<K as DeepView>::V, <V as DeepView>::V), rest: Seq<u8>) {
        lemma_skip_bytes(Self::spec_encode(e), rest);
    }
}

// ============================================================================
// Keys
// ============================================================================
/// Types whose values can be told apart, as map keys must be: two values are equal exactly
/// when their deep views are.
pub trait KeyEq: DeepView + Sized {
    /// Whether `self` and `other` are the same key.
    fn key_eq(&self, other: &Self) -> (r: bool)
        ensures
            r == (self.deep_view() == other.deep_view()),
    ;
}

impl KeyEq for bool {
    fn key_eq(&self, other: &Self) -> (r: bool) {
        *self == *other
    }
}

impl KeyEq for u8 {
    fn key_eq(&self, other: &Self) -> (r: bool) {
        *self == *other
    }
}

impl KeyEq for i8 {
    fn key_eq(&self, other: &Self) -> (r: bool) {
        *self == *other
    }
}

impl KeyEq for u16 {
    fn key_eq(&self, other: &Self) -> (r: bool) {
        *self == *other
    }
}

impl KeyEq for u32 {
    fn key_eq(&self, other: &Self) -> (r: bool) {
        *self == *other
    }
}

impl KeyEq for u64 {
    fn key_eq(&self, other: &Self) -> (r: bool) {
        *self == *other
    }
}

impl KeyEq for i16 {
    fn key_eq(&self, other: &Self) -> (r: bool) {
        *self == *other
    }
}

impl KeyEq for i32 {
    fn key_eq(&self, other: &Self) -> (r: bool) {
        *self == *other
    }
}

impl KeyEq for i64 {
    fn key_eq(&self, other: &Self) -> (r: bool) {
        *self == *other
    }
}

impl KeyEq for String {
    fn key_eq(&self, other: &Self) -> (r: bool) {
        str_eq(self.as_str(), other.as_str())
    }
}

impl<T: KeyEq> KeyEq for Vec<T> {
    fn key_eq(&self, other: &Self) -> (r: bool) {
        if self.len() != other.len() {
            return false;
        }
        let mut i: usize = 0;
        while i < self.len()
            invariant
                i <= self.len(),
                self.len() == other.len(),
                forall|j: int| 0 <= j < i ==> self@[j].deep_view() == other@[j].deep_view(),
            decreases self.len() - i,
        {
            if !self[i].key_eq(&other[i]) {
                assert(self.deep_view()[i as int] != other.deep_view()[i as int]);
                return false;
            }
            i = i + 1;
        }
        assert(self.deep_view() =~= other.deep_view());
        true
    }
}

// ============================================================================
// Repeated keys
// ============================================================================
/// Whether an entry after the `i`-th has the same key.
pub open spec fn later_key<A, B>(s: Seq<(A, B)>, i: int) -> bool {
    exists|j: int| i < j < s.len() && (#[trigger] s[j]).0 == s[i].0
}

/// The entries from the `i`-th on that no later entry repeats the key of, in order.
pub open spec fn last_entries_from<A, B>(s: Seq<(A, B)>, i: int) -> Seq<(A, B)>
    decreases s.len() - i,
{
    if i < 0 || i >= s.len() {
        Seq::empty()
    } else if later_key(s, i) {
        last_entries_from(s, i + 1)
    } else {
        seq![s[i]] + last_entries_from(s, i + 1)
    }
}

/// The entries that no later entry repeats the key of, in order: for each key, its last
/// entry, as inserting the entries into a map in order keeps it.
pub open spec fn last_entries<A, B>(s: Seq<(A, B)>) -> Seq<(A, B)> {
    last_entries_from(s, 0)
}

/// Whether `s` holds an entry with the key `x`.
pub open spec fn has_key<A, B>(s: Seq<(A, B)>, x: A) -> bool {
    exists|k: int| 0 <= k < s.len() && (#[trigger] s[k]).0 == x
}

/// No two entries have the same key.
pub open spec fn keys_distinct<A, B>(s: Seq<(A, B)>) -> bool {
    forall|i: int, j: int| 0 <= i < j < s.len() ==> (#[trigger] s[i]).0 != (#[trigger] s[j]).0
}

/// The kept entries from `i` on have exactly the keys of the entries from `i` on, each once,
/// and each is an entry that no later entry repeats the key of.
proof fn lemma_last_entries_from<A, B>(s: Seq<(A, B)>, i: int)
    requires
        0 <= i <= s.len(),
    ensures
        forall|x: A|
            has_key(last_entries_from(s, i), x) <==> exists|j: int| i <= j < s.len() && (#[trigger] s[j]).0 == x,
        keys_distinct(last_entries_from(s, i)),
        forall|k: int|
            0 <= k < last_entries_from(s, i).len() ==> exists|j: int|
                i <= j < s.len() && s[j] == #[trigger] last_entries_from(s, i)[k] && !later_key(s, j),
    decreases s.len() - i,
{
    if i < s.len() {
        lemma_last_entries_from(s, i + 1);
        let r = last_entries_from(s, i + 1);
        let t = last_entries_from(s, i);
        if later_key(s, i) {
            assert forall|x: A| has_key(t, x) <==> exists|j: int| i <= j < s.len() && (#[trigger] s[j]).0 == x by {
                if exists|j: int| i <= j < s.len() && (#[trigger] s[j]).0 == x {
                    let j = choose|j: int| i <= j < s.len() && (#[trigger] s[j]).0 == x;
                    if j == i {
                        let l = choose|l: int| i < l < s.len() && (#[trigger] s[l]).0 == s[i].0;
                        assert(s[l].0 == x);
                    } else {
                        assert(s[j].0 == x);
                    }
                }
            }
        } else {
            assert(t == seq![s[i]] + r);
            assert forall|x: A| has_key(t, x) <==> exists|j: int| i <= j < s.len() && (#[trigger] s[j]).0 == x by {
                if has_key(t, x) {
                    let k = choose|k: int| 0 <= k < t.len() && (#[trigger] t[k]).0 == x;
                    if k == 0 {
                        assert(s[i].0 == x);
                    } else {
                        assert(r[k - 1].0 == x);
                        assert(has_key(r, x));
                    }
                }
                if exists|j: int| i <= j < s.len() && (#[trigger] s[j]).0 == x {
                    let j = choose|j: int| i <= j < s.len() && (#[trigger] s[j]).0 == x;
                    if j == i {
                        assert(t[0].0 == x);
                    } else {
                        assert(s[j].0 == x);
                        assert(has_key(r, x));
                        let k = choose|k: int| 0 <= k < r.len() && (#[trigger] r[k]).0 == x;
                        assert(t[k + 1] == r[k]);
                    }
                }
            }
            assert forall|a: int, b: int| 0 <= a < b < t.len() implies (#[trigger] t[a]).0 != (#[trigger] t[b]).0 by {
                if a == 0 {
                    assert(t[b] == r[b - 1]);
                    if t[b].0 == s[i].0 {
                        assert(has_key(r, s[i].0));
                        let j = choose|j: int| i + 1 <= j < s.len() && (#[trigger] s[j]).0 == s[i].0;
                        assert(later_key(s, i));
                    }
                } else {
                    assert(t[a] == r[a - 1] && t[b] == r[b - 1]);
                }
            }
            assert forall|k: int| 0 <= k < t.len() implies exists|j: int|
                i <= j < s.len() && s[j] == #[trigger] t[k] && !later_key(s, j) by {
                if k == 0 {
                    assert(s[i] == t[0]);
                } else {
                    assert(t[k] == r[k - 1]);
                    let j = choose|j: int| i + 1 <= j < s.len() && s[j] == #[trigger] r[k - 1] && !later_key(s, j);
                    assert(s[j] == t[k]);
                }
            }
        }
    }
}

/// Entries with distinct keys are all kept.
proof fn lemma_last_entries_distinct<A, B>(s: Seq<(A, B)>, i: int)
    requires
        0 <= i <= s.len(),
        keys_distinct(s),
    ensures
        last_entries_from(s, i) == s.skip(i),
    decreases s.len() - i,
{
    if i < s.len() {
        lemma_last_entries_distinct(s, i + 1);
        assert(!later_key(s, i)) by {
            if later_key(s, i) {
                let j = choose|j: int| i < j < s.len() && (#[trigger] s[j]).0 == s[i].0;
                assert(s[i].0 != s[j].0);
            }
        }
        assert(s.skip(i) =~= seq![s[i]] + s.skip(i + 1));
    } else {
        assert(s.skip(i) =~= Seq::<(A, B)>::empty());
    }
}

/// What keeping the last entry of each key does: the keys are distinct, they are the keys of
/// all the entries, each kept entry is one that no later entry repeats the key of, and entries
/// whose keys are already distinct are kept as they are.
pub proof fn law_last_entries<A, B>(s: Seq<(A, B)>)
    ensures
        keys_distinct(last_entries(s)),
        forall|x: A| has_key(last_entries(s), x) <==> has_key(s, x),
        forall|k: int|
            0 <= k < last_entries(s).len() ==> exists|j: int|
                0 <= j < s.len() && s[j] == #[trigger] last_entries(s)[k] && !later_key(s, j),
        keys_distinct(s) ==> last_entries(s) == s,
{
    lemma_last_entries_from(s, 0);
    if keys_distinct(s) {
        lemma_last_entries_distinct(s, 0);
        assert(s.skip(0) =~= s);
    }
}

/// Keeps, for each key, its last entry, in order.
fn keep_last<K: KeyEq, V: DeepView>(entries: Vec<(K, V)>) -> (r: Vec<(K, V)>)
    ensures
        r.deep_view() == last_entries(entries.deep_view()),
{
    let ghost s = entries.deep_view();
    let mut rest = entries;
    let mut out: Vec<(K, V)> = Vec::new();
    assert(out.deep_view() =~= last_entries_from(s, s.len() as int));
    assert(rest.deep_view() =~= s.take(s.len() as int));
    while rest.len() > 0
        invariant
            rest.len() <= s.len(),
            rest.deep_view() == s.take(rest.len() as int),
            out.deep_view() == last_entries_from(s, rest.len() as int),
        decreases rest.len(),
    {
        let ghost before = rest.deep_view();
        let e = rest.pop().unwrap();
        let i = rest.len();
        proof {
            assert(before[i as int] == e.deep_view());
            assert(rest.deep_view() =~= s.take(i as int));
            lemma_last_entries_from(s, i + 1);
        }
        let mut found = false;
        let mut k: usize = 0;
        while k < out.len()
            invariant
                k <= out.len(),
                found == exists|l: int| 0 <= l < k && (#[trigger] out.deep_view()[l]).0 == e.0.deep_view(),
            decreases out.len() - k,
        {
            if out[k].0.key_eq(&e.0) {
                found = true;
            }
            assert(out.deep_view()[k as int] == out@[k as int].deep_view());
            k = k + 1;
        }
        proof {
            let x = e.0.deep_view();
            assert(s[i as int].0 == x);
            assert(found == has_key(last_entries_from(s, i + 1), x));
            assert(found == later_key(s, i as int));
        }
        if !found {
            let ghost old_out = out.deep_view();
            out.insert(0, e);
            assert(out.deep_view() =~= seq![s[i as int]] + old_out);
        }
    }
    out
}

// ============================================================================
// Maps
// ============================================================================
/// A map `{K: V}`, held as its entries in the order they are written and read; no two have the
/// same key. Its encoding is that of an array of entries: the count in LEB128, then each key
/// and its value; inside a field, when keys and values both have a fixed size, the count is
/// left out and follows from the byte length.
#[derive(Debug)]
pub struct MapEntries<K: DeepView, V: DeepView> {
    entries: Vec<(K, V)>,
}

impl<K: DeepView, V: DeepView> DeepView for MapEntries<K, V> {
    type V = Seq<(<K as DeepView>::V, <V as DeepView>::V)>;

    closed spec fn deep_view(&self) -> Self::V {
        self.entries.deep_view()
    }
}

impl<K: KeyEq, V: DeepView> MapEntries<K, V> {
    /// The map of the given entries: for each key, its last entry, in order.
    pub fn new(entries: Vec<(K, V)>) -> (r: Self)
        ensures
            r.deep_view() == last_entries(entries.deep_view()),
    {
        let kept = keep_last(entries);
        proof {
            law_last_entries(entries.deep_view());
        }
        MapEntries { entries: kept }
    }
}

impl<K: DeepView, V: DeepView> MapEntries<K, V> {
    /// No two entries have the same key.
    #[verifier::type_invariant]
    spec fn wf(self) -> bool {
        keys_distinct(self.entries.deep_view())
    }

    /// The entries, in order; no two have the same key.
    pub fn entries(&self) -> (r: &Vec<(K, V)>)
        ensures
            r.deep_view() == self.deep_view(),
            keys_distinct(self.deep_view()),
    {
        proof {
            use_type_invariant(self);
        }
        &self.entries
    }
}

impl<K: WireType, V: WireType> WireType for MapEntries<K, V> {
    const WIRE_TYPE: u8 = wire::BYTES;

    open spec fn spec_fixed_size() -> Option<usize> {
        None
    }

    fn fixed_size() -> (r: Option<usize>) {
        None
    }

    /// The count in LEB128, then each key and its value.
    open spec fn spec_encode(v: Seq<(<K as DeepView>::V, <V as DeepView>::V)>) -> Seq<u8> {
        <Vec<(K, V)> as WireType>::spec_encode(v)
    }

    /// Fixed-size entries alone (their count follows from the byte length); otherwise the
    /// count, then the entries.
    open spec fn spec_encode_delimited(v: Seq<(<K as DeepView>::V, <V as DeepView>::V)>) -> Seq<
        u8,
    > {
        <Vec<(K, V)> as WireType>::spec_encode_delimited(v)
    }

    proof fn lemma_fixed_size_positive() {
    }
}

impl<K: Encode, V: Encode> Encode for MapEntries<K, V> {
    fn encode(&self, buf: &mut Vec<u8>) {
        self.entries.encode(buf);
    }

    fn encode_delimited(&self, buf: &mut Vec<u8>) {
        self.entries.encode_delimited(buf);
    }
}

/// A map decoded as its entries: for each key, the last entry read.
pub open spec fn keep_last_decoded<A, B>(r: DecodeResult<Seq<(A, B)>>) -> DecodeResult<Seq<(A, B)>> {
    match r {
        Ok((v, n)) => Ok((last_entries(v), n)),
        Err(e) => Err(e),
    }
}

impl<K: Decode + KeyEq, V: Decode> Decode for MapEntries<K, V> {
    /// The count in LEB128, then that many entries, each a key and its value; where a key is
    /// read more than once, its last entry is kept.
    open spec fn spec_decode(s: Seq<u8>) -> DecodeResult<Seq<(<K as DeepView>::V, <V as DeepView>::V)>> {
        keep_last_decoded(<Vec<(K, V)> as Decode>::spec_decode(s))
    }

    /// Within the `len` bytes: for fixed-size entries, `len / (key size + value size)` entries
    /// (`InvalidLength` when `len` is not a multiple of that size); otherwise a count in LEB128
    /// and that many entries; `UnexpectedEof` when fewer than `len` bytes are left. Where a key
    /// is read more than once, its last entry is kept.
    open spec fn spec_decode_delimited(len: usize, s: Seq<u8>) -> DecodeResult<
        Seq<(<K as DeepView>::V, <V as DeepView>::V)>,
    > {
        keep_last_decoded(<Vec<(K, V)> as Decode>::spec_decode_delimited(len, s))
    }

    /// Maps that fit the machine and have no key twice.
    open spec fn spec_fits(v: Seq<(<K as DeepView>::V, <V as DeepView>::V)>) -> bool {
        <Vec<(K, V)> as Decode>::spec_fits(v) && keys_distinct(v)
    }

    fn decode(buf: &mut &[u8]) -> (res: Result<Self, DecodeError>) {
        match <Vec<(K, V)> as Decode>::decode(buf) {
            Ok(entries) => {
                let ghost read = entries.deep_view();
                let kept = keep_last(entries);
                proof {
                    law_last_entries(read);
                }
                Ok(MapEntries { entries: kept })
            },
            Err(e) => Err(e),
        }
    }

    fn decode_delimited(len: usize, buf: &mut &[u8]) -> (res: Result<Self, DecodeError>)
        ensures
            res is Err ==> final(buf)@ == old(buf)@,
    {
        match <Vec<(K, V)> as Decode>::decode_delimited(len, buf) {
            Ok(entries) => {
                let ghost read = entries.deep_view();
                let kept = keep_last(entries);
                proof {
                    law_last_entries(read);
                }
                Ok(MapEntries { entries: kept })
            },
            Err(e) => Err(e),
        }
    }

    proof fn lemma_decode_encode(v: Seq<(<K as DeepView>::V, <V as DeepView>::V)>, rest: Seq<u8>) {
        <Vec<(K, V)> as Decode>::lemma_decode_encode(v, rest);
        law_last_entries(v);
    }

    proof fn lemma_decode_encode_delimited(
        v: Seq<(<K as DeepView>::V, <V as DeepView>::V)>,
        rest: Seq<u8>,
    ) {
        <Vec<(K, V)> as Decode>::lemma_decode_encode_delimited(v, rest);
        law_last_entries(v);
    }

    proof fn lemma_fixed_size(v: Seq<(<K as DeepView>::V, <V as DeepView>::V)>) {
    }

    proof fn lemma_skip_field_value(v: Seq<(<K as DeepView>::V, <V as DeepView>::V)>, rest: Seq<u8>) {
        Self::lemma_decode_encode_delimited(v, rest);
        lemma_skip_bytes(Self::spec_encode_delimited(v), rest);
    }
}

/// A map, as the wire format's table gives it, and a map entry are written as BYTES.
pub proof fn lemma_map_wire_types<K: WireType, V: WireType>()
    ensures
        <MapEntries<K, V> as WireType>::WIRE_TYPE == wire::BYTES,
        <(K, V) as WireType>::WIRE_TYPE == wire::BYTES,
{
}

} // verus!
