//! The wire encoding of messages, as mathematics.
//!
//! Every message is encoded in protocol-buffer wire style: a field is a
//! one-byte tag (field number shifted left by three, or-ed with the wire
//! type) followed by either a varint or a length-prefixed block. The encoder
//! always writes every field of a message in field-number order, and the
//! decoder accepts exactly that canonical layout, so that every message has
//! one encoding and every accepted byte string one meaning.

use vstd::prelude::*;
use vstd::utf8::{decode_utf8, encode_utf8, valid_utf8};
use crate::msg::{
    HdelV, HexistV, HgetV, HgetallV, HmdelV, HmexistV, HmgetV, HmsetV, HsetV, PublishV, ReqV,
    RequestDataV, RespV, SubscribeV, UnsubscribeV,
};
use crate::value::{KvpairV, ValueV, VariantV};
use crate::wire::{
    lemma_dec_bytes_bounds, lemma_bytes_round_trip, lemma_varint_round_trip, spec_dec_bytes,
    spec_dec_varint, spec_enc_bytes, spec_enc_varint,
};

verus! {

/// A length-delimited field: its tag byte, then the length-prefixed body.
pub open spec fn spec_enc_field(tag: u8, body: Seq<u8>) -> Seq<u8> {
    seq![tag] + spec_enc_bytes(body)
}

/// A string field: the body is the UTF-8 encoding of the characters.
pub open spec fn spec_enc_str_field(tag: u8, s: Seq<char>) -> Seq<u8> {
    spec_enc_field(tag, encode_utf8(s))
}

/// A varint field: its tag byte, then the varint.
pub open spec fn spec_enc_varint_field(tag: u8, n: nat) -> Seq<u8> {
    seq![tag] + spec_enc_varint(n)
}

/// Reads a length-delimited field with the given tag at position `i`.
pub open spec fn spec_dec_field(b: Seq<u8>, i: int, tag: u8) -> Option<(Seq<u8>, int)> {
    if 0 <= i < b.len() && b[i] == tag {
        spec_dec_bytes(b, i + 1)
    } else {
        None
    }
}

/// Reads a string field with the given tag at position `i`.
pub open spec fn spec_dec_str_field(b: Seq<u8>, i: int, tag: u8) -> Option<(Seq<char>, int)> {
    match spec_dec_field(b, i, tag) {
        None => None,
        Some((data, j)) => if valid_utf8(data) {
            Some((decode_utf8(data), j))
        } else {
            None
        },
    }
}

/// Reads a varint field with the given tag at position `i`.
pub open spec fn spec_dec_varint_field(b: Seq<u8>, i: int, tag: u8) -> Option<(nat, int)> {
    if 0 <= i < b.len() && b[i] == tag {
        spec_dec_varint(b, i + 1)
    } else {
        None
    }
}

/// A decoded field ends past where it starts and within the buffer.
pub proof fn lemma_dec_field_bounds(b: Seq<u8>, i: int, tag: u8)
    ensures
        spec_dec_field(b, i, tag) matches Some((data, j)) ==> i < j <= b.len(),
{
    lemma_dec_bytes_bounds(b, i + 1);
}

/// Reading a field where one was laid down yields its body and stops just
/// past it.
pub proof fn lemma_field_round_trip(b: Seq<u8>, i: int, tag: u8, body: Seq<u8>)
    requires
        0 <= i,
        i + spec_enc_field(tag, body).len() <= b.len(),
        b.subrange(i, i + spec_enc_field(tag, body).len() as int) == spec_enc_field(tag, body),
    ensures
        spec_dec_field(b, i, tag) == Some((body, i + spec_enc_field(tag, body).len() as int)),
{
    let e = spec_enc_field(tag, body);
    let inner = spec_enc_bytes(body);
    assert(b[i] == b.subrange(i, i + e.len() as int)[0]);
    assert(b[i] == tag);
    assert(b.subrange(i + 1, i + 1 + inner.len() as int) =~= inner) by {
        assert forall|k: int| 0 <= k < inner.len() implies b[i + 1 + k] == inner[k] by {
            assert(b.subrange(i, i + e.len() as int)[k + 1] == e[k + 1]);
        }
    }
    lemma_bytes_round_trip(b, i + 1, body);
}

/// Reading a string field where one was laid down yields the characters and
/// stops just past the field.
pub proof fn lemma_str_field_round_trip(b: Seq<u8>, i: int, tag: u8, s: Seq<char>)
    requires
        0 <= i,
        i + spec_enc_str_field(tag, s).len() <= b.len(),
        b.subrange(i, i + spec_enc_str_field(tag, s).len() as int) == spec_enc_str_field(tag, s),
    ensures
        spec_dec_str_field(b, i, tag) == Some((s, i + spec_enc_str_field(tag, s).len() as int)),
{
    lemma_field_round_trip(b, i, tag, encode_utf8(s));
    vstd::utf8::encode_utf8_valid_utf8(s);
    vstd::utf8::encode_utf8_decode_utf8(s);
}

/// Reading a varint field where one was laid down yields the number and stops
/// just past the field.
pub proof fn lemma_varint_field_round_trip(b: Seq<u8>, i: int, tag: u8, n: nat)
    requires
        0 <= i,
        i + spec_enc_varint_field(tag, n).len() <= b.len(),
        b.subrange(i, i + spec_enc_varint_field(tag, n).len() as int) == spec_enc_varint_field(
            tag,
            n,
        ),
    ensures
        spec_dec_varint_field(b, i, tag) == Some((n, i + spec_enc_varint_field(tag, n).len() as int)),
{
    let e = spec_enc_varint_field(tag, n);
    let inner = spec_enc_varint(n);
    assert(b[i] == b.subrange(i, i + e.len() as int)[0]);
    assert(b[i] == tag);
    assert(b.subrange(i + 1, i + 1 + inner.len() as int) =~= inner) by {
        assert forall|k: int| 0 <= k < inner.len() implies b[i + 1 + k] == inner[k] by {
            assert(b.subrange(i, i + e.len() as int)[k + 1] == e[k + 1]);
        }
    }
    lemma_varint_round_trip(b, i + 1, n);
}

/// Splitting an encoding laid down at `i` into its first part and the rest:
/// the prefix of the concatenation is itself laid down at `i`, and the suffix
/// at `i` plus the prefix length.
pub proof fn lemma_split_concat(b: Seq<u8>, i: int, x: Seq<u8>, y: Seq<u8>)
    requires
        0 <= i,
        i + x.len() + y.len() <= b.len(),
        b.subrange(i, i + x.len() + y.len()) == x + y,
    ensures
        b.subrange(i, i + x.len() as int) == x,
        b.subrange(i + x.len() as int, i + x.len() + y.len()) == y,
{
    assert(b.subrange(i, i + x.len() as int) =~= x) by {
        assert forall|k: int| 0 <= k < x.len() implies b[i + k] == x[k] by {
            assert(0 <= k < x.len() + y.len());
            assert(b.subrange(i, i + x.len() + y.len())[k] == b[i + k]);
            assert(b.subrange(i, i + x.len() + y.len())[k] == (x + y)[k]);
            assert((x + y)[k] == x[k]);
        }
    }
    assert(b.subrange(i + x.len() as int, i + x.len() + y.len()) =~= y) by {
        assert forall|k: int| 0 <= k < y.len() implies b[i + x.len() + k] == y[k] by {
            let m = x.len() + k;
            assert(0 <= m < x.len() + y.len());
            assert(b.subrange(i, i + x.len() + y.len())[m] == b[i + m]);
            assert(b.subrange(i, i + x.len() + y.len())[m] == (x + y)[m]);
            assert((x + y)[m] == y[k]);
        }
    }
}

// ---------------------------------------------------------------------------
// Value
// ---------------------------------------------------------------------------

/// Tag bytes of the value message: string 1, binary 2, integer 3, float 4,
/// boolean 5.
pub open spec fn spec_enc_value(v: ValueV) -> Seq<u8> {
    match v.val {
        None => Seq::<u8>::empty(),
        Some(VariantV::Str(s)) => spec_enc_str_field(0x0A, s),
        Some(VariantV::Bin(d)) => spec_enc_field(0x12, d),
        Some(VariantV::Int(i)) => spec_enc_varint_field(0x18, (i as u64) as nat),
        Some(VariantV::Float(f)) => spec_enc_varint_field(0x20, f as nat),
        Some(VariantV::Bool(x)) => spec_enc_varint_field(0x28, if x { 1nat } else { 0nat }),
    }
}

/// Decodes a whole value body: empty means "no value"; otherwise exactly one
/// variant field filling the body.
pub open spec fn spec_dec_value(b: Seq<u8>) -> Option<ValueV> {
    if b.len() == 0 {
        Some(ValueV { val: None })
    } else if b[0] == 0x0A {
        match spec_dec_str_field(b, 0, 0x0A) {
            Some((s, j)) => if j == b.len() {
                Some(ValueV { val: Some(VariantV::Str(s)) })
            } else {
                None
            },
            None => None,
        }
    } else if b[0] == 0x12 {
        match spec_dec_field(b, 0, 0x12) {
            Some((d, j)) => if j == b.len() {
                Some(ValueV { val: Some(VariantV::Bin(d)) })
            } else {
                None
            },
            None => None,
        }
    } else if b[0] == 0x18 {
        match spec_dec_varint_field(b, 0, 0x18) {
            Some((n, j)) => if j == b.len() && n <= u64::MAX {
                Some(ValueV { val: Some(VariantV::Int((n as u64) as i64)) })
            } else {
                None
            },
            None => None,
        }
    } else if b[0] == 0x20 {
        match spec_dec_varint_field(b, 0, 0x20) {
            Some((n, j)) => if j == b.len() && n <= u64::MAX {
                Some(ValueV { val: Some(VariantV::Float(n as u64)) })
            } else {
                None
            },
            None => None,
        }
    } else if b[0] == 0x28 {
        match spec_dec_varint_field(b, 0, 0x28) {
            Some((n, j)) => if j == b.len() && n <= 1 {
                Some(ValueV { val: Some(VariantV::Bool(n == 1)) })
            } else {
                None
            },
            None => None,
        }
    } else {
        None
    }
}

/// Decoding an encoded value yields the value back.
pub proof fn lemma_value_round_trip(v: ValueV)
    ensures
        spec_dec_value(spec_enc_value(v)) == Some(v),
{
    let b = spec_enc_value(v);
    assert(b.subrange(0, b.len() as int) =~= b);
    match v.val {
        None => {},
        Some(VariantV::Str(s)) => {
            lemma_str_field_round_trip(b, 0, 0x0A, s);
        },
        Some(VariantV::Bin(d)) => {
            lemma_field_round_trip(b, 0, 0x12, d);
        },
        Some(VariantV::Int(i)) => {
            lemma_varint_field_round_trip(b, 0, 0x18, (i as u64) as nat);
            assert((((i as u64) as nat) as u64) as i64 == i) by (bit_vector);
        },
        Some(VariantV::Float(f)) => {
            lemma_varint_field_round_trip(b, 0, 0x20, f as nat);
        },
        Some(VariantV::Bool(x)) => {
            lemma_varint_field_round_trip(b, 0, 0x28, if x { 1nat } else { 0nat });
        },
    }
}

// ---------------------------------------------------------------------------
// Kvpair
// ---------------------------------------------------------------------------

/// A pair: the key string as field 1, and — when a value is present — the
/// encoded value as field 2.
pub open spec fn spec_enc_kvpair(p: KvpairV) -> Seq<u8> {
    spec_enc_str_field(0x0A, p.key) + match p.val {
        None => Seq::<u8>::empty(),
        Some(v) => spec_enc_field(0x12, spec_enc_value(v)),
    }
}

/// Decodes a whole pair body.
pub open spec fn spec_dec_kvpair(b: Seq<u8>) -> Option<KvpairV> {
    match spec_dec_str_field(b, 0, 0x0A) {
        None => None,
        Some((key, j)) => if j == b.len() {
            Some(KvpairV { key, val: None })
        } else {
            match spec_dec_field(b, j, 0x12) {
                None => None,
                Some((body, k)) => if k == b.len() {
                    match spec_dec_value(body) {
                        None => None,
                        Some(v) => Some(KvpairV { key, val: Some(v) }),
                    }
                } else {
                    None
                },
            }
        },
    }
}

/// Decoding an encoded pair yields the pair back.
pub proof fn lemma_kvpair_round_trip(p: KvpairV)
    ensures
        spec_dec_kvpair(spec_enc_kvpair(p)) == Some(p),
{
    let b = spec_enc_kvpair(p);
    let head = spec_enc_str_field(0x0A, p.key);
    assert(b.subrange(0, b.len() as int) =~= b);
    match p.val {
        None => {
            assert(b =~= head);
            lemma_str_field_round_trip(b, 0, 0x0A, p.key);
        },
        Some(v) => {
            let tail = spec_enc_field(0x12, spec_enc_value(v));
            lemma_split_concat(b, 0, head, tail);
            lemma_str_field_round_trip(b, 0, 0x0A, p.key);
            lemma_field_round_trip(b, head.len() as int, 0x12, spec_enc_value(v));
            lemma_value_round_trip(v);
        },
    }
}

// ---------------------------------------------------------------------------
// Repeated fields
// ---------------------------------------------------------------------------

/// A run of string fields, all under one tag, in order.
pub open spec fn spec_enc_strs(tag: u8, ks: Seq<Seq<char>>) -> Seq<u8>
    decreases ks.len(),
{
    if ks.len() == 0 {
        Seq::<u8>::empty()
    } else {
        spec_enc_str_field(tag, ks[0]) + spec_enc_strs(tag, ks.drop_first())
    }
}

/// Reads string fields under `tag` at `i` for as long as the next byte is
/// `tag`; never fails once positioned, and stops at the first other byte.
pub open spec fn spec_dec_strs(b: Seq<u8>, i: int, tag: u8) -> Option<(Seq<Seq<char>>, int)>
    decreases b.len() - i,
{
    match spec_dec_str_field(b, i, tag) {
        None => if 0 <= i <= b.len() && (i == b.len() || b[i] != tag) {
            Some((Seq::<Seq<char>>::empty(), i))
        } else {
            None
        },
        Some((s, j)) => if i < j <= b.len() {
            match spec_dec_strs(b, j, tag) {
                None => None,
                Some((rest, k)) => Some((seq![s] + rest, k)),
            }
        } else {
            None
        },
    }
}

/// A run of value fields, all under one tag, in order.
pub open spec fn spec_enc_values(tag: u8, vs: Seq<ValueV>) -> Seq<u8>
    decreases vs.len(),
{
    if vs.len() == 0 {
        Seq::<u8>::empty()
    } else {
        spec_enc_field(tag, spec_enc_value(vs[0])) + spec_enc_values(tag, vs.drop_first())
    }
}

/// Reads value fields under `tag` at `i` for as long as the next byte is
/// `tag`.
pub open spec fn spec_dec_values(b: Seq<u8>, i: int, tag: u8) -> Option<(Seq<ValueV>, int)>
    decreases b.len() - i,
{
    match spec_dec_field(b, i, tag) {
        None => if 0 <= i <= b.len() && (i == b.len() || b[i] != tag) {
            Some((Seq::<ValueV>::empty(), i))
        } else {
            None
        },
        Some((body, j)) => if i < j <= b.len() {
            match spec_dec_value(body) {
                None => None,
                Some(v) => match spec_dec_values(b, j, tag) {
                    None => None,
                    Some((rest, k)) => Some((seq![v] + rest, k)),
                },
            }
        } else {
            None
        },
    }
}

/// A run of pair fields, all under one tag, in order.
pub open spec fn spec_enc_pairs(tag: u8, ps: Seq<KvpairV>) -> Seq<u8>
    decreases ps.len(),
{
    if ps.len() == 0 {
        Seq::<u8>::empty()
    } else {
        spec_enc_field(tag, spec_enc_kvpair(ps[0])) + spec_enc_pairs(tag, ps.drop_first())
    }
}

/// Reads pair fields under `tag` at `i` for as long as the next byte is
/// `tag`.
pub open spec fn spec_dec_pairs(b: Seq<u8>, i: int, tag: u8) -> Option<(Seq<KvpairV>, int)>
    decreases b.len() - i,
{
    match spec_dec_field(b, i, tag) {
        None => if 0 <= i <= b.len() && (i == b.len() || b[i] != tag) {
            Some((Seq::<KvpairV>::empty(), i))
        } else {
            None
        },
        Some((body, j)) => if i < j <= b.len() {
            match spec_dec_kvpair(body) {
                None => None,
                Some(p) => match spec_dec_pairs(b, j, tag) {
                    None => None,
                    Some((rest, k)) => Some((seq![p] + rest, k)),
                },
            }
        } else {
            None
        },
    }
}

/// Reading a run of string fields where one was laid down — followed by the
/// end of the buffer or a byte that is not the tag — yields the strings in
/// order.
pub proof fn lemma_strs_round_trip(b: Seq<u8>, i: int, tag: u8, ks: Seq<Seq<char>>)
    requires
        0 <= i,
        i + spec_enc_strs(tag, ks).len() <= b.len(),
        b.subrange(i, i + spec_enc_strs(tag, ks).len() as int) == spec_enc_strs(tag, ks),
        i + spec_enc_strs(tag, ks).len() == b.len() || b[i + spec_enc_strs(tag, ks).len() as int]
            != tag,
    ensures
        spec_dec_strs(b, i, tag) == Some((ks, i + spec_enc_strs(tag, ks).len() as int)),
    decreases ks.len(),
{
    if ks.len() == 0 {
        if 0 <= i < b.len() && b[i] == tag {
            assert(false);
        }
        assert(spec_dec_str_field(b, i, tag) is None);
    } else {
        let head = spec_enc_str_field(tag, ks[0]);
        let tail = spec_enc_strs(tag, ks.drop_first());
        lemma_split_concat(b, i, head, tail);
        lemma_str_field_round_trip(b, i, tag, ks[0]);
        lemma_strs_round_trip(b, i + head.len() as int, tag, ks.drop_first());
        assert(seq![ks[0]] + ks.drop_first() =~= ks);
    }
}

/// Reading a run of value fields where one was laid down — followed by the
/// end of the buffer or a byte that is not the tag — yields the values in
/// order.
pub proof fn lemma_values_round_trip(b: Seq<u8>, i: int, tag: u8, vs: Seq<ValueV>)
    requires
        0 <= i,
        i + spec_enc_values(tag, vs).len() <= b.len(),
        b.subrange(i, i + spec_enc_values(tag, vs).len() as int) == spec_enc_values(tag, vs),
        i + spec_enc_values(tag, vs).len() == b.len() || b[i + spec_enc_values(tag, vs).len() as int]
            != tag,
    ensures
        spec_dec_values(b, i, tag) == Some((vs, i + spec_enc_values(tag, vs).len() as int)),
    decreases vs.len(),
{
    if vs.len() == 0 {
        assert(spec_dec_field(b, i, tag) is None);
    } else {
        let head = spec_enc_field(tag, spec_enc_value(vs[0]));
        let tail = spec_enc_values(tag, vs.drop_first());
        lemma_split_concat(b, i, head, tail);
        lemma_field_round_trip(b, i, tag, spec_enc_value(vs[0]));
        lemma_value_round_trip(vs[0]);
        lemma_values_round_trip(b, i + head.len() as int, tag, vs.drop_first());
        assert(seq![vs[0]] + vs.drop_first() =~= vs);
    }
}

/// Reading a run of pair fields where one was laid down — followed by the
/// end of the buffer or a byte that is not the tag — yields the pairs in
/// order.
pub proof fn lemma_pairs_round_trip(b: Seq<u8>, i: int, tag: u8, ps: Seq<KvpairV>)
    requires
        0 <= i,
        i + spec_enc_pairs(tag, ps).len() <= b.len(),
        b.subrange(i, i + spec_enc_pairs(tag, ps).len() as int) == spec_enc_pairs(tag, ps),
        i + spec_enc_pairs(tag, ps).len() == b.len() || b[i + spec_enc_pairs(tag, ps).len() as int]
            != tag,
    ensures
        spec_dec_pairs(b, i, tag) == Some((ps, i + spec_enc_pairs(tag, ps).len() as int)),
    decreases ps.len(),
{
    if ps.len() == 0 {
        assert(spec_dec_field(b, i, tag) is None);
    } else {
        let head = spec_enc_field(tag, spec_enc_kvpair(ps[0]));
        let tail = spec_enc_pairs(tag, ps.drop_first());
        lemma_split_concat(b, i, head, tail);
        lemma_field_round_trip(b, i, tag, spec_enc_kvpair(ps[0]));
        lemma_kvpair_round_trip(ps[0]);
        lemma_pairs_round_trip(b, i + head.len() as int, tag, ps.drop_first());
        assert(seq![ps[0]] + ps.drop_first() =~= ps);
    }
}


// ---------------------------------------------------------------------------
// Request bodies
// ---------------------------------------------------------------------------

/// A body of two strings: a table name as field 1 and a key as field 2.
pub open spec fn spec_enc_two_str_body(a: Seq<char>, c: Seq<char>) -> Seq<u8> {
    spec_enc_str_field(0x0A, a) + spec_enc_str_field(0x12, c)
}

/// Decodes a whole two-string body.
pub open spec fn spec_dec_two_str_body(b: Seq<u8>) -> Option<(Seq<char>, Seq<char>)> {
    match spec_dec_str_field(b, 0, 0x0A) {
        None => None,
        Some((a, j)) => match spec_dec_str_field(b, j, 0x12) {
            None => None,
            Some((c, k)) => if k == b.len() {
                Some((a, c))
            } else {
                None
            },
        },
    }
}

/// Decoding an encoded two-string body yields both strings back.
pub proof fn lemma_two_str_body_round_trip(a: Seq<char>, c: Seq<char>)
    ensures
        spec_dec_two_str_body(spec_enc_two_str_body(a, c)) == Some((a, c)),
{
    let b = spec_enc_two_str_body(a, c);
    let x = spec_enc_str_field(0x0A, a);
    let y = spec_enc_str_field(0x12, c);
    assert(b.subrange(0, b.len() as int) =~= b);
    lemma_split_concat(b, 0, x, y);
    lemma_str_field_round_trip(b, 0, 0x0A, a);
    lemma_str_field_round_trip(b, x.len() as int, 0x12, c);
}

/// A body of one string: a table or topic name as field 1.
pub open spec fn spec_enc_one_str_body(t: Seq<char>) -> Seq<u8> {
    spec_enc_str_field(0x0A, t)
}

/// Decodes a whole one-string body.
pub open spec fn spec_dec_one_str_body(b: Seq<u8>) -> Option<Seq<char>> {
    match spec_dec_str_field(b, 0, 0x0A) {
        None => None,
        Some((t, j)) => if j == b.len() {
            Some(t)
        } else {
            None
        },
    }
}

/// Decoding an encoded one-string body yields the string back.
pub proof fn lemma_one_str_body_round_trip(t: Seq<char>)
    ensures
        spec_dec_one_str_body(spec_enc_one_str_body(t)) == Some(t),
{
    let b = spec_enc_one_str_body(t);
    assert(b.subrange(0, b.len() as int) =~= b);
    lemma_str_field_round_trip(b, 0, 0x0A, t);
}

/// A body of a table name (field 1) and a run of keys (field 2).
pub open spec fn spec_enc_str_strs_body(t: Seq<char>, ks: Seq<Seq<char>>) -> Seq<u8> {
    spec_enc_str_field(0x0A, t) + spec_enc_strs(0x12, ks)
}

/// Decodes a whole table-and-keys body.
pub open spec fn spec_dec_str_strs_body(b: Seq<u8>) -> Option<(Seq<char>, Seq<Seq<char>>)> {
    match spec_dec_str_field(b, 0, 0x0A) {
        None => None,
        Some((t, j)) => match spec_dec_strs(b, j, 0x12) {
            None => None,
            Some((ks, k)) => if k == b.len() {
                Some((t, ks))
            } else {
                None
            },
        },
    }
}

/// Decoding an encoded table-and-keys body yields both back.
pub proof fn lemma_str_strs_body_round_trip(t: Seq<char>, ks: Seq<Seq<char>>)
    ensures
        spec_dec_str_strs_body(spec_enc_str_strs_body(t, ks)) == Some((t, ks)),
{
    let b = spec_enc_str_strs_body(t, ks);
    let x = spec_enc_str_field(0x0A, t);
    let y = spec_enc_strs(0x12, ks);
    assert(b.subrange(0, b.len() as int) =~= b);
    lemma_split_concat(b, 0, x, y);
    lemma_str_field_round_trip(b, 0, 0x0A, t);
    lemma_strs_round_trip(b, x.len() as int, 0x12, ks);
}

/// The body of a store-one-pair request: the table as field 1 and — when the
/// pair is present — the encoded pair as field 2.
pub open spec fn spec_enc_hset_body(t: Seq<char>, p: Option<KvpairV>) -> Seq<u8> {
    spec_enc_str_field(0x0A, t) + match p {
        None => Seq::<u8>::empty(),
        Some(pp) => spec_enc_field(0x12, spec_enc_kvpair(pp)),
    }
}

/// Decodes a whole store-one-pair body.
pub open spec fn spec_dec_hset_body(b: Seq<u8>) -> Option<(Seq<char>, Option<KvpairV>)> {
    match spec_dec_str_field(b, 0, 0x0A) {
        None => None,
        Some((t, j)) => if j == b.len() {
            Some((t, None))
        } else {
            match spec_dec_field(b, j, 0x12) {
                None => None,
                Some((body, k)) => if k == b.len() {
                    match spec_dec_kvpair(body) {
                        None => None,
                        Some(p) => Some((t, Some(p))),
                    }
                } else {
                    None
                },
            }
        },
    }
}

/// Decoding an encoded store-one-pair body yields table and pair back.
pub proof fn lemma_hset_body_round_trip(t: Seq<char>, p: Option<KvpairV>)
    ensures
        spec_dec_hset_body(spec_enc_hset_body(t, p)) == Some((t, p)),
{
    let b = spec_enc_hset_body(t, p);
    let x = spec_enc_str_field(0x0A, t);
    assert(b.subrange(0, b.len() as int) =~= b);
    match p {
        None => {
            assert(b =~= x);
            lemma_str_field_round_trip(b, 0, 0x0A, t);
        },
        Some(pp) => {
            let y = spec_enc_field(0x12, spec_enc_kvpair(pp));
            lemma_split_concat(b, 0, x, y);
            lemma_str_field_round_trip(b, 0, 0x0A, t);
            lemma_field_round_trip(b, x.len() as int, 0x12, spec_enc_kvpair(pp));
            lemma_kvpair_round_trip(pp);
        },
    }
}

/// A body of a table name (field 1) and a run of pairs (field 2).
pub open spec fn spec_enc_str_pairs_body(t: Seq<char>, ps: Seq<KvpairV>) -> Seq<u8> {
    spec_enc_str_field(0x0A, t) + spec_enc_pairs(0x12, ps)
}

/// Decodes a whole table-and-pairs body.
pub open spec fn spec_dec_str_pairs_body(b: Seq<u8>) -> Option<(Seq<char>, Seq<KvpairV>)> {
    match spec_dec_str_field(b, 0, 0x0A) {
        None => None,
        Some((t, j)) => match spec_dec_pairs(b, j, 0x12) {
            None => None,
            Some((ps, k)) => if k == b.len() {
                Some((t, ps))
            } else {
                None
            },
        },
    }
}

/// Decoding an encoded table-and-pairs body yields both back.
pub proof fn lemma_str_pairs_body_round_trip(t: Seq<char>, ps: Seq<KvpairV>)
    ensures
        spec_dec_str_pairs_body(spec_enc_str_pairs_body(t, ps)) == Some((t, ps)),
{
    let b = spec_enc_str_pairs_body(t, ps);
    let x = spec_enc_str_field(0x0A, t);
    let y = spec_enc_pairs(0x12, ps);
    assert(b.subrange(0, b.len() as int) =~= b);
    lemma_split_concat(b, 0, x, y);
    lemma_str_field_round_trip(b, 0, 0x0A, t);
    lemma_pairs_round_trip(b, x.len() as int, 0x12, ps);
}

/// The body of an unsubscribe request: the topic as field 1 and the
/// subscription id as varint field 2.
pub open spec fn spec_enc_str_id_body(t: Seq<char>, id: u32) -> Seq<u8> {
    spec_enc_str_field(0x0A, t) + spec_enc_varint_field(0x10, id as nat)
}

/// Decodes a whole unsubscribe body.
pub open spec fn spec_dec_str_id_body(b: Seq<u8>) -> Option<(Seq<char>, u32)> {
    match spec_dec_str_field(b, 0, 0x0A) {
        None => None,
        Some((t, j)) => match spec_dec_varint_field(b, j, 0x10) {
            None => None,
            Some((n, k)) => if k == b.len() && n <= u32::MAX {
                Some((t, n as u32))
            } else {
                None
            },
        },
    }
}

/// Decoding an encoded unsubscribe body yields topic and id back.
pub proof fn lemma_str_id_body_round_trip(t: Seq<char>, id: u32)
    ensures
        spec_dec_str_id_body(spec_enc_str_id_body(t, id)) == Some((t, id)),
{
    let b = spec_enc_str_id_body(t, id);
    let x = spec_enc_str_field(0x0A, t);
    let y = spec_enc_varint_field(0x10, id as nat);
    assert(b.subrange(0, b.len() as int) =~= b);
    lemma_split_concat(b, 0, x, y);
    lemma_str_field_round_trip(b, 0, 0x0A, t);
    lemma_varint_field_round_trip(b, x.len() as int, 0x10, id as nat);
}

/// A body of a topic name (field 1) and a run of values (field 2).
pub open spec fn spec_enc_str_values_body(t: Seq<char>, vs: Seq<ValueV>) -> Seq<u8> {
    spec_enc_str_field(0x0A, t) + spec_enc_values(0x12, vs)
}

/// Decodes a whole topic-and-values body.
pub open spec fn spec_dec_str_values_body(b: Seq<u8>) -> Option<(Seq<char>, Seq<ValueV>)> {
    match spec_dec_str_field(b, 0, 0x0A) {
        None => None,
        Some((t, j)) => match spec_dec_values(b, j, 0x12) {
            None => None,
            Some((vs, k)) => if k == b.len() {
                Some((t, vs))
            } else {
                None
            },
        },
    }
}

/// Decoding an encoded topic-and-values body yields both back.
pub proof fn lemma_str_values_body_round_trip(t: Seq<char>, vs: Seq<ValueV>)
    ensures
        spec_dec_str_values_body(spec_enc_str_values_body(t, vs)) == Some((t, vs)),
{
    let b = spec_enc_str_values_body(t, vs);
    let x = spec_enc_str_field(0x0A, t);
    let y = spec_enc_values(0x12, vs);
    assert(b.subrange(0, b.len() as int) =~= b);
    lemma_split_concat(b, 0, x, y);
    lemma_str_field_round_trip(b, 0, 0x0A, t);
    lemma_values_round_trip(b, x.len() as int, 0x12, vs);
}

// ---------------------------------------------------------------------------
// Requests and responses
// ---------------------------------------------------------------------------

/// A whole request: nothing for an empty request, otherwise one
/// length-delimited field whose number names the operation (1 through 12) and
/// whose body is the operation's encoding.
pub open spec fn spec_enc_req(r: ReqV) -> Seq<u8> {
    match r.data {
        None => Seq::<u8>::empty(),
        Some(RequestDataV::Hget(g)) => spec_enc_field(0x0A, spec_enc_two_str_body(g.table, g.key)),
        Some(RequestDataV::Hgetall(g)) => spec_enc_field(0x12, spec_enc_one_str_body(g.table)),
        Some(RequestDataV::Hmget(g)) => spec_enc_field(
            0x1A,
            spec_enc_str_strs_body(g.table, g.keys),
        ),
        Some(RequestDataV::Hset(g)) => spec_enc_field(0x22, spec_enc_hset_body(g.table, g.pair)),
        Some(RequestDataV::Hmset(g)) => spec_enc_field(
            0x2A,
            spec_enc_str_pairs_body(g.table, g.pairs),
        ),
        Some(RequestDataV::Hdel(g)) => spec_enc_field(0x32, spec_enc_two_str_body(g.table, g.key)),
        Some(RequestDataV::Hmdel(g)) => spec_enc_field(
            0x3A,
            spec_enc_str_strs_body(g.table, g.keys),
        ),
        Some(RequestDataV::Hexist(g)) => spec_enc_field(
            0x42,
            spec_enc_two_str_body(g.table, g.key),
        ),
        Some(RequestDataV::Hmexist(g)) => spec_enc_field(
            0x4A,
            spec_enc_str_strs_body(g.table, g.keys),
        ),
        Some(RequestDataV::Subscribe(g)) => spec_enc_field(0x52, spec_enc_one_str_body(g.topic)),
        Some(RequestDataV::Unsubscribe(g)) => spec_enc_field(
            0x5A,
            spec_enc_str_id_body(g.topic, g.id),
        ),
        Some(RequestDataV::Publish(g)) => spec_enc_field(
            0x62,
            spec_enc_str_values_body(g.topic, g.data),
        ),
    }
}

/// Decodes a whole request.
pub open spec fn spec_dec_req(b: Seq<u8>) -> Option<ReqV> {
    if b.len() == 0 {
        Some(ReqV { data: None })
    } else {
        let tag = b[0];
        match spec_dec_field(b, 0, tag) {
            None => None,
            Some((body, j)) => if j != b.len() {
                None
            } else if tag == 0x0A {
                match spec_dec_two_str_body(body) {
                    None => None,
                    Some((t, k)) => Some(ReqV {
                        data: Some(RequestDataV::Hget(HgetV { table: t, key: k })),
                    }),
                }
            } else if tag == 0x12 {
                match spec_dec_one_str_body(body) {
                    None => None,
                    Some(t) => Some(ReqV { data: Some(RequestDataV::Hgetall(HgetallV { table: t })) }),
                }
            } else if tag == 0x1A {
                match spec_dec_str_strs_body(body) {
                    None => None,
                    Some((t, ks)) => Some(ReqV {
                        data: Some(RequestDataV::Hmget(HmgetV { table: t, keys: ks })),
                    }),
                }
            } else if tag == 0x22 {
                match spec_dec_hset_body(body) {
                    None => None,
                    Some((t, p)) => Some(ReqV {
                        data: Some(RequestDataV::Hset(HsetV { table: t, pair: p })),
                    }),
                }
            } else if tag == 0x2A {
                match spec_dec_str_pairs_body(body) {
                    None => None,
                    Some((t, ps)) => Some(ReqV {
                        data: Some(RequestDataV::Hmset(HmsetV { table: t, pairs: ps })),
                    }),
                }
            } else if tag == 0x32 {
                match spec_dec_two_str_body(body) {
                    None => None,
                    Some((t, k)) => Some(ReqV {
                        data: Some(RequestDataV::Hdel(HdelV { table: t, key: k })),
                    }),
                }
            } else if tag == 0x3A {
                match spec_dec_str_strs_body(body) {
                    None => None,
                    Some((t, ks)) => Some(ReqV {
                        data: Some(RequestDataV::Hmdel(HmdelV { table: t, keys: ks })),
                    }),
                }
            } else if tag == 0x42 {
                match spec_dec_two_str_body(body) {
                    None => None,
                    Some((t, k)) => Some(ReqV {
                        data: Some(RequestDataV::Hexist(HexistV { table: t, key: k })),
                    }),
                }
            } else if tag == 0x4A {
                match spec_dec_str_strs_body(body) {
                    None => None,
                    Some((t, ks)) => Some(ReqV {
                        data: Some(RequestDataV::Hmexist(HmexistV { table: t, keys: ks })),
                    }),
                }
            } else if tag == 0x52 {
                match spec_dec_one_str_body(body) {
                    None => None,
                    Some(t) => Some(ReqV {
                        data: Some(RequestDataV::Subscribe(SubscribeV { topic: t })),
                    }),
                }
            } else if tag == 0x5A {
                match spec_dec_str_id_body(body) {
                    None => None,
                    Some((t, id)) => Some(ReqV {
                        data: Some(RequestDataV::Unsubscribe(UnsubscribeV { topic: t, id })),
                    }),
                }
            } else if tag == 0x62 {
                match spec_dec_str_values_body(body) {
                    None => None,
                    Some((t, vs)) => Some(ReqV {
                        data: Some(RequestDataV::Publish(PublishV { topic: t, data: vs })),
                    }),
                }
            } else {
                None
            },
        }
    }
}

proof fn lemma_req_rt_hget(g: HgetV)
    ensures
        spec_dec_req(spec_enc_req(ReqV { data: Some(RequestDataV::Hget(g)) })) == Some(
            ReqV { data: Some(RequestDataV::Hget(g)) },
        ),
{
    let r = ReqV { data: Some(RequestDataV::Hget(g)) };
    let b = spec_enc_req(r);
    assert(b.subrange(0, b.len() as int) =~= b);
    lemma_field_round_trip(b, 0, 0x0A, spec_enc_two_str_body(g.table, g.key));
    lemma_two_str_body_round_trip(g.table, g.key);
}

proof fn lemma_req_rt_hgetall(g: HgetallV)
    ensures
        spec_dec_req(spec_enc_req(ReqV { data: Some(RequestDataV::Hgetall(g)) })) == Some(
            ReqV { data: Some(RequestDataV::Hgetall(g)) },
        ),
{
    let r = ReqV { data: Some(RequestDataV::Hgetall(g)) };
    let b = spec_enc_req(r);
    assert(b.subrange(0, b.len() as int) =~= b);
    lemma_field_round_trip(b, 0, 0x12, spec_enc_one_str_body(g.table));
    lemma_one_str_body_round_trip(g.table);
}

proof fn lemma_req_rt_hmget(g: HmgetV)
    ensures
        spec_dec_req(spec_enc_req(ReqV { data: Some(RequestDataV::Hmget(g)) })) == Some(
            ReqV { data: Some(RequestDataV::Hmget(g)) },
        ),
{
    let r = ReqV { data: Some(RequestDataV::Hmget(g)) };
    let b = spec_enc_req(r);
    assert(b.subrange(0, b.len() as int) =~= b);
    lemma_field_round_trip(b, 0, 0x1A, spec_enc_str_strs_body(g.table, g.keys));
    lemma_str_strs_body_round_trip(g.table, g.keys);
}

proof fn lemma_req_rt_hset(g: HsetV)
    ensures
        spec_dec_req(spec_enc_req(ReqV { data: Some(RequestDataV::Hset(g)) })) == Some(
            ReqV { data: Some(RequestDataV::Hset(g)) },
        ),
{
    let r = ReqV { data: Some(RequestDataV::Hset(g)) };
    let b = spec_enc_req(r);
    assert(b.subrange(0, b.len() as int) =~= b);
    lemma_field_round_trip(b, 0, 0x22, spec_enc_hset_body(g.table, g.pair));
    lemma_hset_body_round_trip(g.table, g.pair);
}

proof fn lemma_req_rt_hmset(g: HmsetV)
    ensures
        spec_dec_req(spec_enc_req(ReqV { data: Some(RequestDataV::Hmset(g)) })) == Some(
            ReqV { data: Some(RequestDataV::Hmset(g)) },
        ),
{
    let r = ReqV { data: Some(RequestDataV::Hmset(g)) };
    let b = spec_enc_req(r);
    assert(b.subrange(0, b.len() as int) =~= b);
    lemma_field_round_trip(b, 0, 0x2A, spec_enc_str_pairs_body(g.table, g.pairs));
    lemma_str_pairs_body_round_trip(g.table, g.pairs);
}

proof fn lemma_req_rt_hdel(g: HdelV)
    ensures
        spec_dec_req(spec_enc_req(ReqV { data: Some(RequestDataV::Hdel(g)) })) == Some(
            ReqV { data: Some(RequestDataV::Hdel(g)) },
        ),
{
    let r = ReqV { data: Some(RequestDataV::Hdel(g)) };
    let b = spec_enc_req(r);
    assert(b.subrange(0, b.len() as int) =~= b);
    lemma_field_round_trip(b, 0, 0x32, spec_enc_two_str_body(g.table, g.key));
    lemma_two_str_body_round_trip(g.table, g.key);
}

proof fn lemma_req_rt_hmdel(g: HmdelV)
    ensures
        spec_dec_req(spec_enc_req(ReqV { data: Some(RequestDataV::Hmdel(g)) })) == Some(
            ReqV { data: Some(RequestDataV::Hmdel(g)) },
        ),
{
    let r = ReqV { data: Some(RequestDataV::Hmdel(g)) };
    let b = spec_enc_req(r);
    assert(b.subrange(0, b.len() as int) =~= b);
    lemma_field_round_trip(b, 0, 0x3A, spec_enc_str_strs_body(g.table, g.keys));
    lemma_str_strs_body_round_trip(g.table, g.keys);
}

proof fn lemma_req_rt_hexist(g: HexistV)
    ensures
        spec_dec_req(spec_enc_req(ReqV { data: Some(RequestDataV::Hexist(g)) })) == Some(
            ReqV { data: Some(RequestDataV::Hexist(g)) },
        ),
{
    let r = ReqV { data: Some(RequestDataV::Hexist(g)) };
    let b = spec_enc_req(r);
    assert(b.subrange(0, b.len() as int) =~= b);
    lemma_field_round_trip(b, 0, 0x42, spec_enc_two_str_body(g.table, g.key));
    lemma_two_str_body_round_trip(g.table, g.key);
}

proof fn lemma_req_rt_hmexist(g: HmexistV)
    ensures
        spec_dec_req(spec_enc_req(ReqV { data: Some(RequestDataV::Hmexist(g)) })) == Some(
            ReqV { data: Some(RequestDataV::Hmexist(g)) },
        ),
{
    let r = ReqV { data: Some(RequestDataV::Hmexist(g)) };
    let b = spec_enc_req(r);
    assert(b.subrange(0, b.len() as int) =~= b);
    lemma_field_round_trip(b, 0, 0x4A, spec_enc_str_strs_body(g.table, g.keys));
    lemma_str_strs_body_round_trip(g.table, g.keys);
}

proof fn lemma_req_rt_subscribe(g: SubscribeV)
    ensures
        spec_dec_req(spec_enc_req(ReqV { data: Some(RequestDataV::Subscribe(g)) })) == Some(
            ReqV { data: Some(RequestDataV::Subscribe(g)) },
        ),
{
    let r = ReqV { data: Some(RequestDataV::Subscribe(g)) };
    let b = spec_enc_req(r);
    assert(b.subrange(0, b.len() as int) =~= b);
    lemma_field_round_trip(b, 0, 0x52, spec_enc_one_str_body(g.topic));
    lemma_one_str_body_round_trip(g.topic);
}

proof fn lemma_req_rt_unsubscribe(g: UnsubscribeV)
    ensures
        spec_dec_req(spec_enc_req(ReqV { data: Some(RequestDataV::Unsubscribe(g)) })) == Some(
            ReqV { data: Some(RequestDataV::Unsubscribe(g)) },
        ),
{
    let r = ReqV { data: Some(RequestDataV::Unsubscribe(g)) };
    let b = spec_enc_req(r);
    assert(b.subrange(0, b.len() as int) =~= b);
    lemma_field_round_trip(b, 0, 0x5A, spec_enc_str_id_body(g.topic, g.id));
    lemma_str_id_body_round_trip(g.topic, g.id);
}

proof fn lemma_req_rt_publish(g: PublishV)
    ensures
        spec_dec_req(spec_enc_req(ReqV { data: Some(RequestDataV::Publish(g)) })) == Some(
            ReqV { data: Some(RequestDataV::Publish(g)) },
        ),
{
    let r = ReqV { data: Some(RequestDataV::Publish(g)) };
    let b = spec_enc_req(r);
    assert(b.subrange(0, b.len() as int) =~= b);
    lemma_field_round_trip(b, 0, 0x62, spec_enc_str_values_body(g.topic, g.data));
    lemma_str_values_body_round_trip(g.topic, g.data);
}

/// Decoding an encoded request yields the request back: the round trip of the
/// request side of the protocol.
pub proof fn lemma_req_round_trip(r: ReqV)
    ensures
        spec_dec_req(spec_enc_req(r)) == Some(r),
{
    match r.data {
        None => {},
        Some(RequestDataV::Hget(g)) => {
            lemma_req_rt_hget(g);
        },
        Some(RequestDataV::Hgetall(g)) => {
            lemma_req_rt_hgetall(g);
        },
        Some(RequestDataV::Hmget(g)) => {
            lemma_req_rt_hmget(g);
        },
        Some(RequestDataV::Hset(g)) => {
            lemma_req_rt_hset(g);
        },
        Some(RequestDataV::Hmset(g)) => {
            lemma_req_rt_hmset(g);
        },
        Some(RequestDataV::Hdel(g)) => {
            lemma_req_rt_hdel(g);
        },
        Some(RequestDataV::Hmdel(g)) => {
            lemma_req_rt_hmdel(g);
        },
        Some(RequestDataV::Hexist(g)) => {
            lemma_req_rt_hexist(g);
        },
        Some(RequestDataV::Hmexist(g)) => {
            lemma_req_rt_hmexist(g);
        },
        Some(RequestDataV::Subscribe(g)) => {
            lemma_req_rt_subscribe(g);
        },
        Some(RequestDataV::Unsubscribe(g)) => {
            lemma_req_rt_unsubscribe(g);
        },
        Some(RequestDataV::Publish(g)) => {
            lemma_req_rt_publish(g);
        },
    }
}

/// A whole response: the status code as varint field 1, the message as string
/// field 2, the values as a run of field 3, and the pairs as a run of
/// field 4, always in that order.
pub open spec fn spec_enc_resp(r: RespV) -> Seq<u8> {
    spec_enc_varint_field(0x08, r.status as nat) + spec_enc_str_field(0x12, r.message)
        + spec_enc_values(0x1A, r.values) + spec_enc_pairs(0x22, r.pairs)
}

/// Decodes a whole response.
pub open spec fn spec_dec_resp(b: Seq<u8>) -> Option<RespV> {
    match spec_dec_varint_field(b, 0, 0x08) {
        None => None,
        Some((st, i)) => if st > u32::MAX {
            None
        } else {
            match spec_dec_str_field(b, i, 0x12) {
                None => None,
                Some((msg, j)) => match spec_dec_values(b, j, 0x1A) {
                    None => None,
                    Some((vs, k)) => match spec_dec_pairs(b, k, 0x22) {
                        None => None,
                        Some((ps, end)) => if end == b.len() {
                            Some(RespV { status: st as u32, message: msg, values: vs, pairs: ps })
                        } else {
                            None
                        },
                    },
                },
            }
        },
    }
}

/// Decoding an encoded response yields the response back: the round trip of
/// the response side of the protocol.
#[verifier::rlimit(100)]
pub proof fn lemma_resp_round_trip(r: RespV)
    ensures
        spec_dec_resp(spec_enc_resp(r)) == Some(r),
{
    let b = spec_enc_resp(r);
    let p1 = spec_enc_varint_field(0x08, r.status as nat);
    let p2 = spec_enc_str_field(0x12, r.message);
    let p3 = spec_enc_values(0x1A, r.values);
    let p4 = spec_enc_pairs(0x22, r.pairs);
    assert(b =~= p1 + (p2 + (p3 + p4)));
    assert(b.subrange(0, b.len() as int) =~= b);
    lemma_split_concat(b, 0, p1, p2 + (p3 + p4));
    lemma_split_concat(b, p1.len() as int, p2, p3 + p4);
    lemma_split_concat(b, (p1.len() + p2.len()) as int, p3, p4);
    lemma_varint_field_round_trip(b, 0, 0x08, r.status as nat);
    lemma_str_field_round_trip(b, p1.len() as int, 0x12, r.message);
    let k = p1.len() + p2.len() + p3.len();
    if r.pairs.len() > 0 {
        assert(p4[0] == 0x22);
        assert(b[k as int] == b.subrange((p1.len() + p2.len()) as int, (p1.len() + p2.len() + p3.len() + p4.len()) as int)[p3.len() as int]);
    }
    lemma_values_round_trip(b, (p1.len() + p2.len()) as int, 0x1A, r.values);
    lemma_pairs_round_trip(b, k as int, 0x22, r.pairs);
}


/// Appending one more string extends the run by one field at its end.
pub proof fn lemma_enc_strs_snoc(tag: u8, ks: Seq<Seq<char>>, x: Seq<char>)
    ensures
        spec_enc_strs(tag, ks.push(x)) == spec_enc_strs(tag, ks) + spec_enc_str_field(tag, x),
    decreases ks.len(),
{
    if ks.len() == 0 {
        assert(ks.push(x).len() == 1);
        assert(ks.push(x)[0] == x);
        assert(ks.push(x).drop_first() =~= Seq::<Seq<char>>::empty());
        assert(ks =~= Seq::<Seq<char>>::empty());
        assert(spec_enc_strs(tag, ks) == Seq::<u8>::empty());
        assert(spec_enc_strs(tag, ks.push(x)) == spec_enc_str_field(tag, x) + spec_enc_strs(
            tag,
            ks.push(x).drop_first(),
        ));
        assert(spec_enc_strs(tag, ks.push(x).drop_first()) == Seq::<u8>::empty());
        assert(spec_enc_strs(tag, ks.push(x)) =~= spec_enc_strs(tag, ks) + spec_enc_str_field(
            tag,
            x,
        ));
    } else {
        assert(ks.push(x).len() == ks.len() + 1);
        assert(ks.push(x)[0] == ks[0]);
        assert(ks.push(x).drop_first() =~= ks.drop_first().push(x));
        lemma_enc_strs_snoc(tag, ks.drop_first(), x);
        assert(spec_enc_strs(tag, ks.push(x)) == spec_enc_str_field(tag, ks[0]) + (spec_enc_strs(
            tag,
            ks.drop_first(),
        ) + spec_enc_str_field(tag, x)));
        assert(spec_enc_strs(tag, ks.push(x)) =~= spec_enc_strs(tag, ks) + spec_enc_str_field(
            tag,
            x,
        ));
    }
}

/// Appending one more value extends the run by one field at its end.
pub proof fn lemma_enc_values_snoc(tag: u8, vs: Seq<ValueV>, x: ValueV)
    ensures
        spec_enc_values(tag, vs.push(x)) == spec_enc_values(tag, vs) + spec_enc_field(
            tag,
            spec_enc_value(x),
        ),
    decreases vs.len(),
{
    if vs.len() == 0 {
        assert(vs.push(x).len() == 1);
        assert(vs.push(x)[0] == x);
        assert(vs.push(x).drop_first() =~= Seq::<ValueV>::empty());
        assert(vs =~= Seq::<ValueV>::empty());
        assert(spec_enc_values(tag, vs) == Seq::<u8>::empty());
        assert(spec_enc_values(tag, vs.push(x)) == spec_enc_field(tag, spec_enc_value(x))
            + spec_enc_values(tag, vs.push(x).drop_first()));
        assert(spec_enc_values(tag, vs.push(x).drop_first()) == Seq::<u8>::empty());
        assert(spec_enc_values(tag, vs.push(x)) =~= spec_enc_values(tag, vs) + spec_enc_field(
            tag,
            spec_enc_value(x),
        ));
    } else {
        assert(vs.push(x).len() == vs.len() + 1);
        assert(vs.push(x)[0] == vs[0]);
        assert(vs.push(x).drop_first() =~= vs.drop_first().push(x));
        lemma_enc_values_snoc(tag, vs.drop_first(), x);
        assert(spec_enc_values(tag, vs.push(x)) == spec_enc_field(tag, spec_enc_value(vs[0]))
            + (spec_enc_values(tag, vs.drop_first()) + spec_enc_field(tag, spec_enc_value(x))));
        assert(spec_enc_values(tag, vs.push(x)) =~= spec_enc_values(tag, vs) + spec_enc_field(
            tag,
            spec_enc_value(x),
        ));
    }
}

/// Appending one more pair extends the run by one field at its end.
pub proof fn lemma_enc_pairs_snoc(tag: u8, ps: Seq<KvpairV>, x: KvpairV)
    ensures
        spec_enc_pairs(tag, ps.push(x)) == spec_enc_pairs(tag, ps) + spec_enc_field(
            tag,
            spec_enc_kvpair(x),
        ),
    decreases ps.len(),
{
    if ps.len() == 0 {
        assert(ps.push(x).len() == 1);
        assert(ps.push(x)[0] == x);
        assert(ps.push(x).drop_first() =~= Seq::<KvpairV>::empty());
        assert(ps =~= Seq::<KvpairV>::empty());
        assert(spec_enc_pairs(tag, ps) == Seq::<u8>::empty());
        assert(spec_enc_pairs(tag, ps.push(x)) == spec_enc_field(tag, spec_enc_kvpair(x))
            + spec_enc_pairs(tag, ps.push(x).drop_first()));
        assert(spec_enc_pairs(tag, ps.push(x).drop_first()) == Seq::<u8>::empty());
        assert(spec_enc_pairs(tag, ps.push(x)) =~= spec_enc_pairs(tag, ps) + spec_enc_field(
            tag,
            spec_enc_kvpair(x),
        ));
    } else {
        assert(ps.push(x).len() == ps.len() + 1);
        assert(ps.push(x)[0] == ps[0]);
        assert(ps.push(x).drop_first() =~= ps.drop_first().push(x));
        lemma_enc_pairs_snoc(tag, ps.drop_first(), x);
        assert(spec_enc_pairs(tag, ps.push(x)) == spec_enc_field(tag, spec_enc_kvpair(ps[0]))
            + (spec_enc_pairs(tag, ps.drop_first()) + spec_enc_field(tag, spec_enc_kvpair(x))));
        assert(spec_enc_pairs(tag, ps.push(x)) =~= spec_enc_pairs(tag, ps) + spec_enc_field(
            tag,
            spec_enc_kvpair(x),
        ));
    }
}

} // verus!
