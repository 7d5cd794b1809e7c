//! The executable wire codec: encoders and decoders for values, pairs,
//! requests and responses, each proved to compute exactly the mathematical
//! encoding and decoding of `codec`.

use vstd::prelude::*;
use vstd::utf8::{encode_utf8, valid_utf8};
use vstd::string::StringSliceAdditionalSpecFns;
use crate::codec::{
    lemma_enc_pairs_snoc, lemma_enc_strs_snoc, lemma_enc_values_snoc, spec_dec_field,
    spec_dec_hset_body, spec_dec_kvpair, spec_dec_one_str_body, spec_dec_pairs, spec_dec_req,
    spec_dec_resp, spec_dec_str_field, spec_dec_str_id_body, spec_dec_str_pairs_body,
    spec_dec_str_strs_body, spec_dec_str_values_body, spec_dec_strs, spec_dec_two_str_body,
    spec_dec_value, spec_dec_values, spec_dec_varint_field, spec_enc_field, spec_enc_hset_body,
    spec_enc_kvpair, spec_enc_one_str_body, spec_enc_pairs, spec_enc_req, spec_enc_resp,
    spec_enc_str_field, spec_enc_str_id_body, spec_enc_str_pairs_body, spec_enc_str_strs_body,
    spec_enc_str_values_body, spec_enc_strs, spec_enc_two_str_body, spec_enc_value,
    spec_enc_values, spec_enc_varint_field,
};
use crate::error::KvError;
use crate::msg::{
    CommandRequest, CommandResponse, Hdel, Hexist, Hget, Hgetall, Hmdel, Hmexist, Hmget, Hmset,
    Hset, Publish, RequestData, Subscribe, Unsubscribe, seq_pair_view, seq_str_view,
    seq_value_view,
};
use crate::value::{Kvpair, Value, ValueVariant};
use crate::wire::{dec_bytes, enc_bytes, enc_slice, enc_varint, dec_varint};

verus! {

/// Relies on `String::from_utf8`: it succeeds exactly on input that is valid
/// UTF-8, and the returned string's byte encoding is the input itself.
#[verifier::external_body]
fn string_from_utf8(v: Vec<u8>) -> (r: Option<String>)
    ensures
        match r {
            Some(s) => encode_utf8(s@) == v@,
            None => !valid_utf8(v@),
        },
{
    String::from_utf8(v).ok()
}

/// Appends a string field: the tag, then the length-prefixed UTF-8 bytes.
fn enc_str_field_to(out: &mut Vec<u8>, tag: u8, s: &str)
    ensures
        final(out)@ == old(out)@ + spec_enc_str_field(tag, s@),
{
    out.push(tag);
    enc_slice(out, s.as_bytes());
    proof {
        assert(out@ =~= old(out)@ + spec_enc_str_field(tag, s@));
    }
}

/// Appends a varint field: the tag, then the varint.
fn enc_varint_field_to(out: &mut Vec<u8>, tag: u8, n: u64)
    ensures
        final(out)@ == old(out)@ + spec_enc_varint_field(tag, n as nat),
{
    out.push(tag);
    enc_varint(out, n);
    proof {
        assert(out@ =~= old(out)@ + spec_enc_varint_field(tag, n as nat));
    }
}

/// Appends a length-delimited field with the given body.
fn enc_field_to(out: &mut Vec<u8>, tag: u8, body: &Vec<u8>)
    ensures
        final(out)@ == old(out)@ + spec_enc_field(tag, body@),
{
    out.push(tag);
    enc_bytes(out, body);
    proof {
        assert(out@ =~= old(out)@ + spec_enc_field(tag, body@));
    }
}

/// Appends the encoding of a value.
fn enc_value_to(out: &mut Vec<u8>, v: &Value)
    ensures
        final(out)@ == old(out)@ + spec_enc_value(v@),
{
    match &v.value {
        None => {
            proof {
                assert(out@ =~= old(out)@ + spec_enc_value(v@));
            }
        },
        Some(ValueVariant::Str(s)) => {
            enc_str_field_to(out, 0x0A, s.as_str());
        },
        Some(ValueVariant::Bin(d)) => {
            out.push(0x12);
            enc_bytes(out, d);
            proof {
                assert(out@ =~= old(out)@ + spec_enc_value(v@));
            }
        },
        Some(ValueVariant::Int(i)) => {
            enc_varint_field_to(out, 0x18, *i as u64);
        },
        Some(ValueVariant::Float(f)) => {
            enc_varint_field_to(out, 0x20, *f);
        },
        Some(ValueVariant::Bool(x)) => {
            let n: u64 = if *x {
                1
            } else {
                0
            };
            enc_varint_field_to(out, 0x28, n);
        },
    }
}

/// Appends the encoding of a pair.
fn enc_kvpair_to(out: &mut Vec<u8>, p: &Kvpair)
    ensures
        final(out)@ == old(out)@ + spec_enc_kvpair(p@),
{
    enc_str_field_to(out, 0x0A, p.key.as_str());
    match &p.value {
        None => {
            proof {
                assert(out@ =~= old(out)@ + spec_enc_kvpair(p@));
            }
        },
        Some(v) => {
            let mut body: Vec<u8> = Vec::new();
            enc_value_to(&mut body, v);
            enc_field_to(out, 0x12, &body);
            proof {
                assert(out@ =~= old(out)@ + spec_enc_kvpair(p@));
            }
        },
    }
}

/// Appends a run of string fields, all under one tag, in order.
fn enc_strs_to(out: &mut Vec<u8>, tag: u8, ks: &Vec<String>)
    ensures
        final(out)@ == old(out)@ + spec_enc_strs(tag, seq_str_view(ks@)),
{
    let ghost base = out@;
    let mut i: usize = 0;
    while i < ks.len()
        invariant
            i <= ks@.len(),
            out@ == base + spec_enc_strs(tag, seq_str_view(ks@).take(i as int)),
        decreases ks@.len() - i,
    {
        enc_str_field_to(out, tag, ks[i].as_str());
        proof {
            lemma_enc_strs_snoc(tag, seq_str_view(ks@).take(i as int), ks@[i as int]@);
            assert(seq_str_view(ks@).take(i + 1) =~= seq_str_view(ks@).take(i as int).push(
                ks@[i as int]@,
            ));
            assert(out@ =~= base + spec_enc_strs(tag, seq_str_view(ks@).take(i + 1)));
        }
        i = i + 1;
    }
    proof {
        assert(seq_str_view(ks@).take(ks@.len() as int) =~= seq_str_view(ks@));
    }
}

/// Appends a run of value fields, all under one tag, in order.
fn enc_values_to(out: &mut Vec<u8>, tag: u8, vs: &Vec<Value>)
    ensures
        final(out)@ == old(out)@ + spec_enc_values(tag, seq_value_view(vs@)),
{
    let ghost base = out@;
    let mut i: usize = 0;
    while i < vs.len()
        invariant
            i <= vs@.len(),
            out@ == base + spec_enc_values(tag, seq_value_view(vs@).take(i as int)),
        decreases vs@.len() - i,
    {
        let mut body: Vec<u8> = Vec::new();
        enc_value_to(&mut body, &vs[i]);
        enc_field_to(out, tag, &body);
        proof {
            lemma_enc_values_snoc(tag, seq_value_view(vs@).take(i as int), vs@[i as int]@);
            assert(seq_value_view(vs@).take(i + 1) =~= seq_value_view(vs@).take(i as int).push(
                vs@[i as int]@,
            ));
            assert(out@ =~= base + spec_enc_values(tag, seq_value_view(vs@).take(i + 1)));
        }
        i = i + 1;
    }
    proof {
        assert(seq_value_view(vs@).take(vs@.len() as int) =~= seq_value_view(vs@));
    }
}

/// Appends a run of pair fields, all under one tag, in order.
fn enc_pairs_to(out: &mut Vec<u8>, tag: u8, ps: &Vec<Kvpair>)
    ensures
        final(out)@ == old(out)@ + spec_enc_pairs(tag, seq_pair_view(ps@)),
{
    let ghost base = out@;
    let mut i: usize = 0;
    while i < ps.len()
        invariant
            i <= ps@.len(),
            out@ == base + spec_enc_pairs(tag, seq_pair_view(ps@).take(i as int)),
        decreases ps@.len() - i,
    {
        let mut body: Vec<u8> = Vec::new();
        enc_kvpair_to(&mut body, &ps[i]);
        enc_field_to(out, tag, &body);
        proof {
            lemma_enc_pairs_snoc(tag, seq_pair_view(ps@).take(i as int), ps@[i as int]@);
            assert(seq_pair_view(ps@).take(i + 1) =~= seq_pair_view(ps@).take(i as int).push(
                ps@[i as int]@,
            ));
            assert(out@ =~= base + spec_enc_pairs(tag, seq_pair_view(ps@).take(i + 1)));
        }
        i = i + 1;
    }
    proof {
        assert(seq_pair_view(ps@).take(ps@.len() as int) =~= seq_pair_view(ps@));
    }
}

// ---------------------------------------------------------------------------
// Field decoders
// ---------------------------------------------------------------------------

/// Reads a length-delimited field with the given tag.
fn dec_field_at(b: &Vec<u8>, i: usize, tag: u8) -> (r: Option<(Vec<u8>, usize)>)
    ensures
        match r {
            Some((d, j)) => spec_dec_field(b@, i as int, tag) == Some((d@, j as int)) && i < j
                <= b@.len(),
            None => spec_dec_field(b@, i as int, tag) is None,
        },
{
    if i < b.len() && b[i] == tag {
        dec_bytes(b, i + 1)
    } else {
        None
    }
}

/// Reads a string field with the given tag.
fn dec_str_field_at(b: &Vec<u8>, i: usize, tag: u8) -> (r: Option<(String, usize)>)
    ensures
        match r {
            Some((s, j)) => spec_dec_str_field(b@, i as int, tag) == Some((s@, j as int)) && i < j
                <= b@.len(),
            None => spec_dec_str_field(b@, i as int, tag) is None,
        },
{
    match dec_field_at(b, i, tag) {
        None => None,
        Some((d, j)) => {
            let ghost dv = d@;
            match string_from_utf8(d) {
                None => None,
                Some(s) => {
                    proof {
                        vstd::utf8::encode_utf8_valid_utf8(s@);
                        vstd::utf8::encode_utf8_decode_utf8(s@);
                    }
                    Some((s, j))
                },
            }
        },
    }
}

/// Reads a varint field with the given tag. Returns nothing when no such
/// field is there or the number does not fit in 64 bits.
fn dec_varint_field_at(b: &Vec<u8>, i: usize, tag: u8) -> (r: Option<(u64, usize)>)
    ensures
        match r {
            Some((n, j)) => spec_dec_varint_field(b@, i as int, tag) == Some((n as nat, j as int))
                && i < j <= b@.len(),
            None => match spec_dec_varint_field(b@, i as int, tag) {
                None => true,
                Some((n, _)) => n > u64::MAX,
            },
        },
{
    if i < b.len() && b[i] == tag {
        dec_varint(b, i + 1)
    } else {
        None
    }
}

/// Decodes a whole value body.
pub fn dec_value(b: &Vec<u8>) -> (r: Option<Value>)
    ensures
        match r {
            Some(v) => spec_dec_value(b@) == Some(v@),
            None => spec_dec_value(b@) is None,
        },
{
    if b.len() == 0 {
        return Some(Value { value: None });
    }
    let tag = b[0];
    if tag == 0x0A {
        match dec_str_field_at(b, 0, 0x0A) {
            Some((s, j)) => if j == b.len() {
                Some(Value { value: Some(ValueVariant::Str(s)) })
            } else {
                None
            },
            None => None,
        }
    } else if tag == 0x12 {
        match dec_field_at(b, 0, 0x12) {
            Some((d, j)) => if j == b.len() {
                Some(Value { value: Some(ValueVariant::Bin(d)) })
            } else {
                None
            },
            None => None,
        }
    } else if tag == 0x18 {
        match dec_varint_field_at(b, 0, 0x18) {
            Some((n, j)) => if j == b.len() {
                Some(Value { value: Some(ValueVariant::Int(n as i64)) })
            } else {
                None
            },
            None => None,
        }
    } else if tag == 0x20 {
        match dec_varint_field_at(b, 0, 0x20) {
            Some((n, j)) => if j == b.len() {
                Some(Value { value: Some(ValueVariant::Float(n)) })
            } else {
                None
            },
            None => None,
        }
    } else if tag == 0x28 {
        match dec_varint_field_at(b, 0, 0x28) {
            Some((n, j)) => if j == b.len() && n <= 1 {
                Some(Value { value: Some(ValueVariant::Bool(n == 1)) })
            } else {
                None
            },
            None => None,
        }
    } else {
        None
    }
}

/// Decodes a whole pair body.
pub fn dec_kvpair(b: &Vec<u8>) -> (r: Option<Kvpair>)
    ensures
        match r {
            Some(p) => spec_dec_kvpair(b@) == Some(p@),
            None => spec_dec_kvpair(b@) is None,
        },
{
    match dec_str_field_at(b, 0, 0x0A) {
        None => None,
        Some((key, j)) => {
            if j == b.len() {
                return Some(Kvpair { key, value: None });
            }
            match dec_field_at(b, j, 0x12) {
                None => None,
                Some((body, k)) => if k == b.len() {
                    match dec_value(&body) {
                        None => None,
                        Some(v) => Some(Kvpair { key, value: Some(v) }),
                    }
                } else {
                    None
                },
            }
        },
    }
}


/// Reads a run of string fields under `tag` starting at `i`.
fn dec_strs_at(b: &Vec<u8>, i: usize, tag: u8) -> (r: Option<(Vec<String>, usize)>)
    requires
        i <= b@.len(),
    ensures
        match r {
            Some((ks, j)) => spec_dec_strs(b@, i as int, tag) == Some(
                (seq_str_view(ks@), j as int),
            ) && i <= j <= b@.len(),
            None => spec_dec_strs(b@, i as int, tag) is None,
        },
{
    let mut acc: Vec<String> = Vec::new();
    let mut cur: usize = i;
    proof {
        assert(seq_str_view(acc@) =~= Seq::<Seq<char>>::empty());
    }
    while cur < b.len() && b[cur] == tag
        invariant
            i <= cur <= b@.len(),
            (match spec_dec_strs(b@, cur as int, tag) {
                Some((rest, k)) => spec_dec_strs(b@, i as int, tag) == Some(
                    (seq_str_view(acc@) + rest, k),
                ),
                None => spec_dec_strs(b@, i as int, tag) is None,
            }),
        decreases b@.len() - cur,
    {
        match dec_str_field_at(b, cur, tag) {
            None => {
                return None;
            },
            Some((s, j)) => {
                proof {
                    let ghost oldacc = seq_str_view(acc@);
                    match spec_dec_strs(b@, j as int, tag) {
                        Some((rest2, k2)) => {
                            assert(spec_dec_strs(b@, cur as int, tag) == Some(
                                (seq![s@] + rest2, k2),
                            ));
                            assert(oldacc + (seq![s@] + rest2) =~= (oldacc.push(s@)) + rest2);
                        },
                        None => {},
                    }
                }
                acc.push(s);
                proof {
                    assert(seq_str_view(acc@) =~= seq_str_view(acc@.drop_last()).push(
                        acc@.last()@,
                    ));
                }
                cur = j;
            },
        }
    }
    proof {
        assert(spec_dec_strs(b@, cur as int, tag) == Some(
            (Seq::<Seq<char>>::empty(), cur as int),
        ));
        assert(seq_str_view(acc@) + Seq::<Seq<char>>::empty() =~= seq_str_view(acc@));
    }
    Some((acc, cur))
}

/// Reads a run of value fields under `tag` starting at `i`.
fn dec_values_at(b: &Vec<u8>, i: usize, tag: u8) -> (r: Option<(Vec<Value>, usize)>)
    requires
        i <= b@.len(),
    ensures
        match r {
            Some((vs, j)) => spec_dec_values(b@, i as int, tag) == Some(
                (seq_value_view(vs@), j as int),
            ) && i <= j <= b@.len(),
            None => spec_dec_values(b@, i as int, tag) is None,
        },
{
    let mut acc: Vec<Value> = Vec::new();
    let mut cur: usize = i;
    proof {
        assert(seq_value_view(acc@) =~= Seq::<crate::value::ValueV>::empty());
    }
    while cur < b.len() && b[cur] == tag
        invariant
            i <= cur <= b@.len(),
            (match spec_dec_values(b@, cur as int, tag) {
                Some((rest, k)) => spec_dec_values(b@, i as int, tag) == Some(
                    (seq_value_view(acc@) + rest, k),
                ),
                None => spec_dec_values(b@, i as int, tag) is None,
            }),
        decreases b@.len() - cur,
    {
        match dec_field_at(b, cur, tag) {
            None => {
                return None;
            },
            Some((body, j)) => {
                match dec_value(&body) {
                    None => {
                        return None;
                    },
                    Some(v) => {
                        proof {
                            let ghost oldacc = seq_value_view(acc@);
                            match spec_dec_values(b@, j as int, tag) {
                                Some((rest2, k2)) => {
                                    assert(spec_dec_values(b@, cur as int, tag) == Some(
                                        (seq![v@] + rest2, k2),
                                    ));
                                    assert(oldacc + (seq![v@] + rest2) =~= (oldacc.push(v@))
                                        + rest2);
                                },
                                None => {},
                            }
                        }
                        acc.push(v);
                        proof {
                            assert(seq_value_view(acc@) =~= seq_value_view(
                                acc@.drop_last(),
                            ).push(acc@.last()@));
                        }
                        cur = j;
                    },
                }
            },
        }
    }
    proof {
        assert(spec_dec_values(b@, cur as int, tag) == Some(
            (Seq::<crate::value::ValueV>::empty(), cur as int),
        ));
        assert(seq_value_view(acc@) + Seq::<crate::value::ValueV>::empty() =~= seq_value_view(
            acc@,
        ));
    }
    Some((acc, cur))
}

/// Reads a run of pair fields under `tag` starting at `i`.
fn dec_pairs_at(b: &Vec<u8>, i: usize, tag: u8) -> (r: Option<(Vec<Kvpair>, usize)>)
    requires
        i <= b@.len(),
    ensures
        match r {
            Some((ps, j)) => spec_dec_pairs(b@, i as int, tag) == Some(
                (seq_pair_view(ps@), j as int),
            ) && i <= j <= b@.len(),
            None => spec_dec_pairs(b@, i as int, tag) is None,
        },
{
    let mut acc: Vec<Kvpair> = Vec::new();
    let mut cur: usize = i;
    proof {
        assert(seq_pair_view(acc@) =~= Seq::<crate::value::KvpairV>::empty());
    }
    while cur < b.len() && b[cur] == tag
        invariant
            i <= cur <= b@.len(),
            (match spec_dec_pairs(b@, cur as int, tag) {
                Some((rest, k)) => spec_dec_pairs(b@, i as int, tag) == Some(
                    (seq_pair_view(acc@) + rest, k),
                ),
                None => spec_dec_pairs(b@, i as int, tag) is None,
            }),
        decreases b@.len() - cur,
    {
        match dec_field_at(b, cur, tag) {
            None => {
                return None;
            },
            Some((body, j)) => {
                match dec_kvpair(&body) {
                    None => {
                        return None;
                    },
                    Some(p) => {
                        proof {
                            let ghost oldacc = seq_pair_view(acc@);
                            match spec_dec_pairs(b@, j as int, tag) {
                                Some((rest2, k2)) => {
                                    assert(spec_dec_pairs(b@, cur as int, tag) == Some(
                                        (seq![p@] + rest2, k2),
                                    ));
                                    assert(oldacc + (seq![p@] + rest2) =~= (oldacc.push(p@))
                                        + rest2);
                                },
                                None => {},
                            }
                        }
                        acc.push(p);
                        proof {
                            assert(seq_pair_view(acc@) =~= seq_pair_view(acc@.drop_last()).push(
                                acc@.last()@,
                            ));
                        }
                        cur = j;
                    },
                }
            },
        }
    }
    proof {
        assert(spec_dec_pairs(b@, cur as int, tag) == Some(
            (Seq::<crate::value::KvpairV>::empty(), cur as int),
        ));
        assert(seq_pair_view(acc@) + Seq::<crate::value::KvpairV>::empty() =~= seq_pair_view(
            acc@,
        ));
    }
    Some((acc, cur))
}

// ---------------------------------------------------------------------------
// Request bodies
// ---------------------------------------------------------------------------

/// Builds a two-string body.
fn body_two_str(a: &str, c: &str) -> (r: Vec<u8>)
    ensures
        r@ == spec_enc_two_str_body(a@, c@),
{
    let mut out: Vec<u8> = Vec::new();
    enc_str_field_to(&mut out, 0x0A, a);
    enc_str_field_to(&mut out, 0x12, c);
    proof {
        assert(out@ =~= spec_enc_two_str_body(a@, c@));
    }
    out
}

/// Builds a one-string body.
fn body_one_str(t: &str) -> (r: Vec<u8>)
    ensures
        r@ == spec_enc_one_str_body(t@),
{
    let mut out: Vec<u8> = Vec::new();
    enc_str_field_to(&mut out, 0x0A, t);
    proof {
        assert(out@ =~= spec_enc_one_str_body(t@));
    }
    out
}

/// Builds a table-and-keys body.
fn body_str_strs(t: &str, ks: &Vec<String>) -> (r: Vec<u8>)
    ensures
        r@ == spec_enc_str_strs_body(t@, seq_str_view(ks@)),
{
    let mut out: Vec<u8> = Vec::new();
    enc_str_field_to(&mut out, 0x0A, t);
    enc_strs_to(&mut out, 0x12, ks);
    proof {
        assert(out@ =~= spec_enc_str_strs_body(t@, seq_str_view(ks@)));
    }
    out
}

/// Builds a store-one-pair body.
fn body_hset(t: &str, p: &Option<Kvpair>) -> (r: Vec<u8>)
    ensures
        r@ == spec_enc_hset_body(
            t@,
            match p {
                Some(pp) => Some(pp@),
                None => None,
            },
        ),
{
    let mut out: Vec<u8> = Vec::new();
    enc_str_field_to(&mut out, 0x0A, t);
    match p {
        None => {
            proof {
                assert(out@ =~= spec_enc_hset_body(t@, Option::<crate::value::KvpairV>::None));
            }
        },
        Some(pp) => {
            let mut body: Vec<u8> = Vec::new();
            enc_kvpair_to(&mut body, pp);
            enc_field_to(&mut out, 0x12, &body);
            proof {
                assert(out@ =~= spec_enc_hset_body(t@, Some(pp@)));
            }
        },
    }
    out
}

/// Builds a table-and-pairs body.
fn body_str_pairs(t: &str, ps: &Vec<Kvpair>) -> (r: Vec<u8>)
    ensures
        r@ == spec_enc_str_pairs_body(t@, seq_pair_view(ps@)),
{
    let mut out: Vec<u8> = Vec::new();
    enc_str_field_to(&mut out, 0x0A, t);
    enc_pairs_to(&mut out, 0x12, ps);
    proof {
        assert(out@ =~= spec_enc_str_pairs_body(t@, seq_pair_view(ps@)));
    }
    out
}

/// Builds an unsubscribe body.
fn body_str_id(t: &str, id: u32) -> (r: Vec<u8>)
    ensures
        r@ == spec_enc_str_id_body(t@, id),
{
    let mut out: Vec<u8> = Vec::new();
    enc_str_field_to(&mut out, 0x0A, t);
    enc_varint_field_to(&mut out, 0x10, id as u64);
    proof {
        assert(out@ =~= spec_enc_str_id_body(t@, id));
    }
    out
}

/// Builds a topic-and-values body.
fn body_str_values(t: &str, vs: &Vec<Value>) -> (r: Vec<u8>)
    ensures
        r@ == spec_enc_str_values_body(t@, seq_value_view(vs@)),
{
    let mut out: Vec<u8> = Vec::new();
    enc_str_field_to(&mut out, 0x0A, t);
    enc_values_to(&mut out, 0x12, vs);
    proof {
        assert(out@ =~= spec_enc_str_values_body(t@, seq_value_view(vs@)));
    }
    out
}

/// Decodes a whole two-string body.
fn dec_two_str_body(b: &Vec<u8>) -> (r: Option<(String, String)>)
    ensures
        match r {
            Some((a, c)) => spec_dec_two_str_body(b@) == Some((a@, c@)),
            None => spec_dec_two_str_body(b@) is None,
        },
{
    match dec_str_field_at(b, 0, 0x0A) {
        None => None,
        Some((a, j)) => match dec_str_field_at(b, j, 0x12) {
            None => None,
            Some((c, k)) => if k == b.len() {
                Some((a, c))
            } else {
                None
            },
        },
    }
}

/// Decodes a whole one-string body.
fn dec_one_str_body(b: &Vec<u8>) -> (r: Option<String>)
    ensures
        match r {
            Some(t) => spec_dec_one_str_body(b@) == Some(t@),
            None => spec_dec_one_str_body(b@) is None,
        },
{
    match dec_str_field_at(b, 0, 0x0A) {
        None => None,
        Some((t, j)) => if j == b.len() {
            Some(t)
        } else {
            None
        },
    }
}

/// Decodes a whole table-and-keys body.
fn dec_str_strs_body(b: &Vec<u8>) -> (r: Option<(String, Vec<String>)>)
    ensures
        match r {
            Some((t, ks)) => spec_dec_str_strs_body(b@) == Some((t@, seq_str_view(ks@))),
            None => spec_dec_str_strs_body(b@) is None,
        },
{
    match dec_str_field_at(b, 0, 0x0A) {
        None => None,
        Some((t, j)) => match dec_strs_at(b, j, 0x12) {
            None => None,
            Some((ks, k)) => if k == b.len() {
                Some((t, ks))
            } else {
                None
            },
        },
    }
}

/// Decodes a whole store-one-pair body.
fn dec_hset_body(b: &Vec<u8>) -> (r: Option<(String, Option<Kvpair>)>)
    ensures
        match r {
            Some((t, p)) => spec_dec_hset_body(b@) == Some(
                (
                    t@,
                    match p {
                        Some(pp) => Some(pp@),
                        None => None,
                    },
                ),
            ),
            None => spec_dec_hset_body(b@) is None,
        },
{
    match dec_str_field_at(b, 0, 0x0A) {
        None => None,
        Some((t, j)) => {
            if j == b.len() {
                return Some((t, None));
            }
            match dec_field_at(b, j, 0x12) {
                None => None,
                Some((body, k)) => if k == b.len() {
                    match dec_kvpair(&body) {
                        None => None,
                        Some(p) => Some((t, Some(p))),
                    }
                } else {
                    None
                },
            }
        },
    }
}

/// Decodes a whole table-and-pairs body.
fn dec_str_pairs_body(b: &Vec<u8>) -> (r: Option<(String, Vec<Kvpair>)>)
    ensures
        match r {
            Some((t, ps)) => spec_dec_str_pairs_body(b@) == Some((t@, seq_pair_view(ps@))),
            None => spec_dec_str_pairs_body(b@) is None,
        },
{
    match dec_str_field_at(b, 0, 0x0A) {
        None => None,
        Some((t, j)) => match dec_pairs_at(b, j, 0x12) {
            None => None,
            Some((ps, k)) => if k == b.len() {
                Some((t, ps))
            } else {
                None
            },
        },
    }
}

/// Decodes a whole unsubscribe body.
fn dec_str_id_body(b: &Vec<u8>) -> (r: Option<(String, u32)>)
    ensures
        match r {
            Some((t, id)) => spec_dec_str_id_body(b@) == Some((t@, id)),
            None => spec_dec_str_id_body(b@) is None,
        },
{
    match dec_str_field_at(b, 0, 0x0A) {
        None => None,
        Some((t, j)) => match dec_varint_field_at(b, j, 0x10) {
            None => None,
            Some((n, k)) => if k == b.len() && n <= 0xFFFF_FFFF {
                Some((t, n as u32))
            } else {
                None
            },
        },
    }
}

/// Decodes a whole topic-and-values body.
fn dec_str_values_body(b: &Vec<u8>) -> (r: Option<(String, Vec<Value>)>)
    ensures
        match r {
            Some((t, vs)) => spec_dec_str_values_body(b@) == Some((t@, seq_value_view(vs@))),
            None => spec_dec_str_values_body(b@) is None,
        },
{
    match dec_str_field_at(b, 0, 0x0A) {
        None => None,
        Some((t, j)) => match dec_values_at(b, j, 0x12) {
            None => None,
            Some((vs, k)) => if k == b.len() {
                Some((t, vs))
            } else {
                None
            },
        },
    }
}

impl CommandRequest {
    /// Encodes the request into its wire bytes.
    pub fn encode(&self) -> (r: Vec<u8>)
        ensures
            r@ == spec_enc_req(self@),
    {
        match &self.request_data {
            None => Vec::new(),
            Some(RequestData::Hget(g)) => {
                let body = body_two_str(g.table.as_str(), g.key.as_str());
                let mut out: Vec<u8> = Vec::new();
                enc_field_to(&mut out, 0x0A, &body);
                out
            },
            Some(RequestData::Hgetall(g)) => {
                let body = body_one_str(g.table.as_str());
                let mut out: Vec<u8> = Vec::new();
                enc_field_to(&mut out, 0x12, &body);
                out
            },
            Some(RequestData::Hmget(g)) => {
                let body = body_str_strs(g.table.as_str(), &g.keys);
                let mut out: Vec<u8> = Vec::new();
                enc_field_to(&mut out, 0x1A, &body);
                out
            },
            Some(RequestData::Hset(g)) => {
                let body = body_hset(g.table.as_str(), &g.pair);
                let mut out: Vec<u8> = Vec::new();
                enc_field_to(&mut out, 0x22, &body);
                out
            },
            Some(RequestData::Hmset(g)) => {
                let body = body_str_pairs(g.table.as_str(), &g.pairs);
                let mut out: Vec<u8> = Vec::new();
                enc_field_to(&mut out, 0x2A, &body);
                out
            },
            Some(RequestData::Hdel(g)) => {
                let body = body_two_str(g.table.as_str(), g.key.as_str());
                let mut out: Vec<u8> = Vec::new();
                enc_field_to(&mut out, 0x32, &body);
                out
            },
            Some(RequestData::Hmdel(g)) => {
                let body = body_str_strs(g.table.as_str(), &g.keys);
                let mut out: Vec<u8> = Vec::new();
                enc_field_to(&mut out, 0x3A, &body);
                out
            },
            Some(RequestData::Hexist(g)) => {
                let body = body_two_str(g.table.as_str(), g.key.as_str());
                let mut out: Vec<u8> = Vec::new();
                enc_field_to(&mut out, 0x42, &body);
                out
            },
            Some(RequestData::Hmexist(g)) => {
                let body = body_str_strs(g.table.as_str(), &g.keys);
                let mut out: Vec<u8> = Vec::new();
                enc_field_to(&mut out, 0x4A, &body);
                out
            },
            Some(RequestData::Subscribe(g)) => {
                let body = body_one_str(g.topic.as_str());
                let mut out: Vec<u8> = Vec::new();
                enc_field_to(&mut out, 0x52, &body);
                out
            },
            Some(RequestData::Unsubscribe(g)) => {
                let body = body_str_id(g.topic.as_str(), g.id);
                let mut out: Vec<u8> = Vec::new();
                enc_field_to(&mut out, 0x5A, &body);
                out
            },
            Some(RequestData::Publish(g)) => {
                let body = body_str_values(g.topic.as_str(), &g.data);
                let mut out: Vec<u8> = Vec::new();
                enc_field_to(&mut out, 0x62, &body);
                out
            },
        }
    }

    /// Decodes a request from its wire bytes; a byte string that is not the
    /// canonical encoding of any request is a frame error.
    pub fn decode(b: &Vec<u8>) -> (r: Result<CommandRequest, KvError>)
        ensures
            match r {
                Ok(m) => spec_dec_req(b@) == Some(m@),
                Err(e) => spec_dec_req(b@) is None && e@ is FrameError,
            },
    {
        if b.len() == 0 {
            return Ok(CommandRequest { request_data: None });
        }
        let tag = b[0];
        match dec_field_at(b, 0, tag) {
            None => Err(KvError::FrameError(String::from_str("request decode"))),
            Some((body, j)) => {
                if j != b.len() {
                    return Err(KvError::FrameError(String::from_str("request decode")));
                }
                if tag == 0x0A {
                    match dec_two_str_body(&body) {
                        Some((t, k)) => Ok(CommandRequest {
                            request_data: Some(RequestData::Hget(Hget { table: t, key: k })),
                        }),
                        None => Err(KvError::FrameError(String::from_str("request decode"))),
                    }
                } else if tag == 0x12 {
                    match dec_one_str_body(&body) {
                        Some(t) => Ok(CommandRequest {
                            request_data: Some(RequestData::Hgetall(Hgetall { table: t })),
                        }),
                        None => Err(KvError::FrameError(String::from_str("request decode"))),
                    }
                } else if tag == 0x1A {
                    match dec_str_strs_body(&body) {
                        Some((t, ks)) => Ok(CommandRequest {
                            request_data: Some(RequestData::Hmget(Hmget { table: t, keys: ks })),
                        }),
                        None => Err(KvError::FrameError(String::from_str("request decode"))),
                    }
                } else if tag == 0x22 {
                    match dec_hset_body(&body) {
                        Some((t, p)) => Ok(CommandRequest {
                            request_data: Some(RequestData::Hset(Hset { table: t, pair: p })),
                        }),
                        None => Err(KvError::FrameError(String::from_str("request decode"))),
                    }
                } else if tag == 0x2A {
                    match dec_str_pairs_body(&body) {
                        Some((t, ps)) => Ok(CommandRequest {
                            request_data: Some(RequestData::Hmset(Hmset { table: t, pairs: ps })),
                        }),
                        None => Err(KvError::FrameError(String::from_str("request decode"))),
                    }
                } else if tag == 0x32 {
                    match dec_two_str_body(&body) {
                        Some((t, k)) => Ok(CommandRequest {
                            request_data: Some(RequestData::Hdel(Hdel { table: t, key: k })),
                        }),
                        None => Err(KvError::FrameError(String::from_str("request decode"))),
                    }
                } else if tag == 0x3A {
                    match dec_str_strs_body(&body) {
                        Some((t, ks)) => Ok(CommandRequest {
                            request_data: Some(RequestData::Hmdel(Hmdel { table: t, keys: ks })),
                        }),
                        None => Err(KvError::FrameError(String::from_str("request decode"))),
                    }
                } else if tag == 0x42 {
                    match dec_two_str_body(&body) {
                        Some((t, k)) => Ok(CommandRequest {
                            request_data: Some(RequestData::Hexist(Hexist { table: t, key: k })),
                        }),
                        None => Err(KvError::FrameError(String::from_str("request decode"))),
                    }
                } else if tag == 0x4A {
                    match dec_str_strs_body(&body) {
                        Some((t, ks)) => Ok(CommandRequest {
                            request_data: Some(
                                RequestData::Hmexist(Hmexist { table: t, keys: ks }),
                            ),
                        }),
                        None => Err(KvError::FrameError(String::from_str("request decode"))),
                    }
                } else if tag == 0x52 {
                    match dec_one_str_body(&body) {
                        Some(t) => Ok(CommandRequest {
                            request_data: Some(RequestData::Subscribe(Subscribe { topic: t })),
                        }),
                        None => Err(KvError::FrameError(String::from_str("request decode"))),
                    }
                } else if tag == 0x5A {
                    match dec_str_id_body(&body) {
                        Some((t, id)) => Ok(CommandRequest {
                            request_data: Some(
                                RequestData::Unsubscribe(Unsubscribe { topic: t, id }),
                            ),
                        }),
                        None => Err(KvError::FrameError(String::from_str("request decode"))),
                    }
                } else if tag == 0x62 {
                    match dec_str_values_body(&body) {
                        Some((t, vs)) => Ok(CommandRequest {
                            request_data: Some(RequestData::Publish(Publish { topic: t, data: vs })),
                        }),
                        None => Err(KvError::FrameError(String::from_str("request decode"))),
                    }
                } else {
                    Err(KvError::FrameError(String::from_str("request decode")))
                }
            },
        }
    }
}

impl CommandResponse {
    /// Encodes the response into its wire bytes.
    pub fn encode(&self) -> (r: Vec<u8>)
        ensures
            r@ == spec_enc_resp(self@),
    {
        let mut out: Vec<u8> = Vec::new();
        enc_varint_field_to(&mut out, 0x08, self.status as u64);
        enc_str_field_to(&mut out, 0x12, self.message.as_str());
        enc_values_to(&mut out, 0x1A, &self.values);
        enc_pairs_to(&mut out, 0x22, &self.pairs);
        proof {
            assert(out@ =~= spec_enc_resp(self@));
        }
        out
    }

    /// Decodes a response from its wire bytes; a byte string that is not the
    /// canonical encoding of any response is a frame error.
    pub fn decode(b: &Vec<u8>) -> (r: Result<CommandResponse, KvError>)
        ensures
            match r {
                Ok(m) => spec_dec_resp(b@) == Some(m@),
                Err(e) => spec_dec_resp(b@) is None && e@ is FrameError,
            },
    {
        match dec_varint_field_at(b, 0, 0x08) {
            None => Err(KvError::FrameError(String::from_str("response decode"))),
            Some((st, i)) => {
                if st > 0xFFFF_FFFF {
                    return Err(KvError::FrameError(String::from_str("response decode")));
                }
                match dec_str_field_at(b, i, 0x12) {
                    None => Err(KvError::FrameError(String::from_str("response decode"))),
                    Some((msg, j)) => match dec_values_at(b, j, 0x1A) {
                        None => Err(KvError::FrameError(String::from_str("response decode"))),
                        Some((vs, k)) => match dec_pairs_at(b, k, 0x22) {
                            None => Err(KvError::FrameError(String::from_str("response decode"))),
                            Some((ps, end)) => if end == b.len() {
                                Ok(CommandResponse {
                                    status: st as u32,
                                    message: msg,
                                    values: vs,
                                    pairs: ps,
                                })
                            } else {
                                Err(KvError::FrameError(String::from_str("response decode")))
                            },
                        },
                    },
                }
            },
        }
    }
}

impl Value {
    /// Encodes the value into its wire bytes.
    pub fn encode(&self) -> (r: Vec<u8>)
        ensures
            r@ == spec_enc_value(self@),
    {
        let mut out: Vec<u8> = Vec::new();
        enc_value_to(&mut out, self);
        proof {
            assert(out@ =~= spec_enc_value(self@));
        }
        out
    }

    /// Decodes a value from its wire bytes; a byte string that is not the
    /// canonical encoding of any value is a frame error.
    pub fn decode(b: &Vec<u8>) -> (r: Result<Value, KvError>)
        ensures
            match r {
                Ok(v) => spec_dec_value(b@) == Some(v@),
                Err(e) => spec_dec_value(b@) is None && e@ is FrameError,
            },
    {
        match dec_value(b) {
            Some(v) => Ok(v),
            None => Err(KvError::FrameError(String::from_str("value decode"))),
        }
    }
}

} // verus!
