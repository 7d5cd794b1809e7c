//! The general guarantees of the library, each written down and proved.
//!
//! The round trip of single messages is `codec::lemma_req_round_trip` and
//! `codec::lemma_resp_round_trip`; the lemmas here lift it to whole frames
//! and state the storage and publish/subscribe guarantees over the same
//! models the executable contracts use. The compressed side of the frame
//! round trip is carried by `frame::encode_frame` itself, whose contract fixes
//! the returned frame exactly (`spec_frame_of_msg`: plain at or under the
//! compression threshold, compressed and flagged over it) and says it decodes
//! back to the message it was given. Two further guarantees live as contracts rather than
//! lemmas: a subscribe immediately queues exactly one acknowledgement carrying
//! a previously-unseen id (`Topic::subscribe`), and live subscription ids stay
//! pairwise distinct however many subscriptions are created
//! (`Topic::lemma_ids_distinct`).

use vstd::prelude::*;
use crate::frame::{
    FrameCoder, MAX_FRAME, lemma_frame_header, spec_decode_frame_msg, spec_frame,
};
use crate::service::prior_val;
use crate::topic::{CHANNEL_CAPACITY, SubV, has_sub, spec_deliver, spec_distinct_ids, spec_publish};
use crate::value::ValueV;
use crate::msg::RespV;

verus! {

/// Round trip of an uncompressed frame: for every message whose encoding
/// fits a frame, decoding the frame built around that encoding yields the
/// message back.
pub proof fn lemma_frame_round_trip_uncompressed<T: FrameCoder>(v: T::V)
    requires
        T::spec_enc_msg(v).len() <= MAX_FRAME,
    ensures
        spec_decode_frame_msg::<T>(spec_frame(T::spec_enc_msg(v), false)) == Some(v),
{
    lemma_frame_header(T::spec_enc_msg(v), false);
    T::lemma_msg_round_trip(v);
}

/// Storage round trip, over the table model that `Storage`'s contracts use:
/// writing `v1` then `v2` under one key reports `v1` as the value `v2`
/// replaced; a read after the two writes sees `v2`; a read after a removal
/// sees nothing.
pub proof fn lemma_storage_round(m: Map<Seq<char>, ValueV>, k: Seq<char>, v1: ValueV, v2: ValueV)
    ensures
        prior_val(m.insert(k, v1), k) == v1,
        prior_val(m.insert(k, v1).insert(k, v2), k) == v2,
        !m.insert(k, v1).remove(k).contains_key(k),
{
}

/// Writes under distinct keys never lose each other: applied in either
/// order, they leave the same table, holding both values.
pub proof fn lemma_distinct_key_writes_commute(
    m: Map<Seq<char>, ValueV>,
    k1: Seq<char>,
    k2: Seq<char>,
    v1: ValueV,
    v2: ValueV,
)
    requires
        k1 != k2,
    ensures
        m.insert(k1, v1).insert(k2, v2) == m.insert(k2, v2).insert(k1, v1),
        prior_val(m.insert(k1, v1).insert(k2, v2), k1) == v1,
        prior_val(m.insert(k1, v1).insert(k2, v2), k2) == v2,
{
    assert(m.insert(k1, v1).insert(k2, v2) =~= m.insert(k2, v2).insert(k1, v1));
}

/// The subscription carrying the given id, if any.
pub open spec fn sub_of(ss: Seq<SubV>, id: u32) -> Option<SubV>
    decreases ss.len(),
{
    if ss.len() == 0 {
        None
    } else if ss[0].id == id {
        Some(ss[0])
    } else {
        sub_of(ss.drop_first(), id)
    }
}

/// Publishing keeps subscription ids pairwise distinct and introduces none.
pub proof fn lemma_publish_preserves_distinct(ss: Seq<SubV>, name: Seq<char>, v: RespV)
    requires
        spec_distinct_ids(ss),
    ensures
        spec_distinct_ids(spec_publish(ss, name, v)),
        forall|id: u32| has_sub(spec_publish(ss, name, v), id) ==> has_sub(ss, id),
    decreases ss.len(),
{
    if ss.len() > 0 {
        let h = ss[0];
        let dd = ss.drop_first();
        assert(forall|j: int| 0 <= j < dd.len() ==> (#[trigger] dd[j]) == ss[j + 1]);
        lemma_publish_preserves_distinct(dd, name, v);
        let rest = spec_publish(dd, name, v);
        assert forall|id: u32| has_sub(spec_publish(ss, name, v), id) implies has_sub(ss, id) by {
            let out = spec_publish(ss, name, v);
            let j = choose|j: int| 0 <= j < out.len() && (#[trigger] out[j]).id == id;
            if h.topic != name || !(h.closed || h.queue.len() >= CHANNEL_CAPACITY) {
                if j == 0 {
                    assert(ss[0].id == id);
                } else {
                    assert(out.drop_first() =~= rest);
                    assert(rest[j - 1].id == id);
                    assert(has_sub(rest, id));
                    assert(has_sub(dd, id));
                    let k = choose|k: int| 0 <= k < dd.len() && (#[trigger] dd[k]).id == id;
                    assert(ss[k + 1].id == id);
                }
            } else {
                assert(rest[j].id == id);
                assert(has_sub(rest, id));
                assert(has_sub(dd, id));
                let k = choose|k: int| 0 <= k < dd.len() && (#[trigger] dd[k]).id == id;
                assert(ss[k + 1].id == id);
            }
        }
        if h.topic != name || !(h.closed || h.queue.len() >= CHANNEL_CAPACITY) {
            let out = spec_publish(ss, name, v);
            assert(out.drop_first() =~= rest);
            assert forall|a: int, b: int| 0 <= a < b < out.len() implies (#[trigger] out[a]).id
                != (#[trigger] out[b]).id by {
                if a == 0 {
                    assert(out[0].id == h.id);
                    assert(out[b] == rest[b - 1]);
                    if out[b].id == h.id {
                        assert(rest[b - 1].id == h.id);
                        assert(has_sub(rest, h.id));
                        assert(has_sub(dd, h.id));
                        let k = choose|k: int|
                            0 <= k < dd.len() && (#[trigger] dd[k]).id == h.id;
                        assert(ss[k + 1].id == ss[0].id);
                        assert(false);
                    }
                } else {
                    assert(out[a] == rest[a - 1]);
                    assert(out[b] == rest[b - 1]);
                }
            }
        }
    }
}

/// What one publish does to one subscription, under the broadcaster's
/// invariant that ids are pairwise distinct: a subscriber of another topic is
/// untouched; a live subscriber of the topic gets the response appended; a
/// dead subscriber of the topic is removed; an absent id stays absent.
pub proof fn lemma_publish_sub_of(ss: Seq<SubV>, name: Seq<char>, v: RespV, id: u32)
    requires
        spec_distinct_ids(ss),
    ensures
        sub_of(spec_publish(ss, name, v), id) == (match sub_of(ss, id) {
            Some(s) => if s.topic != name {
                Some(s)
            } else if s.closed || s.queue.len() >= CHANNEL_CAPACITY {
                None::<SubV>
            } else {
                Some(spec_deliver(s, v))
            },
            None => None::<SubV>,
        }),
    decreases ss.len(),
{
    if ss.len() > 0 {
        let h = ss[0];
        let dd = ss.drop_first();
        assert(forall|j: int| 0 <= j < dd.len() ==> (#[trigger] dd[j]) == ss[j + 1]);
        lemma_publish_sub_of(dd, name, v, id);
        let rest = spec_publish(dd, name, v);
        if h.topic != name {
            assert((seq![h] + rest).drop_first() =~= rest);
        } else if h.closed || h.queue.len() >= CHANNEL_CAPACITY {
            if h.id == id {
                assert(!has_sub(dd, id));
                lemma_absent_not_sub_of(dd, id);
            }
        } else {
            assert((seq![spec_deliver(h, v)] + rest).drop_first() =~= rest);
        }
    }
}

/// A run of publishes to one topic, applied in order.
pub open spec fn spec_publish_all(ss: Seq<SubV>, name: Seq<char>, vs: Seq<RespV>) -> Seq<SubV>
    decreases vs.len(),
{
    if vs.len() == 0 {
        ss
    } else {
        spec_publish_all(spec_publish(ss, name, vs[0]), name, vs.drop_first())
    }
}

/// Publishing a run of responses — under the broadcaster's invariant that ids
/// are pairwise distinct — delivers all of them, in publish order, to every
/// subscriber of the topic that is live and has room for the whole run; a
/// subscriber of another topic sees nothing; an absent id stays absent.
pub proof fn lemma_publish_all_delivers(ss: Seq<SubV>, name: Seq<char>, vs: Seq<RespV>, id: u32)
    requires
        spec_distinct_ids(ss),
    ensures
        (match sub_of(ss, id) {
            Some(s) => {
                &&& (s.topic == name && !s.closed && s.queue.len() + vs.len() <= CHANNEL_CAPACITY
                    ==> sub_of(spec_publish_all(ss, name, vs), id) == Some(
                    SubV { id: s.id, topic: s.topic, queue: s.queue + vs, closed: s.closed },
                ))
                &&& (s.topic != name ==> sub_of(spec_publish_all(ss, name, vs), id) == Some(s))
            },
            None => sub_of(spec_publish_all(ss, name, vs), id) is None,
        }),
    decreases vs.len(),
{
    match sub_of(ss, id) {
        Some(s) => {
            if vs.len() == 0 {
                if s.topic == name && !s.closed && s.queue.len() <= CHANNEL_CAPACITY {
                    assert(s.queue + vs =~= s.queue);
                    assert(Some(
                        SubV { id: s.id, topic: s.topic, queue: s.queue + vs, closed: s.closed },
                    ) =~~= Some(s));
                }
            } else {
                lemma_publish_sub_of(ss, name, vs[0], id);
                lemma_publish_preserves_distinct(ss, name, vs[0]);
                lemma_publish_all_delivers(
                    spec_publish(ss, name, vs[0]),
                    name,
                    vs.drop_first(),
                    id,
                );
                if s.topic == name && !s.closed && s.queue.len() + vs.len() <= CHANNEL_CAPACITY {
                    let s1 = spec_deliver(s, vs[0]);
                    assert(s1.queue + vs.drop_first() =~= s.queue + vs);
                }
            }
        },
        None => {
            if vs.len() > 0 {
                lemma_publish_sub_of(ss, name, vs[0], id);
                lemma_publish_preserves_distinct(ss, name, vs[0]);
                lemma_publish_all_delivers(
                    spec_publish(ss, name, vs[0]),
                    name,
                    vs.drop_first(),
                    id,
                );
            }
        },
    }
}

/// A removed subscription stays gone under any further run of publishes: once
/// its id is absent, nothing is delivered to it again.
pub proof fn lemma_unsubscribed_sees_nothing(
    ss: Seq<SubV>,
    name: Seq<char>,
    vs: Seq<RespV>,
    id: u32,
)
    requires
        spec_distinct_ids(ss),
        !has_sub(ss, id),
    ensures
        sub_of(spec_publish_all(ss, name, vs), id) is None,
{
    lemma_absent_not_sub_of(ss, id);
    lemma_publish_all_delivers(ss, name, vs, id);
}

/// An id no subscription carries has no subscription to find.
proof fn lemma_absent_not_sub_of(ss: Seq<SubV>, id: u32)
    requires
        !has_sub(ss, id),
    ensures
        sub_of(ss, id) is None,
    decreases ss.len(),
{
    if ss.len() > 0 {
        assert(ss[0].id != id);
        assert(forall|j: int|
            0 <= j < ss.drop_first().len() ==> (#[trigger] ss.drop_first()[j]) == ss[j + 1]);
        lemma_absent_not_sub_of(ss.drop_first(), id);
    }
}

} // verus!
