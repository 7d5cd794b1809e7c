//! The command dispatcher and the service around it.
//!
//! `dispatch` turns one storage-scoped request into exactly one response,
//! reading and writing the store as `spec_req_resp` and `spec_req_tbl` say;
//! `dispatch_stream` hands the publish/subscribe requests to the broadcaster.
//! `Service` wires both behind one entry point, picks the path by the
//! request's own variant tag, and runs the registered lifecycle hooks in
//! registration order: observers around dispatch, and response rewriters just
//! before a reply leaves.

use vstd::prelude::*;
use crate::error::{KvError, KvErrorV};
use crate::msg::{
    CommandRequest, CommandResponse, RequestData, RequestDataV, ReqV, RespV, seq_pair_view,
    seq_str_view, seq_value_view, spec_resp_error, spec_resp_ok, spec_resp_pairs,
    spec_resp_values, Hget, Hgetall, Hmget, Hset, Hmset, Hdel, Hmdel, Hexist, Hmexist,
};
use crate::storage::Storage;
use crate::topic::{Broadcaster, spec_publish, spec_sub_ack, SubV, Topic, has_sub};
use crate::value::{Kvpair, KvpairV, Value, ValueV, VariantV};
use crate::wire::{spec_str_contains, spec_u32_digits, str_contains};

verus! {

/// The "no value" state.
pub open spec fn none_value() -> ValueV {
    ValueV { val: None }
}

/// The value a pair stores: an absent value is stored as the "no value"
/// state.
pub open spec fn stored_val(p: KvpairV) -> ValueV {
    match p.val {
        Some(v) => v,
        None => ValueV { val: None },
    }
}

/// The previous value reported for one write: what the key held, or the "no
/// value" state when it held nothing.
pub open spec fn prior_val(m: Map<Seq<char>, ValueV>, k: Seq<char>) -> ValueV {
    if m.contains_key(k) {
        m[k]
    } else {
        none_value()
    }
}

/// Table contents after storing each pair in order.
pub open spec fn spec_msets(m: Map<Seq<char>, ValueV>, ps: Seq<KvpairV>) -> Map<Seq<char>, ValueV>
    decreases ps.len(),
{
    if ps.len() == 0 {
        m
    } else {
        spec_msets(m.insert(ps[0].key, stored_val(ps[0])), ps.drop_first())
    }
}

/// The previous values reported while storing each pair in order.
pub open spec fn spec_msets_vals(m: Map<Seq<char>, ValueV>, ps: Seq<KvpairV>) -> Seq<ValueV>
    decreases ps.len(),
{
    if ps.len() == 0 {
        Seq::<ValueV>::empty()
    } else {
        seq![prior_val(m, ps[0].key)] + spec_msets_vals(
            m.insert(ps[0].key, stored_val(ps[0])),
            ps.drop_first(),
        )
    }
}

/// Table contents after removing each key in order.
pub open spec fn spec_mdels(m: Map<Seq<char>, ValueV>, ks: Seq<Seq<char>>) -> Map<Seq<char>, ValueV>
    decreases ks.len(),
{
    if ks.len() == 0 {
        m
    } else {
        spec_mdels(m.remove(ks[0]), ks.drop_first())
    }
}

/// The removed values reported while removing each key in order.
pub open spec fn spec_mdels_vals(m: Map<Seq<char>, ValueV>, ks: Seq<Seq<char>>) -> Seq<ValueV>
    decreases ks.len(),
{
    if ks.len() == 0 {
        Seq::<ValueV>::empty()
    } else {
        seq![prior_val(m, ks[0])] + spec_mdels_vals(m.remove(ks[0]), ks.drop_first())
    }
}

/// The values reported for a multi-key read.
pub open spec fn spec_mget_vals(m: Map<Seq<char>, ValueV>, ks: Seq<Seq<char>>) -> Seq<ValueV> {
    Seq::new(ks.len(), |i: int| prior_val(m, ks[i]))
}

/// The booleans reported for a multi-key presence test.
pub open spec fn spec_mexist_vals(m: Map<Seq<char>, ValueV>, ks: Seq<Seq<char>>) -> Seq<ValueV> {
    Seq::new(ks.len(), |i: int| ValueV { val: Some(VariantV::Bool(m.contains_key(ks[i]))) })
}

/// Whether an operation belongs to the publish/subscribe side.
pub open spec fn spec_is_pubsub(d: RequestDataV) -> bool {
    d is Subscribe || d is Unsubscribe || d is Publish
}

/// The one response a storage-scoped operation produces, given the store it
/// ran against. Publish/subscribe operations produce the default (status 0)
/// placeholder here; the service never sends it, dispatching them by variant
/// tag instead.
pub open spec fn spec_cmd_resp<S: Storage>(d: RequestDataV, store: S) -> RespV {
    match d {
        RequestDataV::Hget(g) => spec_resp_values(seq![prior_val(store.tbl(g.table), g.key)]),
        RequestDataV::Hgetall(g) => spec_resp_pairs(store.pairs_of(g.table)),
        RequestDataV::Hmget(g) => spec_resp_values(spec_mget_vals(store.tbl(g.table), g.keys)),
        RequestDataV::Hset(g) => match g.pair {
            Some(p) => spec_resp_values(seq![prior_val(store.tbl(g.table), p.key)]),
            None => spec_resp_error(KvErrorV::InvalidCommand("Hset carries no pair"@)),
        },
        RequestDataV::Hmset(g) => spec_resp_values(spec_msets_vals(store.tbl(g.table), g.pairs)),
        RequestDataV::Hdel(g) => spec_resp_values(seq![prior_val(store.tbl(g.table), g.key)]),
        RequestDataV::Hmdel(g) => spec_resp_values(spec_mdels_vals(store.tbl(g.table), g.keys)),
        RequestDataV::Hexist(g) => spec_resp_values(
            seq![ValueV { val: Some(VariantV::Bool(store.tbl(g.table).contains_key(g.key))) }],
        ),
        RequestDataV::Hmexist(g) => spec_resp_values(
            spec_mexist_vals(store.tbl(g.table), g.keys),
        ),
        _ => RespV {
            status: 0,
            message: Seq::<char>::empty(),
            values: Seq::<ValueV>::empty(),
            pairs: Seq::<KvpairV>::empty(),
        },
    }
}

/// The contents of table `t` after a storage-scoped operation ran against
/// `store`.
pub open spec fn spec_cmd_tbl<S: Storage>(d: RequestDataV, store: S, t: Seq<char>) -> Map<
    Seq<char>,
    ValueV,
> {
    match d {
        RequestDataV::Hset(g) => match g.pair {
            Some(p) => if t == g.table {
                store.tbl(t).insert(p.key, stored_val(p))
            } else {
                store.tbl(t)
            },
            None => store.tbl(t),
        },
        RequestDataV::Hmset(g) => if t == g.table {
            spec_msets(store.tbl(t), g.pairs)
        } else {
            store.tbl(t)
        },
        RequestDataV::Hdel(g) => if t == g.table {
            store.tbl(t).remove(g.key)
        } else {
            store.tbl(t)
        },
        RequestDataV::Hmdel(g) => if t == g.table {
            spec_mdels(store.tbl(t), g.keys)
        } else {
            store.tbl(t)
        },
        _ => store.tbl(t),
    }
}

/// The one response a whole request produces: an empty request is an invalid
/// command; anything else is its operation's response.
pub open spec fn spec_req_resp<S: Storage>(req: ReqV, store: S) -> RespV {
    match req.data {
        None => spec_resp_error(KvErrorV::InvalidCommand("Request has no data"@)),
        Some(d) => spec_cmd_resp(d, store),
    }
}

/// The contents of table `t` after a whole request ran against `store`.
pub open spec fn spec_req_tbl<S: Storage>(req: ReqV, store: S, t: Seq<char>) -> Map<
    Seq<char>,
    ValueV,
> {
    match req.data {
        None => store.tbl(t),
        Some(d) => spec_cmd_tbl(d, store, t),
    }
}

/// One storage-scoped operation: executing it against a store yields exactly
/// the response and table contents of `spec_cmd_resp` and `spec_cmd_tbl`.
pub trait CommandService: Sized {
    /// The operation, as a request variant.
    spec fn cmd(&self) -> RequestDataV;

    /// Runs the operation against the store.
    fn execute<S: Storage>(self, store: &mut S) -> (r: CommandResponse)
        requires
            old(store).inv(),
        ensures
            final(store).inv(),
            r@ == spec_cmd_resp(self.cmd(), *old(store)),
            forall|t: Seq<char>| #![auto]
                final(store).tbl(t) == spec_cmd_tbl(self.cmd(), *old(store), t),
    ;
}

impl CommandService for Hget {
    open spec fn cmd(&self) -> RequestDataV {
        RequestDataV::Hget(self@)
    }

    fn execute<S: Storage>(self, store: &mut S) -> (r: CommandResponse) {
        let got = match store.get(self.table.as_str(), self.key.as_str()) {
            Ok(o) => o,
            Err(_) => {
                proof {
                    assert(false);
                }
                None
            },
        };
        match got {
            Some(v) => CommandResponse::from(v),
            None => CommandResponse::from(Value::default()),
        }
    }
}

impl CommandService for Hgetall {
    open spec fn cmd(&self) -> RequestDataV {
        RequestDataV::Hgetall(self@)
    }

    fn execute<S: Storage>(self, store: &mut S) -> (r: CommandResponse) {
        let pairs = match store.get_all(self.table.as_str()) {
            Ok(ps) => ps,
            Err(_) => {
                proof {
                    assert(false);
                }
                Vec::new()
            },
        };
        CommandResponse::from(pairs)
    }
}

impl CommandService for Hmget {
    open spec fn cmd(&self) -> RequestDataV {
        RequestDataV::Hmget(self@)
    }

    fn execute<S: Storage>(self, store: &mut S) -> (r: CommandResponse) {
        let ghost m = store.tbl(self.table@);
        let ghost ks = seq_str_view(self.keys@);
        let mut vals: Vec<Value> = Vec::new();
        proof {
            assert(seq_value_view(vals@) =~= spec_mget_vals(m, ks.take(0)));
        }
        let mut i: usize = 0;
        while i < self.keys.len()
            invariant
                i <= self.keys@.len(),
                *store == *old(store),
                store.inv(),
                m == store.tbl(self.table@),
                ks == seq_str_view(self.keys@),
                seq_value_view(vals@) =~= spec_mget_vals(m, ks.take(i as int)),
            decreases self.keys@.len() - i,
        {
            let got = match store.get(self.table.as_str(), self.keys[i].as_str()) {
                Ok(o) => o,
                Err(_) => {
                    proof {
                        assert(false);
                    }
                    None
                },
            };
            proof {
                assert(ks[i as int] == self.keys@[i as int]@);
            }
            let ghost prevvals = vals@;
            match got {
                Some(v) => vals.push(v),
                None => vals.push(Value::default()),
            }
            proof {
                assert(vals@.drop_last() =~= prevvals);
                assert(vals@.last()@ == prior_val(m, ks[i as int]));
                assert(seq_value_view(vals@) =~= seq_value_view(prevvals).push(vals@.last()@));
                assert(seq_value_view(vals@) =~= spec_mget_vals(m, ks.take(i + 1)));
            }
            i = i + 1;
        }
        proof {
            assert(ks.take(ks.len() as int) =~= ks);
        }
        CommandResponse::from(vals)
    }
}

impl CommandService for Hset {
    open spec fn cmd(&self) -> RequestDataV {
        RequestDataV::Hset(self@)
    }

    fn execute<S: Storage>(self, store: &mut S) -> (r: CommandResponse) {
        match self.pair {
            None => CommandResponse::from(
                KvError::InvalidCommand(String::from_str("Hset carries no pair")),
            ),
            Some(pair) => {
                let value = match pair.value {
                    Some(v) => v,
                    None => Value::default(),
                };
                let prior = match store.set(self.table.as_str(), pair.key, value) {
                    Ok(o) => o,
                    Err(_) => {
                        proof {
                            assert(false);
                        }
                        None
                    },
                };
                match prior {
                    Some(v) => CommandResponse::from(v),
                    None => CommandResponse::from(Value::default()),
                }
            },
        }
    }
}

impl CommandService for Hmset {
    open spec fn cmd(&self) -> RequestDataV {
        RequestDataV::Hmset(self@)
    }

    fn execute<S: Storage>(self, store: &mut S) -> (r: CommandResponse) {
        let ghost t = self.table@;
        let ghost ps = seq_pair_view(self.pairs@);
        let ghost m0 = store.tbl(t);
        let mut vals: Vec<Value> = Vec::new();
        proof {
            assert(ps.skip(0) =~= ps);
            assert(seq_value_view(vals@) + spec_msets_vals(store.tbl(t), ps.skip(0))
                =~= spec_msets_vals(m0, ps));
        }
        let mut i: usize = 0;
        while i < self.pairs.len()
            invariant
                i <= self.pairs@.len(),
                store.inv(),
                t == self.table@,
                ps == seq_pair_view(self.pairs@),
                m0 == old(store).tbl(t),
                spec_msets(store.tbl(t), ps.skip(i as int)) == spec_msets(m0, ps),
                seq_value_view(vals@) + spec_msets_vals(store.tbl(t), ps.skip(i as int))
                    =~= spec_msets_vals(m0, ps),
                forall|tt: Seq<char>| tt != t ==> store.tbl(tt) == old(store).tbl(tt),
            decreases self.pairs@.len() - i,
        {
            let ghost mpre = store.tbl(t);
            let pair = &self.pairs[i];
            let key = pair.key.clone();
            let value = match &pair.value {
                Some(v) => v.clone(),
                None => Value::default(),
            };
            proof {
                assert(ps.skip(i as int)[0] == ps[i as int]);
                assert(ps.skip(i as int).drop_first() =~= ps.skip(i + 1));
                assert(value@ == stored_val(ps[i as int]));
            }
            let prior = match store.set(self.table.as_str(), key, value) {
                Ok(o) => o,
                Err(_) => {
                    proof {
                        assert(false);
                    }
                    None
                },
            };
            let ghost prevvals = vals@;
            match prior {
                Some(v) => vals.push(v),
                None => vals.push(Value::default()),
            }
            proof {
                assert(vals@.last()@ == prior_val(mpre, ps[i as int].key));
                assert(seq_value_view(vals@) =~= seq_value_view(prevvals).push(
                    prior_val(mpre, ps[i as int].key),
                ));
                assert(seq_value_view(prevvals).push(prior_val(mpre, ps[i as int].key))
                    + spec_msets_vals(store.tbl(t), ps.skip(i + 1)) =~= seq_value_view(prevvals)
                    + spec_msets_vals(mpre, ps.skip(i as int)));
            }
            i = i + 1;
        }
        proof {
            assert(ps.skip(ps.len() as int) =~= Seq::<KvpairV>::empty());
            assert(seq_value_view(vals@) + Seq::<ValueV>::empty() =~= seq_value_view(vals@));
            assert(seq_value_view(vals@) =~= spec_msets_vals(m0, ps));
        }
        CommandResponse::from(vals)
    }
}

impl CommandService for Hdel {
    open spec fn cmd(&self) -> RequestDataV {
        RequestDataV::Hdel(self@)
    }

    fn execute<S: Storage>(self, store: &mut S) -> (r: CommandResponse) {
        let removed = match store.del(self.table.as_str(), self.key.as_str()) {
            Ok(o) => o,
            Err(_) => {
                proof {
                    assert(false);
                }
                None
            },
        };
        match removed {
            Some(v) => CommandResponse::from(v),
            None => CommandResponse::from(Value::default()),
        }
    }
}

impl CommandService for Hmdel {
    open spec fn cmd(&self) -> RequestDataV {
        RequestDataV::Hmdel(self@)
    }

    fn execute<S: Storage>(self, store: &mut S) -> (r: CommandResponse) {
        let ghost t = self.table@;
        let ghost ks = seq_str_view(self.keys@);
        let ghost m0 = store.tbl(t);
        let mut vals: Vec<Value> = Vec::new();
        proof {
            assert(ks.skip(0) =~= ks);
            assert(seq_value_view(vals@) + spec_mdels_vals(store.tbl(t), ks.skip(0))
                =~= spec_mdels_vals(m0, ks));
        }
        let mut i: usize = 0;
        while i < self.keys.len()
            invariant
                i <= self.keys@.len(),
                store.inv(),
                t == self.table@,
                ks == seq_str_view(self.keys@),
                m0 == old(store).tbl(t),
                spec_mdels(store.tbl(t), ks.skip(i as int)) == spec_mdels(m0, ks),
                seq_value_view(vals@) + spec_mdels_vals(store.tbl(t), ks.skip(i as int))
                    =~= spec_mdels_vals(m0, ks),
                forall|tt: Seq<char>| tt != t ==> store.tbl(tt) == old(store).tbl(tt),
            decreases self.keys@.len() - i,
        {
            let ghost mpre = store.tbl(t);
            proof {
                assert(ks.skip(i as int)[0] == ks[i as int]);
                assert(ks.skip(i as int).drop_first() =~= ks.skip(i + 1));
            }
            let removed = match store.del(self.table.as_str(), self.keys[i].as_str()) {
                Ok(o) => o,
                Err(_) => {
                    proof {
                        assert(false);
                    }
                    None
                },
            };
            let ghost prevvals = vals@;
            match removed {
                Some(v) => vals.push(v),
                None => vals.push(Value::default()),
            }
            proof {
                assert(vals@.last()@ == prior_val(mpre, ks[i as int]));
                assert(seq_value_view(vals@) =~= seq_value_view(prevvals).push(
                    prior_val(mpre, ks[i as int]),
                ));
                assert(seq_value_view(prevvals).push(prior_val(mpre, ks[i as int]))
                    + spec_mdels_vals(store.tbl(t), ks.skip(i + 1)) =~= seq_value_view(prevvals)
                    + spec_mdels_vals(mpre, ks.skip(i as int)));
            }
            i = i + 1;
        }
        proof {
            assert(ks.skip(ks.len() as int) =~= Seq::<Seq<char>>::empty());
            assert(seq_value_view(vals@) + Seq::<ValueV>::empty() =~= seq_value_view(vals@));
            assert(seq_value_view(vals@) =~= spec_mdels_vals(m0, ks));
        }
        CommandResponse::from(vals)
    }
}

impl CommandService for Hexist {
    open spec fn cmd(&self) -> RequestDataV {
        RequestDataV::Hexist(self@)
    }

    fn execute<S: Storage>(self, store: &mut S) -> (r: CommandResponse) {
        let present = match store.contains(self.table.as_str(), self.key.as_str()) {
            Ok(b) => b,
            Err(_) => {
                proof {
                    assert(false);
                }
                false
            },
        };
        CommandResponse::from(Value::from(present))
    }
}

impl CommandService for Hmexist {
    open spec fn cmd(&self) -> RequestDataV {
        RequestDataV::Hmexist(self@)
    }

    fn execute<S: Storage>(self, store: &mut S) -> (r: CommandResponse) {
        let ghost m = store.tbl(self.table@);
        let ghost ks = seq_str_view(self.keys@);
        let mut vals: Vec<Value> = Vec::new();
        proof {
            assert(seq_value_view(vals@) =~= spec_mexist_vals(m, ks.take(0)));
        }
        let mut i: usize = 0;
        while i < self.keys.len()
            invariant
                i <= self.keys@.len(),
                *store == *old(store),
                store.inv(),
                m == store.tbl(self.table@),
                ks == seq_str_view(self.keys@),
                seq_value_view(vals@) =~= spec_mexist_vals(m, ks.take(i as int)),
            decreases self.keys@.len() - i,
        {
            let present = match store.contains(self.table.as_str(), self.keys[i].as_str()) {
                Ok(b) => b,
                Err(_) => {
                    proof {
                        assert(false);
                    }
                    false
                },
            };
            proof {
                assert(ks[i as int] == self.keys@[i as int]@);
            }
            let ghost prevvals = vals@;
            vals.push(Value::from(present));
            proof {
                assert(vals@.drop_last() =~= prevvals);
                assert(vals@.last()@ == (ValueV { val: Some(VariantV::Bool(m.contains_key(
                    ks[i as int],
                ))) }));
                assert(seq_value_view(vals@) =~= seq_value_view(prevvals).push(vals@.last()@));
                assert(seq_value_view(vals@) =~= spec_mexist_vals(m, ks.take(i + 1)));
            }
            i = i + 1;
        }
        proof {
            assert(ks.take(ks.len() as int) =~= ks);
        }
        CommandResponse::from(vals)
    }
}

/// Turns one storage-scoped request into exactly one response. An empty
/// request is answered with an invalid-command error; a publish/subscribe
/// request is answered with the default placeholder and left for
/// `dispatch_stream`.
pub fn dispatch<S: Storage>(cmd: CommandRequest, store: &mut S) -> (r: CommandResponse)
    requires
        old(store).inv(),
    ensures
        final(store).inv(),
        r@ == spec_req_resp(cmd@, *old(store)),
        forall|t: Seq<char>| #![auto] final(store).tbl(t) == spec_req_tbl(cmd@, *old(store), t),
{
    match cmd.request_data {
        Some(RequestData::Hget(p)) => p.execute(store),
        Some(RequestData::Hgetall(p)) => p.execute(store),
        Some(RequestData::Hmget(p)) => p.execute(store),
        Some(RequestData::Hset(p)) => p.execute(store),
        Some(RequestData::Hmset(p)) => p.execute(store),
        Some(RequestData::Hdel(p)) => p.execute(store),
        Some(RequestData::Hmdel(p)) => p.execute(store),
        Some(RequestData::Hexist(p)) => p.execute(store),
        Some(RequestData::Hmexist(p)) => p.execute(store),
        None => CommandResponse::from(
            KvError::InvalidCommand(String::from_str("Request has no data")),
        ),
        _ => CommandResponse::default(),
    }
}

/// What the service hands back for one request: one response for the storage
/// side, or the id of a fresh subscription whose deliveries arrive through
/// the broadcaster.
pub enum ServiceReply {
    Single(CommandResponse),
    Stream(u32),
}

/// Handles the publish/subscribe requests against the broadcaster. A
/// subscribe yields the fresh subscription id; an unsubscribe or publish
/// yields its one response.
pub fn dispatch_stream<T: Topic>(cmd: CommandRequest, topic: &mut T) -> (r: ServiceReply)
    requires
        old(topic).inv(),
        cmd@.data matches Some(RequestDataV::Subscribe(_)) ==> old(topic).fresh_id() < u32::MAX,
        cmd@.data matches Some(d) && spec_is_pubsub(d),
    ensures
        final(topic).inv(),
        match cmd@.data {
            Some(RequestDataV::Subscribe(g)) => (r matches ServiceReply::Stream(id) && id == old(topic).fresh_id() && !has_sub(old(topic).subs(), id) && final(topic).fresh_id() == id + 1
                && final(topic).subs() == old(topic).subs().push(
                SubV { id, topic: g.topic, queue: seq![spec_sub_ack(id)], closed: false },
            )),
            Some(RequestDataV::Unsubscribe(g)) => final(topic).fresh_id() == old(topic).fresh_id() && (r matches ServiceReply::Single(resp) && (if has_sub(
                old(topic).subs(),
                g.id,
            ) {
                resp@ == spec_resp_ok() && exists|j: int|
                    0 <= j < old(topic).subs().len() && (#[trigger] old(topic).subs()[j]).id
                        == g.id && final(topic).subs() == old(topic).subs().remove(j)
            } else {
                resp@ == spec_resp_error(
                    KvErrorV::NotFound("subscription "@ + spec_u32_digits(g.id as nat)),
                ) && final(topic).subs() == old(topic).subs()
            })),
            Some(RequestDataV::Publish(g)) => final(topic).fresh_id() == old(topic).fresh_id()
                && (r matches ServiceReply::Single(resp) && resp@ == spec_resp_ok()) && final(topic).subs() == spec_publish(old(topic).subs(), g.topic, spec_resp_values(g.data)),
            _ => false,
        },
{
    match cmd.request_data {
        Some(RequestData::Subscribe(p)) => {
            let id = topic.subscribe(p.topic);
            ServiceReply::Stream(id)
        },
        Some(RequestData::Unsubscribe(p)) => {
            match topic.unsubscribe(p.topic.as_str(), p.id) {
                Ok(_) => ServiceReply::Single(CommandResponse::ok()),
                Err(e) => ServiceReply::Single(CommandResponse::from(e)),
            }
        },
        Some(RequestData::Publish(p)) => {
            let resp: CommandResponse = CommandResponse::from(p.data);
            topic.publish(p.topic.as_str(), resp);
            ServiceReply::Single(CommandResponse::ok())
        },
        _ => {
            proof {
                assert(false);
            }
            ServiceReply::Single(CommandResponse::ok())
        },
    }
}

/// An observation hook: it sees the data and may not change it.
pub trait Notify<Arg> {
    /// Observes one event.
    fn notify(&self, arg: &Arg);
}

/// A rewriting hook: it may change the data it is handed.
pub trait NotifyMut<Arg> {
    /// Observes and possibly rewrites one event.
    fn notify(&self, arg: &mut Arg);
}

/// A list of observation hooks observes in registration order.
impl<Arg, T: Notify<Arg>> Notify<Arg> for Vec<T> {
    fn notify(&self, arg: &Arg) {
        let mut i: usize = 0;
        while i < self.len()
            decreases self@.len() - i,
        {
            self[i].notify(arg);
            i = i + 1;
        }
    }
}

/// A list of rewriting hooks rewrites in registration order.
impl<Arg, T: NotifyMut<Arg>> NotifyMut<Arg> for Vec<T> {
    fn notify(&self, arg: &mut Arg) {
        let mut i: usize = 0;
        while i < self.len()
            decreases self@.len() - i,
        {
            self[i].notify(arg);
            i = i + 1;
        }
    }
}

/// The hook that does nothing; the default for every hook slot.
pub struct NoopHook;

impl<Arg> Notify<Arg> for NoopHook {
    fn notify(&self, _arg: &Arg) {
    }
}

impl<Arg> NotifyMut<Arg> for NoopHook {
    fn notify(&self, _arg: &mut Arg) {
    }
}

/// The storage and the registered lifecycle hooks of a service: observers of
/// received requests and executed responses, rewriters of outgoing responses,
/// and observers fired after a send.
pub struct ServiceInner<Store, R = NoopHook, E = NoopHook, B = NoopHook, A = NoopHook> {
    pub store: Store,
    pub on_received: Vec<R>,
    pub on_executed: Vec<E>,
    pub on_before_send: Vec<B>,
    pub on_after_send: Vec<A>,
}

impl<Store: Storage, R, E, B, A> ServiceInner<Store, R, E, B, A> {
    /// Wraps a store with no hooks registered.
    pub fn new(store: Store) -> (r: Self)
        ensures
            r.store == store,
            r.on_received@.len() == 0,
            r.on_executed@.len() == 0,
            r.on_before_send@.len() == 0,
            r.on_after_send@.len() == 0,
    {
        ServiceInner {
            store,
            on_received: Vec::new(),
            on_executed: Vec::new(),
            on_before_send: Vec::new(),
            on_after_send: Vec::new(),
        }
    }

    /// Registers one more observer of received requests.
    pub fn fn_received(self, f: R) -> (r: Self)
        ensures
            r.store == self.store,
            r.on_received@ == self.on_received@.push(f),
            r.on_executed@ == self.on_executed@,
            r.on_before_send@ == self.on_before_send@,
            r.on_after_send@ == self.on_after_send@,
    {
        let mut s = self;
        s.on_received.push(f);
        s
    }

    /// Registers one more observer of executed responses.
    pub fn fn_executed(self, f: E) -> (r: Self)
        ensures
            r.store == self.store,
            r.on_received@ == self.on_received@,
            r.on_executed@ == self.on_executed@.push(f),
            r.on_before_send@ == self.on_before_send@,
            r.on_after_send@ == self.on_after_send@,
    {
        let mut s = self;
        s.on_executed.push(f);
        s
    }

    /// Registers one more rewriter of outgoing responses.
    pub fn fn_before_send(self, f: B) -> (r: Self)
        ensures
            r.store == self.store,
            r.on_received@ == self.on_received@,
            r.on_executed@ == self.on_executed@,
            r.on_before_send@ == self.on_before_send@.push(f),
            r.on_after_send@ == self.on_after_send@,
    {
        let mut s = self;
        s.on_before_send.push(f);
        s
    }

    /// Registers one more observer fired after a send.
    pub fn fn_after_send(self, f: A) -> (r: Self)
        ensures
            r.store == self.store,
            r.on_received@ == self.on_received@,
            r.on_executed@ == self.on_executed@,
            r.on_before_send@ == self.on_before_send@,
            r.on_after_send@ == self.on_after_send@.push(f),
    {
        let mut s = self;
        s.on_after_send.push(f);
        s
    }
}

/// One service: the store with its hooks, and the broadcaster for the
/// publish/subscribe side.
pub struct Service<Store = crate::storage::MemTable, R = NoopHook, E = NoopHook, B = NoopHook, A = NoopHook> {
    pub inner: ServiceInner<Store, R, E, B, A>,
    pub broadcaster: Broadcaster,
}

impl<Store: Storage, R, E, B, A> Service<Store, R, E, B, A> {
    /// A service over a fresh broadcaster with no hooks.
    pub fn new(store: Store) -> (r: Self)
        ensures
            r.inner.store == store,
            r.inner.on_before_send@.len() == 0,
            r.broadcaster.inv(),
            r.broadcaster.subs() == Seq::<SubV>::empty(),
            r.broadcaster.fresh_id() == 1,
    {
        Service { inner: ServiceInner::new(store), broadcaster: Broadcaster::new() }
    }
}

impl<Store: Storage, R, E, B, A> From<ServiceInner<Store, R, E, B, A>> for Service<Store, R, E, B, A> {
    /// Wraps configured storage and hooks around a fresh broadcaster.
    fn from(inner: ServiceInner<Store, R, E, B, A>) -> (r: Self)
        ensures
            r.inner == inner,
            r.broadcaster.inv(),
            r.broadcaster.subs() == Seq::<SubV>::empty(),
            r.broadcaster.fresh_id() == 1,
    {
        Service { inner, broadcaster: Broadcaster::new() }
    }
}

impl<Store: Storage, R, E, B, A> vstd::std_specs::convert::FromSpecImpl<ServiceInner<Store, R, E, B, A>> for Service<Store, R, E, B, A> {
    open spec fn obeys_from_spec() -> bool {
        false
    }

    open spec fn from_spec(inner: ServiceInner<Store, R, E, B, A>) -> Self {
        arbitrary()
    }
}

impl<
    Store: Storage,
    R: Notify<CommandRequest>,
    E: Notify<CommandResponse>,
    B: NotifyMut<CommandResponse>,
    A,
> Service<Store, R, E, B, A> {
    /// Handles one request: a storage-scoped request runs through `dispatch`
    /// (hooks observing around it and rewriters touching the outgoing
    /// response), while a publish/subscribe request — picked by its variant
    /// tag — runs through `dispatch_stream`. When no rewriter is registered,
    /// the storage-side response is exactly the dispatcher's; with one
    /// registered, the contract pins only the store and that one reply comes
    /// back — what the rewriter did to it is its own business, since the
    /// `NotifyMut` hook carries no contract of its own.
    pub fn execute(&mut self, cmd: CommandRequest) -> (r: ServiceReply)
        requires
            old(self).inner.store.inv(),
            old(self).broadcaster.inv(),
            cmd@.data matches Some(RequestDataV::Subscribe(_)) ==> old(
                self,
            ).broadcaster.fresh_id() < u32::MAX,
        ensures
            final(self).inner.store.inv(),
            final(self).broadcaster.inv(),
            final(self).inner.on_before_send@ == old(self).inner.on_before_send@,
            match cmd@.data {
                Some(RequestDataV::Subscribe(g)) => final(self).inner.store == old(self).inner.store && (r matches ServiceReply::Stream(id) && id == old(self).broadcaster.fresh_id() && !has_sub(old(self).broadcaster.subs(), id) && final(self).broadcaster.subs() == old(self).broadcaster.subs().push(
                    SubV { id, topic: g.topic, queue: seq![spec_sub_ack(id)], closed: false },
                )),
                Some(RequestDataV::Unsubscribe(g)) => final(self).inner.store == old(self).inner.store && (r matches ServiceReply::Single(resp) && (if has_sub(
                    old(self).broadcaster.subs(),
                    g.id,
                ) {
                    resp@ == spec_resp_ok() && exists|j: int|
                        0 <= j < old(self).broadcaster.subs().len() && (#[trigger] old(self).broadcaster.subs()[j]).id == g.id && final(self).broadcaster.subs()
                            == old(self).broadcaster.subs().remove(j)
                } else {
                    resp@ == spec_resp_error(
                        KvErrorV::NotFound("subscription "@ + spec_u32_digits(g.id as nat)),
                    ) && final(self).broadcaster.subs() == old(self).broadcaster.subs()
                })),
                Some(RequestDataV::Publish(g)) => final(self).inner.store == old(self).inner.store && (r matches ServiceReply::Single(resp) && resp@ == spec_resp_ok())
                    && final(self).broadcaster.subs() == spec_publish(
                    old(self).broadcaster.subs(),
                    g.topic,
                    spec_resp_values(g.data),
                ),
                _ => final(self).broadcaster == old(self).broadcaster && (forall|t: Seq<char>|
                    #![auto]
                    final(self).inner.store.tbl(t) == spec_req_tbl(
                        cmd@,
                        old(self).inner.store,
                        t,
                    )) && r is Single && (old(self).inner.on_before_send@.len() == 0
                    ==> (r matches ServiceReply::Single(resp) && resp@ == spec_req_resp(
                    cmd@,
                    old(self).inner.store,
                ))),
            },
    {
        let is_pubsub = match &cmd.request_data {
            Some(RequestData::Subscribe(_)) => true,
            Some(RequestData::Unsubscribe(_)) => true,
            Some(RequestData::Publish(_)) => true,
            _ => false,
        };
        if is_pubsub {
            dispatch_stream(cmd, &mut self.broadcaster)
        } else {
            Notify::notify(&self.inner.on_received, &cmd);
            let mut res = dispatch(cmd, &mut self.inner.store);
            Notify::notify(&self.inner.on_executed, &res);
            if self.inner.on_before_send.len() > 0 {
                NotifyMut::notify(&self.inner.on_before_send, &mut res);
            }
            ServiceReply::Single(res)
        }
    }
}

/// Whether a response reports plain success carrying exactly the given values
/// and pairs: status 200, an empty message, and those lists.
pub fn assert_res_ok(res: &CommandResponse, values: &[Value], pairs: &[Kvpair]) -> (r: bool)
    ensures
        r == (res@.status == 200 && res@.message == Seq::<char>::empty() && res@.values
            == seq_value_view(values@) && res@.pairs == seq_pair_view(pairs@)),
{
    let status_ok = res.status == 200;
    let message_ok = res.message.as_str().is_empty();
    let values_ok = vec_values_eq(&res.values, values);
    let pairs_ok = vec_pairs_eq(&res.pairs, pairs);
    proof {
        if res@.message == Seq::<char>::empty() {
            assert(res@.message.len() == 0);
        }
        if res@.message.len() == 0 {
            assert(res@.message =~= Seq::<char>::empty());
        }
    }
    status_ok && message_ok && values_ok && pairs_ok
}

/// Whether a response reports the given error: that status code, a message
/// containing the given text, and no values or pairs.
pub fn assert_res_error(res: &CommandResponse, code: u32, msg: &str) -> (r: bool)
    ensures
        r == (res@.status == code && spec_str_contains(res@.message, msg@) && res@.values.len()
            == 0 && res@.pairs.len() == 0),
{
    let status_ok = res.status == code;
    let msg_ok = str_contains(res.message.as_str(), msg);
    let no_values = res.values.len() == 0;
    let no_pairs = res.pairs.len() == 0;
    status_ok && msg_ok && no_values && no_pairs
}

/// Compares a list of values against a slice of values by their views.
fn vec_values_eq(a: &Vec<Value>, b: &[Value]) -> (r: bool)
    ensures
        r == (seq_value_view(a@) == seq_value_view(b@)),
{
    if a.len() != b.len() {
        proof {
            assert(seq_value_view(a@).len() != seq_value_view(b@).len());
        }
        return false;
    }
    let mut i: usize = 0;
    while i < a.len()
        invariant
            i <= a@.len(),
            a@.len() == b@.len(),
            forall|j: int| 0 <= j < i ==> (#[trigger] a@[j])@ == b@[j]@,
        decreases a@.len() - i,
    {
        if !(a[i] == b[i]) {
            proof {
                assert(seq_value_view(a@)[i as int] != seq_value_view(b@)[i as int]);
            }
            return false;
        }
        i = i + 1;
    }
    proof {
        assert(seq_value_view(a@) =~= seq_value_view(b@));
    }
    true
}

/// Compares a list of pairs against a slice of pairs by their views.
fn vec_pairs_eq(a: &Vec<Kvpair>, b: &[Kvpair]) -> (r: bool)
    ensures
        r == (seq_pair_view(a@) == seq_pair_view(b@)),
{
    if a.len() != b.len() {
        proof {
            assert(seq_pair_view(a@).len() != seq_pair_view(b@).len());
        }
        return false;
    }
    let mut i: usize = 0;
    while i < a.len()
        invariant
            i <= a@.len(),
            a@.len() == b@.len(),
            forall|j: int| 0 <= j < i ==> (#[trigger] a@[j])@ == b@[j]@,
        decreases a@.len() - i,
    {
        if !(a[i] == b[i]) {
            proof {
                assert(seq_pair_view(a@)[i as int] != seq_pair_view(b@)[i as int]);
            }
            return false;
        }
        i = i + 1;
    }
    proof {
        assert(seq_pair_view(a@) =~= seq_pair_view(b@));
    }
    true
}

} // verus!
