//! Topic-based publish/subscribe.
//!
//! The broadcaster owns every live subscription: its process-unique id, the
//! topic it watches, its bounded delivery queue, and whether its receiving
//! side has gone away. Subscribing queues one acknowledgement carrying the
//! fresh id before any published data; publishing appends to every live
//! subscriber of the topic, in publish order, and drops subscribers whose
//! queue is full or closed rather than stalling; receiving pops a
//! subscription's queue from the front.

use vstd::prelude::*;
use crate::error::{KvError, KvErrorV};
use crate::msg::{CommandResponse, RespV, spec_resp_values};
use crate::value::{Value, ValueV, ValueVariant, VariantV};
use crate::wire::{spec_u32_digits, str_eq, u32_string};

verus! {

/// How many undelivered responses one subscription may hold.
pub const CHANNEL_CAPACITY: usize = 128;

/// Mathematical model of one subscription.
#[verifier::ext_equal]
pub struct SubV {
    pub id: u32,
    pub topic: Seq<char>,
    pub queue: Seq<RespV>,
    pub closed: bool,
}

/// One live subscription: a process-unique id, the topic it watches, the
/// queue of responses awaiting its receiver, and whether the receiver has
/// gone away.
pub struct Subscription {
    pub id: u32,
    pub topic: String,
    pub queue: Vec<CommandResponse>,
    pub closed: bool,
}

impl View for Subscription {
    type V = SubV;

    open spec fn view(&self) -> SubV {
        SubV {
            id: self.id,
            topic: self.topic@,
            queue: self.queue@.map_values(|r: CommandResponse| r@),
            closed: self.closed,
        }
    }
}

/// View of a run of subscriptions.
pub open spec fn subs_view(s: Seq<Subscription>) -> Seq<SubV> {
    s.map_values(|x: Subscription| x@)
}

/// The acknowledgement a fresh subscription receives first: a status-200
/// response carrying the subscription id as an integer value.
pub open spec fn spec_sub_ack(id: u32) -> RespV {
    spec_resp_values(seq![ValueV { val: Some(VariantV::Int(id as i64)) }])
}

/// Whether some subscription carries the given id.
pub open spec fn has_sub(ss: Seq<SubV>, id: u32) -> bool {
    exists|j: int| 0 <= j < ss.len() && (#[trigger] ss[j]).id == id
}

/// One subscription after one delivery.
pub open spec fn spec_deliver(s: SubV, v: RespV) -> SubV {
    SubV { id: s.id, topic: s.topic, queue: s.queue.push(v), closed: s.closed }
}

/// The subscriptions after publishing `v` to topic `name`: subscribers of
/// other topics are untouched; live subscribers of the topic get `v` appended
/// to their queue, in place; a closed or full subscriber of the topic is
/// removed.
pub open spec fn spec_publish(ss: Seq<SubV>, name: Seq<char>, v: RespV) -> Seq<SubV>
    decreases ss.len(),
{
    if ss.len() == 0 {
        Seq::<SubV>::empty()
    } else {
        let h = ss[0];
        let rest = spec_publish(ss.drop_first(), name, v);
        if h.topic != name {
            seq![h] + rest
        } else if h.closed || h.queue.len() >= CHANNEL_CAPACITY {
            rest
        } else {
            seq![spec_deliver(h, v)] + rest
        }
    }
}

/// Manages every topic's subscriptions and delivers published data.
pub struct Broadcaster {
    pub subs: Vec<Subscription>,
    pub next_id: u32,
}

/// Topic-scoped subscription management, as the dispatcher sees it.
pub trait Topic: Sized {
    /// Internal well-formedness.
    spec fn inv(&self) -> bool;

    /// The live subscriptions, in registration order.
    spec fn subs(&self) -> Seq<SubV>;

    /// The next subscription id to be handed out.
    spec fn fresh_id(&self) -> u32;

    /// Live subscription ids are pairwise distinct: no two subscriptions —
    /// however many were created, concurrently or not — ever share an id.
    proof fn lemma_ids_distinct(&self)
        requires
            self.inv(),
        ensures
            forall|i: int, j: int|
                0 <= i < j < self.subs().len() ==> (#[trigger] self.subs()[i]).id != (
                #[trigger] self.subs()[j]).id,
    ;

    /// Registers a new subscription on `name` under a previously-unseen id
    /// and queues the acknowledgement carrying that id as its first delivery.
    fn subscribe(&mut self, name: String) -> (id: u32)
        requires
            old(self).inv(),
            old(self).fresh_id() < u32::MAX,
        ensures
            final(self).inv(),
            id == old(self).fresh_id(),
            final(self).fresh_id() == id + 1,
            !has_sub(old(self).subs(), id),
            final(self).subs() == old(self).subs().push(
                SubV { id, topic: name@, queue: seq![spec_sub_ack(id)], closed: false },
            ),
    ;

    /// Drops the subscription with the given id; an unknown id is `NotFound`.
    fn unsubscribe(&mut self, name: &str, id: u32) -> (r: Result<u32, KvError>)
        requires
            old(self).inv(),
        ensures
            final(self).inv(),
            final(self).fresh_id() == old(self).fresh_id(),
            match r {
                Ok(rid) => rid == id && exists|j: int|
                    0 <= j < old(self).subs().len() && (#[trigger] old(self).subs()[j]).id == id
                        && final(self).subs() == old(self).subs().remove(j),
                Err(e) => e@ == KvErrorV::NotFound(
                    "subscription "@ + spec_u32_digits(id as nat),
                ) && !has_sub(old(self).subs(), id) && final(self).subs() == old(self).subs(),
            },
    ;

    /// Delivers `value` to every live subscriber of `name`, dropping the dead
    /// ones.
    fn publish(&mut self, name: &str, value: CommandResponse)
        requires
            old(self).inv(),
        ensures
            final(self).inv(),
            final(self).fresh_id() == old(self).fresh_id(),
            final(self).subs() == spec_publish(old(self).subs(), name@, value@),
    ;
}

impl Broadcaster {
    /// A broadcaster with no subscriptions; ids start at 1.
    pub fn new() -> (r: Self)
        ensures
            r.inv(),
            r.subs() == Seq::<SubV>::empty(),
            r.fresh_id() == 1,
    {
        let r = Broadcaster { subs: Vec::new(), next_id: 1 };
        proof {
            assert(r.subs() =~= Seq::<SubV>::empty());
        }
        r
    }

    /// Hands out the next subscription id and moves the counter past it: the
    /// source of process-unique ids, owned by the broadcaster itself.
    fn get_next_subscription_id(&mut self) -> (id: u32)
        requires
            old(self).next_id < u32::MAX,
        ensures
            id == old(self).next_id,
            final(self).next_id == id + 1,
            final(self).subs@ == old(self).subs@,
    {
        let id = self.next_id;
        self.next_id = self.next_id + 1;
        id
    }

    /// Finds the position of the subscription with the given id.
    fn find(&self, id: u32) -> (r: Option<usize>)
        ensures
            match r {
                Some(j) => j < self.subs@.len() && self.subs@[j as int].id == id,
                None => forall|j: int|
                    0 <= j < self.subs@.len() ==> (#[trigger] self.subs@[j]).id != id,
            },
    {
        let mut j: usize = 0;
        while j < self.subs.len()
            invariant
                j <= self.subs@.len(),
                forall|k: int| 0 <= k < j ==> (#[trigger] self.subs@[k]).id != id,
            decreases self.subs@.len() - j,
        {
            if self.subs[j].id == id {
                return Some(j);
            }
            j = j + 1;
        }
        None
    }

    /// Pops the next undelivered response of the subscription with the given
    /// id: what its receiver would see next. Yields nothing when the id is
    /// unknown or its queue is empty.
    pub fn recv(&mut self, id: u32) -> (r: Option<CommandResponse>)
        requires
            old(self).inv(),
        ensures
            final(self).inv(),
            final(self).fresh_id() == old(self).fresh_id(),
            match r {
                Some(resp) => exists|j: int|
                    0 <= j < old(self).subs().len() && (#[trigger] old(self).subs()[j]).id == id
                        && old(self).subs()[j].queue.len() > 0 && resp@ == old(self).subs()[j].queue[0]
                        && final(self).subs() == old(self).subs().update(
                        j,
                        SubV {
                            id: old(self).subs()[j].id,
                            topic: old(self).subs()[j].topic,
                            queue: old(self).subs()[j].queue.drop_first(),
                            closed: old(self).subs()[j].closed,
                        },
                    ),
                None => final(self).subs() == old(self).subs() && (forall|j: int|
                    0 <= j < old(self).subs().len() ==> ((#[trigger] old(self).subs()[j]).id != id
                        || old(self).subs()[j].queue.len() == 0)),
            },
    {
        match self.find(id) {
            None => {
                proof {
                    assert(forall|j: int|
                        0 <= j < old(self).subs().len() ==> (#[trigger] old(self).subs()[j]).id
                            != id);
                }
                None
            },
            Some(j) => {
                let mut sub = self.subs.remove(j);
                if sub.queue.len() == 0 {
                    self.subs.insert(j, sub);
                    proof {
                        assert(self.subs@ =~= old(self).subs@);
                        assert(self.subs() =~= old(self).subs());
                    }
                    return None;
                }
                let resp = sub.queue.remove(0);
                let ghost subv = SubV {
                    id: old(self).subs()[j as int].id,
                    topic: old(self).subs()[j as int].topic,
                    queue: old(self).subs()[j as int].queue.drop_first(),
                    closed: old(self).subs()[j as int].closed,
                };
                self.subs.insert(j, sub);
                proof {
                    assert(sub@.queue =~= old(self).subs()[j as int].queue.drop_first());
                    assert(sub@ =~= subv);
                    assert(self.subs@ =~= old(self).subs@.update(j as int, sub));
                    assert(self.subs() =~= old(self).subs().update(j as int, subv));
                }
                Some(resp)
            },
        }
    }

    /// Drops the subscription with the given id, whatever topic it watches,
    /// returning the id when it was registered. The topic's entry disappears
    /// with its last subscription, since topics exist only through their
    /// subscriptions.
    pub fn remove_subscription(&mut self, name: &str, id: u32) -> (r: Option<u32>)
        requires
            old(self).inv(),
        ensures
            final(self).inv(),
            final(self).fresh_id() == old(self).fresh_id(),
            match r {
                Some(rid) => rid == id && exists|j: int|
                    0 <= j < old(self).subs().len() && (#[trigger] old(self).subs()[j]).id == id
                        && final(self).subs() == old(self).subs().remove(j),
                None => !has_sub(old(self).subs(), id) && final(self).subs() == old(self).subs(),
            },
    {
        match self.find(id) {
            None => {
                proof {
                    assert(forall|j: int|
                        0 <= j < old(self).subs().len() ==> (#[trigger] old(self).subs()[j]).id
                            != id);
                }
                None
            },
            Some(j) => {
                self.subs.remove(j);
                proof {
                    assert(old(self).subs()[j as int].id == id);
                    assert(self.subs() =~= old(self).subs().remove(j as int));
                }
                Some(id)
            },
        }
    }

    /// Marks the subscription's receiving side as gone; the next publish to
    /// its topic removes it. An unknown id changes nothing.
    pub fn close_subscriber(&mut self, id: u32)
        requires
            old(self).inv(),
        ensures
            final(self).inv(),
            final(self).fresh_id() == old(self).fresh_id(),
            (exists|j: int|
                0 <= j < old(self).subs().len() && (#[trigger] old(self).subs()[j]).id == id
                    && final(self).subs() == old(self).subs().update(
                    j,
                    SubV {
                        id: old(self).subs()[j].id,
                        topic: old(self).subs()[j].topic,
                        queue: old(self).subs()[j].queue,
                        closed: true,
                    },
                )) || (!has_sub(old(self).subs(), id) && final(self).subs() == old(self).subs()),
    {
        match self.find(id) {
            None => {
                proof {
                    assert(self.subs() =~= old(self).subs());
                }
            },
            Some(j) => {
                let mut sub = self.subs.remove(j);
                sub.closed = true;
                let ghost subv = SubV {
                    id: old(self).subs()[j as int].id,
                    topic: old(self).subs()[j as int].topic,
                    queue: old(self).subs()[j as int].queue,
                    closed: true,
                };
                self.subs.insert(j, sub);
                proof {
                    assert(sub@ =~= subv);
                    assert(self.subs@ =~= old(self).subs@.update(j as int, sub));
                    assert(self.subs() =~= old(self).subs().update(j as int, subv));
                }
            },
        }
    }
}

impl Default for Broadcaster {
    /// The default broadcaster is empty.
    fn default() -> (r: Self)
        ensures
            r.inv(),
            r.subs() == Seq::<SubV>::empty(),
            r.fresh_id() == 1,
    {
        Broadcaster::new()
    }
}

impl Topic for Broadcaster {
    /// Ids are pairwise distinct and all below the next id to hand out.
    open spec fn inv(&self) -> bool {
        &&& forall|i: int, j: int|
            0 <= i < j < self.subs@.len() ==> (#[trigger] self.subs@[i]).id != (
            #[trigger] self.subs@[j]).id
        &&& forall|i: int|
            0 <= i < self.subs@.len() ==> (#[trigger] self.subs@[i]).id < self.next_id
    }

    open spec fn subs(&self) -> Seq<SubV> {
        subs_view(self.subs@)
    }

    open spec fn fresh_id(&self) -> u32 {
        self.next_id
    }

    proof fn lemma_ids_distinct(&self) {
        assert forall|i: int, j: int|
            0 <= i < j < self.subs().len() implies (#[trigger] self.subs()[i]).id != (
        #[trigger] self.subs()[j]).id by {
            assert(self.subs()[i].id == self.subs@[i].id);
            assert(self.subs()[j].id == self.subs@[j].id);
        }
    }

    fn subscribe(&mut self, name: String) -> (id: u32) {
        let id = self.get_next_subscription_id();
        let mut queue: Vec<CommandResponse> = Vec::new();
        let ack: CommandResponse = CommandResponse::from(Value::from(id as i64));
        queue.push(ack);
        let sub = Subscription { id, topic: name, queue, closed: false };
        let ghost subv = SubV { id, topic: sub.topic@, queue: seq![spec_sub_ack(id)], closed: false };
        proof {
            assert(sub@.queue =~= seq![spec_sub_ack(id)]);
            assert(sub@ =~= subv);
        }
        self.subs.push(sub);
        proof {
            assert(self.subs() =~= old(self).subs().push(subv));
            assert(forall|j: int|
                0 <= j < old(self).subs().len() ==> (#[trigger] old(self).subs()[j]).id
                    == old(self).subs@[j].id);
        }
        id
    }

    fn unsubscribe(&mut self, name: &str, id: u32) -> (r: Result<u32, KvError>) {
        match self.remove_subscription(name, id) {
            Some(rid) => Ok(rid),
            None => {
                let mut m = String::from_str("subscription ");
                let digits = u32_string(id);
                m.append(digits.as_str());
                Err(KvError::NotFound(m))
            },
        }
    }

    fn publish(&mut self, name: &str, value: CommandResponse) {
        let mut kept: Vec<Subscription> = Vec::new();
        let ghost orig = self.subs@;
        proof {
            assert(subs_view(kept@) =~= Seq::<SubV>::empty());
            assert(subs_view(orig).skip(0) =~= subs_view(orig));
        }
        let mut i: usize = 0;
        while i < self.subs.len()
            invariant
                i <= self.subs@.len(),
                self.subs@ == orig,
                self.next_id == old(self).next_id,
                forall|a: int, b: int|
                    0 <= a < b < orig.len() ==> (#[trigger] orig[a]).id != (#[trigger] orig[b]).id,
                forall|a: int| 0 <= a < orig.len() ==> (#[trigger] orig[a]).id < self.next_id,
                forall|a: int|
                    0 <= a < kept@.len() ==> exists|b: int|
                        0 <= b < i && (#[trigger] kept@[a]).id == (#[trigger] orig[b]).id,
                subs_view(kept@) + spec_publish(subs_view(orig).skip(i as int), name@, value@)
                    == spec_publish(subs_view(orig), name@, value@),
                spec_distinct_ids(subs_view(kept@)),
            decreases self.subs@.len() - i,
        {
            let ghost rem = subs_view(orig).skip(i as int);
            proof {
                assert(rem[0] == subs_view(orig)[i as int]);
                assert(rem.drop_first() =~= subs_view(orig).skip(i + 1));
            }
            let sub = &self.subs[i];
            let keep_other = !str_eq(sub.topic.as_str(), name);
            if keep_other {
                let copied = copy_subscription(sub);
                proof {
                    lemma_kept_push(kept@, copied, orig, i as int);
                }
                kept.push(copied);
            } else if !(sub.closed || sub.queue.len() >= CHANNEL_CAPACITY) {
                let mut copied = copy_subscription(sub);
                copied.queue.push(value.clone());
                proof {
                    assert(copied@.queue =~= subs_view(orig)[i as int].queue.push(value@));
                    assert(copied@ =~= spec_deliver(subs_view(orig)[i as int], value@));
                    lemma_kept_push(kept@, copied, orig, i as int);
                }
                kept.push(copied);
            }
            proof {
                assert(subs_view(kept@) + spec_publish(subs_view(orig).skip(i + 1), name@, value@)
                    =~= spec_publish(subs_view(orig), name@, value@));
            }
            i = i + 1;
        }
        proof {
            assert(subs_view(orig).skip(orig.len() as int) =~= Seq::<SubV>::empty());
            assert(subs_view(kept@) =~= spec_publish(subs_view(orig), name@, value@));
            assert forall|a: int, b: int| 0 <= a < b < kept@.len() implies (
            #[trigger] kept@[a]).id != (#[trigger] kept@[b]).id by {
                assert(subs_view(kept@)[a].id == kept@[a].id);
                assert(subs_view(kept@)[b].id == kept@[b].id);
            }
            assert forall|a: int| 0 <= a < kept@.len() implies (#[trigger] kept@[a]).id
                < self.next_id by {
                let b = choose|b: int|
                    0 <= b < orig.len() && (#[trigger] kept@[a]).id == (#[trigger] orig[b]).id;
            }
        }
        self.subs = kept;
    }
}

/// Pairwise-distinct subscription ids.
pub open spec fn spec_distinct_ids(ss: Seq<SubV>) -> bool {
    forall|i: int, j: int|
        0 <= i < j < ss.len() ==> (#[trigger] ss[i]).id != (#[trigger] ss[j]).id
}

/// A kept subscription carries the id of the original it was copied from, so
/// pushing it preserves distinctness of the kept ids.
proof fn lemma_kept_push(kept: Seq<Subscription>, c: Subscription, orig: Seq<Subscription>, i: int)
    requires
        0 <= i < orig.len(),
        c@.id == orig[i]@.id,
        spec_distinct_ids(subs_view(kept)),
        forall|a: int, b: int|
            0 <= a < b < orig.len() ==> (#[trigger] orig[a]).id != (#[trigger] orig[b]).id,
        forall|a: int|
            0 <= a < kept.len() ==> exists|b: int|
                0 <= b < i && (#[trigger] kept[a]).id == (#[trigger] orig[b]).id,
    ensures
        spec_distinct_ids(subs_view(kept.push(c))),
        forall|a: int|
            0 <= a < kept.push(c).len() ==> exists|b: int|
                0 <= b < i + 1 && (#[trigger] kept.push(c)[a]).id == (#[trigger] orig[b]).id,
{
    assert forall|a: int| 0 <= a < kept.push(c).len() implies exists|b: int|
        0 <= b < i + 1 && (#[trigger] kept.push(c)[a]).id == (#[trigger] orig[b]).id by {
        if a < kept.len() {
            assert(kept.push(c)[a] == kept[a]);
            let b = choose|b: int| 0 <= b < i && (#[trigger] kept[a]).id == (#[trigger] orig[b]).id;
            assert(0 <= b < i + 1 && kept.push(c)[a].id == orig[b].id);
        } else {
            assert(kept.push(c)[a] == c);
            assert(c.id == (#[trigger] orig[i]).id);
        }
    }
    assert forall|a: int, b: int| 0 <= a < b < kept.push(c).len() implies (#[trigger] subs_view(
        kept.push(c),
    )[a]).id != (#[trigger] subs_view(kept.push(c))[b]).id by {
        if b < kept.len() {
            assert(subs_view(kept)[a].id != subs_view(kept)[b].id);
        } else {
            let ba = choose|x: int|
                0 <= x < i && (#[trigger] kept[a]).id == (#[trigger] orig[x]).id;
            assert(orig[ba].id != orig[i].id);
        }
    }
}

/// Copies one subscription, preserving its view.
fn copy_subscription(s: &Subscription) -> (r: Subscription)
    ensures
        r@ == s@,
        r.id == s.id,
{
    let mut queue: Vec<CommandResponse> = Vec::new();
    let mut k: usize = 0;
    while k < s.queue.len()
        invariant
            k <= s.queue@.len(),
            queue@.len() == k,
            forall|a: int| 0 <= a < k ==> (#[trigger] queue@[a])@ == s.queue@[a]@,
        decreases s.queue@.len() - k,
    {
        queue.push(s.queue[k].clone());
        k = k + 1;
    }
    let r = Subscription {
        id: s.id,
        topic: s.topic.clone(),
        queue,
        closed: s.closed,
    };
    proof {
        assert(r@.queue =~= s@.queue);
        assert(r@ =~= s@);
    }
    r
}

} // verus!
