//! The publish/subscribe engine that fans live events out to connections.
//!
//! The engine owns one record per live connection: the set of topics the
//! connection currently receives and its bounded outbound event queue.
//! `publish` enqueues an event for every current subscriber of a topic;
//! delivery to one subscriber is independent of every other, and a full
//! queue drops the oldest pending event rather than blocking the
//! publisher. Events published to one topic reach a given subscriber in
//! publish order.

use vstd::prelude::*;

use crate::topic::{Event, Topic};

verus! {

/// The record the engine keeps for one live connection.
pub struct Subscriber {
    /// The connection's session id.
    pub sid: u64,
    /// The topics the connection currently receives, free of duplicates.
    pub topics: Vec<Topic>,
    /// The pending outbound events, oldest first, at most `cap` of them.
    pub queue: Vec<Event>,
}

/// The model of one subscriber: a set of topics and a queue of events.
pub struct SubView {
    pub topics: Set<Topic>,
    pub queue: Seq<Event>,
}

impl View for Subscriber {
    type V = SubView;

    open spec fn view(&self) -> SubView {
        SubView { topics: self.topics@.to_set(), queue: self.queue@ }
    }
}

impl Subscriber {
    pub open spec fn inv(self, cap: nat) -> bool {
        &&& self.topics@.no_duplicates()
        &&& self.queue@.len() <= cap
    }
}

/// True when no two records share a session id.
pub open spec fn sids_distinct(s: Seq<Subscriber>) -> bool {
    forall|i: int, j: int| 0 <= i < j < s.len() ==> s[i].sid != s[j].sid
}

/// The model of the whole engine: session id to subscriber model.
pub open spec fn subs_map(s: Seq<Subscriber>) -> Map<u64, SubView>
    decreases s.len(),
{
    if s.len() == 0 {
        Map::empty()
    } else {
        subs_map(s.drop_last()).insert(s.last().sid, s.last()@)
    }
}

/// A map whose every value is transformed pointwise.
pub open spec fn map_transform(m: Map<u64, SubView>, f: spec_fn(SubView) -> SubView) -> Map<
    u64,
    SubView,
> {
    Map::new(|k: u64| m.dom().contains(k), |k: u64| f(m[k]))
}

/// A bounded enqueue: when the queue is full the oldest pending event is
/// dropped, so the publisher is never blocked.
pub open spec fn enqueue(q: Seq<Event>, e: Event, cap: nat) -> Seq<Event> {
    if q.len() < cap {
        q.push(e)
    } else {
        q.skip(1).push(e)
    }
}

/// What one publish does to one subscriber.
pub open spec fn deliver_sub(sv: SubView, t: Topic, e: Event, cap: nat) -> SubView {
    if sv.topics.contains(t) {
        SubView { topics: sv.topics, queue: enqueue(sv.queue, e, cap) }
    } else {
        sv
    }
}

/// What `publish` does to the engine: every subscriber of `t` gains `e`,
/// every other record is untouched.
pub open spec fn spec_publish(m: Map<u64, SubView>, t: Topic, e: Event, cap: nat) -> Map<
    u64,
    SubView,
> {
    map_transform(m, |sv: SubView| deliver_sub(sv, t, e, cap))
}

/// What `subscribe` does: the topic joins the session's set; an unknown
/// session is left alone.
pub open spec fn spec_subscribe(m: Map<u64, SubView>, sid: u64, t: Topic) -> Map<u64, SubView> {
    if m.dom().contains(sid) {
        m.insert(sid, SubView { topics: m[sid].topics.insert(t), queue: m[sid].queue })
    } else {
        m
    }
}

/// What `unsubscribe` does: the topic leaves the session's set.
pub open spec fn spec_unsubscribe(m: Map<u64, SubView>, sid: u64, t: Topic) -> Map<u64, SubView> {
    if m.dom().contains(sid) {
        m.insert(sid, SubView { topics: m[sid].topics.remove(t), queue: m[sid].queue })
    } else {
        m
    }
}

/// What registering a connection does: a fresh empty record, unless the
/// session is already registered.
pub open spec fn spec_add_session(m: Map<u64, SubView>, sid: u64) -> Map<u64, SubView> {
    if m.dom().contains(sid) {
        m
    } else {
        m.insert(sid, SubView { topics: Set::empty(), queue: Seq::empty() })
    }
}

/// What destroying a session does: the whole record disappears, and with
/// it every subscription the session held.
pub open spec fn spec_remove_session(m: Map<u64, SubView>, sid: u64) -> Map<u64, SubView> {
    m.remove(sid)
}

proof fn lemma_subs_map_contains_all(s: Seq<Subscriber>)
    ensures
        forall|i: int| 0 <= i < s.len() ==> subs_map(s).dom().contains(#[trigger] s[i].sid),
    decreases s.len(),
{
    if s.len() > 0 {
        lemma_subs_map_contains_all(s.drop_last());
        assert forall|i: int| 0 <= i < s.len() implies subs_map(s).dom().contains(
            #[trigger] s[i].sid,
        ) by {
            if i < s.len() - 1 {
                assert(s.drop_last()[i] == s[i]);
                assert(subs_map(s.drop_last()).dom().contains(s[i].sid));
            }
        }
    }
}

proof fn lemma_subs_map_absent(s: Seq<Subscriber>, x: u64)
    requires
        forall|i: int| 0 <= i < s.len() ==> s[i].sid != x,
    ensures
        !subs_map(s).dom().contains(x),
    decreases s.len(),
{
    if s.len() > 0 {
        assert(forall|i: int|
            0 <= i < s.drop_last().len() ==> #[trigger] s.drop_last()[i] == s[i]);
        lemma_subs_map_absent(s.drop_last(), x);
        assert(s[s.len() - 1].sid != x);
    }
}

proof fn lemma_subs_map_index(s: Seq<Subscriber>, i: int)
    requires
        sids_distinct(s),
        0 <= i < s.len(),
    ensures
        subs_map(s).dom().contains(s[i].sid),
        subs_map(s)[s[i].sid] == s[i]@,
    decreases s.len(),
{
    if i < s.len() - 1 {
        lemma_subs_map_index(s.drop_last(), i);
        assert(s.drop_last()[i] == s[i]);
    }
}

proof fn lemma_subs_map_push(s: Seq<Subscriber>, sub: Subscriber)
    ensures
        subs_map(s.push(sub)) == subs_map(s).insert(sub.sid, sub@),
{
    assert(s.push(sub).drop_last() =~= s);
}

proof fn lemma_subs_map_update(s: Seq<Subscriber>, i: int, sub: Subscriber)
    requires
        sids_distinct(s),
        0 <= i < s.len(),
        sub.sid == s[i].sid,
    ensures
        subs_map(s.update(i, sub)) == subs_map(s).insert(sub.sid, sub@),
        sids_distinct(s.update(i, sub)),
    decreases s.len(),
{
    let su = s.update(i, sub);
    if i == s.len() - 1 {
        assert(su.drop_last() =~= s.drop_last());
        assert(su.last() == sub);
        assert(subs_map(su) =~= subs_map(s).insert(sub.sid, sub@));
    } else {
        assert(forall|a: int, b: int|
            0 <= a < b < s.drop_last().len() ==> s.drop_last()[a].sid != s.drop_last()[b].sid);
        lemma_subs_map_update(s.drop_last(), i, sub);
        assert(su.drop_last() =~= s.drop_last().update(i, sub));
        assert(su.last() == s.last());
        assert(s.last().sid != sub.sid);
        assert(subs_map(su) =~= subs_map(s).insert(sub.sid, sub@));
    }
}

proof fn lemma_subs_map_remove(s: Seq<Subscriber>, i: int)
    requires
        sids_distinct(s),
        0 <= i < s.len(),
    ensures
        subs_map(s.remove(i)) == subs_map(s).remove(s[i].sid),
        sids_distinct(s.remove(i)),
    decreases s.len(),
{
    let sr = s.remove(i);
    if i == s.len() - 1 {
        assert(sr =~= s.drop_last());
        assert(forall|j: int| 0 <= j < s.drop_last().len() ==> s.drop_last()[j].sid != s[i].sid);
        lemma_subs_map_absent(s.drop_last(), s[i].sid);
        assert(subs_map(sr) =~= subs_map(s).remove(s[i].sid));
    } else {
        assert(forall|a: int, b: int|
            0 <= a < b < s.drop_last().len() ==> s.drop_last()[a].sid != s.drop_last()[b].sid);
        lemma_subs_map_remove(s.drop_last(), i);
        assert(sr.drop_last() =~= s.drop_last().remove(i));
        assert(sr.last() == s.last());
        assert(s.last().sid != s[i].sid);
        assert(subs_map(sr) =~= subs_map(s).remove(s[i].sid));
    }
}

proof fn lemma_subs_map_pointwise(
    s1: Seq<Subscriber>,
    s2: Seq<Subscriber>,
    f: spec_fn(SubView) -> SubView,
)
    requires
        s1.len() == s2.len(),
        forall|i: int|
            0 <= i < s1.len() ==> #[trigger] s2[i].sid == s1[i].sid && s2[i]@ == f(s1[i]@),
    ensures
        subs_map(s2) == map_transform(subs_map(s1), f),
    decreases s1.len(),
{
    if s1.len() == 0 {
        assert(subs_map(s2) =~= map_transform(subs_map(s1), f));
    } else {
        assert(forall|i: int|
            0 <= i < s1.drop_last().len() ==> #[trigger] s2.drop_last()[i] == s2[i]
                && s1.drop_last()[i] == s1[i]);
        lemma_subs_map_pointwise(s1.drop_last(), s2.drop_last(), f);
        assert(s2[s1.len() - 1].sid == s1.last().sid);
        assert(s2.last()@ == f(s1.last()@));
        assert(subs_map(s2) =~= map_transform(subs_map(s1), f));
    }
}

proof fn lemma_push_to_set(s: Seq<Topic>, t: Topic)
    requires
        !s.contains(t),
        s.no_duplicates(),
    ensures
        s.push(t).to_set() == s.to_set().insert(t),
        s.push(t).no_duplicates(),
{
    let sp = s.push(t);
    assert forall|x: Topic| sp.to_set().contains(x) implies s.to_set().insert(t).contains(x) by {
        let k = choose|k: int| 0 <= k < sp.len() && sp[k] == x;
        if k < s.len() {
            assert(s[k] == x);
        }
    }
    assert forall|x: Topic| s.to_set().insert(t).contains(x) implies sp.to_set().contains(x) by {
        if x == t {
            assert(sp[s.len() as int] == t);
        } else {
            let k = choose|k: int| 0 <= k < s.len() && s[k] == x;
            assert(sp[k] == x);
        }
    }
    assert(sp.to_set() =~= s.to_set().insert(t));
    assert forall|a: int, b: int| 0 <= a < b < sp.len() implies sp[a] != sp[b] by {
        if b == sp.len() - 1 {
            assert(s[a] != t);
        }
    }
}

proof fn lemma_member_insert_to_set(s: Seq<Topic>, t: Topic)
    requires
        s.contains(t),
    ensures
        s.to_set().insert(t) == s.to_set(),
{
    assert(s.to_set().contains(t));
    assert(s.to_set().insert(t) =~= s.to_set());
}

proof fn lemma_remove_to_set(s: Seq<Topic>, j: int)
    requires
        s.no_duplicates(),
        0 <= j < s.len(),
    ensures
        s.remove(j).to_set() == s.to_set().remove(s[j]),
        s.remove(j).no_duplicates(),
{
    let sr = s.remove(j);
    assert(sr.len() == s.len() - 1);
    assert(forall|k: int| 0 <= k < j ==> sr[k] == s[k]);
    assert(forall|k: int| j <= k < sr.len() ==> sr[k] == s[k + 1]);
    assert forall|x: Topic| sr.to_set().contains(x) implies s.to_set().remove(s[j]).contains(
        x,
    ) by {
        let k = choose|k: int| 0 <= k < sr.len() && sr[k] == x;
        if k < j {
            assert(s[k] == x);
            assert(s[k] != s[j]);
        } else {
            assert(s[k + 1] == x);
            assert(s[k + 1] != s[j]);
        }
    }
    assert forall|x: Topic| s.to_set().remove(s[j]).contains(x) implies sr.to_set().contains(
        x,
    ) by {
        let k = choose|k: int| 0 <= k < s.len() && s[k] == x;
        assert(k != j);
        if k < j {
            assert(sr[k] == x);
        } else {
            assert(sr[k - 1] == x);
        }
    }
    assert(sr.to_set() =~= s.to_set().remove(s[j]));
    assert forall|a: int, b: int| 0 <= a < b < sr.len() implies sr[a] != sr[b] by {
        if a < j && b < j {
        } else if a < j {
            assert(sr[a] == s[a] && sr[b] == s[b + 1]);
        } else {
            assert(sr[a] == s[a + 1] && sr[b] == s[b + 1]);
        }
    }
}

proof fn lemma_absent_remove_to_set(s: Seq<Topic>, t: Topic)
    requires
        !s.contains(t),
    ensures
        s.to_set().remove(t) == s.to_set(),
{
    assert(!s.to_set().contains(t));
    assert(s.to_set().remove(t) =~= s.to_set());
}

/// The engine owning every live connection and the topic index.
///
/// `cap` bounds every subscriber's outbound queue; when a queue is full
/// the oldest pending event is dropped in favour of the new one.
pub struct EventConsumerManager {
    pub subs: Vec<Subscriber>,
    pub cap: usize,
}

impl View for EventConsumerManager {
    type V = Map<u64, SubView>;

    open spec fn view(&self) -> Map<u64, SubView> {
        subs_map(self.subs@)
    }
}

impl EventConsumerManager {
    pub open spec fn capacity(&self) -> nat {
        self.cap as nat
    }

    pub open spec fn wf(&self) -> bool {
        &&& self.cap >= 1
        &&& sids_distinct(self.subs@)
        &&& forall|i: int|
            0 <= i < self.subs@.len() ==> #[trigger] self.subs@[i].inv(self.cap as nat)
    }

    /// A fresh engine with no connections, whose queues will hold at most
    /// `cap` pending events each.
    pub fn new(cap: usize) -> (ecm: EventConsumerManager)
        requires
            cap >= 1,
        ensures
            ecm.wf(),
            ecm@ == Map::<u64, SubView>::empty(),
            ecm.capacity() == cap,
    {
        EventConsumerManager { subs: Vec::new(), cap }
    }

    fn find_index(&self, sid: u64) -> (r: Option<usize>)
        ensures
            match r {
                Some(i) => i < self.subs@.len() && self.subs@[i as int].sid == sid,
                None => forall|j: int| 0 <= j < self.subs@.len() ==> self.subs@[j].sid != sid,
            },
    {
        let n = self.subs.len();
        for i in 0..n
            invariant
                n == self.subs@.len(),
                forall|j: int| 0 <= j < i ==> self.subs@[j].sid != sid,
        {
            if self.subs[i].sid == sid {
                return Some(i);
            }
        }
        None
    }

    /// Whether a session is currently registered.
    pub fn has_session(&self, sid: u64) -> (b: bool)
        requires
            self.wf(),
        ensures
            b == self@.dom().contains(sid),
    {
        let r = self.find_index(sid);
        proof {
            match r {
                Some(i) => {
                    lemma_subs_map_contains_all(self.subs@);
                },
                None => {
                    lemma_subs_map_absent(self.subs@, sid);
                },
            }
        }
        r.is_some()
    }

    /// Register a live connection. Registering a session twice has no
    /// further effect.
    pub fn add_session(&mut self, sid: u64)
        requires
            old(self).wf(),
        ensures
            final(self).wf(),
            final(self)@ == spec_add_session(old(self)@, sid),
            final(self).capacity() == old(self).capacity(),
    {
        match self.find_index(sid) {
            Some(i) => {
                proof {
                    lemma_subs_map_contains_all(self.subs@);
                    assert(self@.dom().contains(sid));
                }
            },
            None => {
                let ghost s0 = self.subs@;
                let sub = Subscriber { sid, topics: Vec::new(), queue: Vec::new() };
                self.subs.push(sub);
                proof {
                    lemma_subs_map_absent(s0, sid);
                    assert(self.subs@ =~= s0.push(sub));
                    lemma_subs_map_push(s0, sub);
                    assert(sub@.topics =~= Set::<Topic>::empty());
                    assert(sub@.queue =~= Seq::<Event>::empty());
                    assert(forall|j: int|
                        0 <= j < s0.len() ==> #[trigger] self.subs@[j] == s0[j]);
                    assert(sub.inv(self.cap as nat));
                }
            },
        }
    }

    /// Destroy a session: its record, every subscription it held and its
    /// pending events all disappear; no index entry survives. Destroying
    /// an unknown session is a no-op.
    pub fn remove_session(&mut self, sid: u64)
        requires
            old(self).wf(),
        ensures
            final(self).wf(),
            final(self)@ == spec_remove_session(old(self)@, sid),
            final(self).capacity() == old(self).capacity(),
    {
        match self.find_index(sid) {
            Some(i) => {
                let ghost s0 = self.subs@;
                proof {
                    lemma_subs_map_remove(s0, i as int);
                }
                self.subs.remove(i);
                proof {
                    assert(forall|j: int|
                        0 <= j < self.subs@.len() ==> #[trigger] self.subs@[j] == s0.remove(
                            i as int,
                        )[j]);
                    assert forall|j: int| 0 <= j < self.subs@.len() implies #[trigger] self.subs@[j].inv(
                        self.cap as nat,
                    ) by {
                        if j < i {
                            assert(s0.remove(i as int)[j] == s0[j]);
                        } else {
                            assert(s0.remove(i as int)[j] == s0[j + 1]);
                        }
                    }
                }
            },
            None => {
                proof {
                    lemma_subs_map_absent(self.subs@, sid);
                    assert(self@ =~= spec_remove_session(self@, sid));
                }
            },
        }
    }

    /// Add `t` to the session's topics and index the session under it.
    /// Subscribing twice has no further effect; subscribing an unknown
    /// session is a no-op.
    pub fn subscribe(&mut self, sid: u64, t: Topic)
        requires
            old(self).wf(),
        ensures
            final(self).wf(),
            final(self)@ == spec_subscribe(old(self)@, sid, t),
            final(self).capacity() == old(self).capacity(),
    {
        match self.find_index(sid) {
            Some(i) => {
                let ghost s0 = self.subs@;
                proof {
                    lemma_subs_map_index(s0, i as int);
                }
                let mut sub = self.subs.remove(i);
                proof {
                    assert(sub == s0[i as int]);
                    assert(s0[i as int].inv(self.cap as nat));
                }
                let ghost t0 = sub.topics@;
                if !topics_contain(&sub.topics, t) {
                    sub.topics.push(t);
                    proof {
                        lemma_push_to_set(t0, t);
                    }
                } else {
                    proof {
                        lemma_member_insert_to_set(t0, t);
                    }
                }
                proof {
                    assert(sub@.topics == s0[i as int]@.topics.insert(t));
                }
                self.subs.insert(i, sub);
                proof {
                    assert(self.subs@ =~= s0.update(i as int, sub));
                    lemma_subs_map_update(s0, i as int, sub);
                    assert(sub.inv(self.cap as nat));
                    assert forall|j: int| 0 <= j < self.subs@.len() implies #[trigger] self.subs@[j].inv(
                        self.cap as nat,
                    ) by {
                        if j != i {
                            assert(self.subs@[j] == s0[j]);
                        }
                    }
                }
            },
            None => {
                proof {
                    lemma_subs_map_absent(self.subs@, sid);
                }
            },
        }
    }

    /// Remove `t` from the session's topics and index. Unsubscribing from
    /// a topic not held, or an unknown session, is a no-op, never an error.
    pub fn unsubscribe(&mut self, sid: u64, t: Topic)
        requires
            old(self).wf(),
        ensures
            final(self).wf(),
            final(self)@ == spec_unsubscribe(old(self)@, sid, t),
            final(self).capacity() == old(self).capacity(),
    {
        match self.find_index(sid) {
            Some(i) => {
                let ghost s0 = self.subs@;
                proof {
                    lemma_subs_map_index(s0, i as int);
                }
                let mut sub = self.subs.remove(i);
                proof {
                    assert(sub == s0[i as int]);
                    assert(s0[i as int].inv(self.cap as nat));
                }
                let ghost t0 = sub.topics@;
                match topic_position(&sub.topics, t) {
                    Some(j) => {
                        sub.topics.remove(j);
                        proof {
                            assert(sub.topics@ =~= t0.remove(j as int));
                            lemma_remove_to_set(t0, j as int);
                        }
                    },
                    None => {
                        proof {
                            lemma_absent_remove_to_set(t0, t);
                        }
                    },
                }
                proof {
                    assert(sub@.topics == s0[i as int]@.topics.remove(t));
                }
                self.subs.insert(i, sub);
                proof {
                    assert(self.subs@ =~= s0.update(i as int, sub));
                    lemma_subs_map_update(s0, i as int, sub);
                    assert(sub.inv(self.cap as nat));
                    assert forall|j: int| 0 <= j < self.subs@.len() implies #[trigger] self.subs@[j].inv(
                        self.cap as nat,
                    ) by {
                        if j != i {
                            assert(self.subs@[j] == s0[j]);
                        }
                    }
                }
            },
            None => {
                proof {
                    lemma_subs_map_absent(self.subs@, sid);
                }
            },
        }
    }

    /// Enqueue `e` for every current subscriber of `t`, oldest-first per
    /// queue, dropping a full queue's oldest pending event. Delivery to one
    /// subscriber never affects another, and the publisher always
    /// succeeds, whoever is or is not listening.
    pub fn publish(&mut self, t: Topic, e: Event)
        requires
            old(self).wf(),
        ensures
            final(self).wf(),
            final(self)@ == spec_publish(old(self)@, t, e, old(self).capacity()),
            final(self).capacity() == old(self).capacity(),
    {
        let ghost s0 = self.subs@;
        let ghost cap = self.cap as nat;
        let n = self.subs.len();
        for i in 0..n
            invariant
                n == self.subs@.len() == s0.len(),
                self.cap as nat == cap,
                cap >= 1,
                sids_distinct(s0),
                forall|j: int| 0 <= j < s0.len() ==> #[trigger] s0[j].inv(cap),
                forall|j: int|
                    0 <= j < i ==> #[trigger] self.subs@[j].sid == s0[j].sid && self.subs@[j]@
                        == deliver_sub(s0[j]@, t, e, cap) && self.subs@[j].inv(cap),
                forall|j: int| i <= j < n ==> #[trigger] self.subs@[j] == s0[j],
        {
            let ghost sprev = self.subs@;
            let mut sub = self.subs.remove(i);
            let ghost sub0 = sub;
            proof {
                assert(sub0 == s0[i as int]);
                assert(s0[i as int].inv(cap));
            }
            if topics_contain(&sub.topics, t) {
                if sub.queue.len() >= self.cap {
                    let ghost q0 = sub.queue@;
                    sub.queue.remove(0);
                    proof {
                        assert(sub.queue@ =~= q0.skip(1));
                    }
                }
                sub.queue.push(e);
                proof {
                    assert(sub@.queue =~= enqueue(sub0@.queue, e, cap));
                    assert(sub@ == deliver_sub(sub0@, t, e, cap));
                }
            } else {
                proof {
                    assert(sub@ == deliver_sub(sub0@, t, e, cap));
                }
            }
            self.subs.insert(i, sub);
            proof {
                assert(self.subs@ =~= sprev.update(i as int, sub));
                assert(sub0 == s0[i as int]);
                assert(sub.inv(cap));
            }
        }
        proof {
            let f = |sv: SubView| deliver_sub(sv, t, e, cap);
            assert forall|j: int| 0 <= j < s0.len() implies #[trigger] self.subs@[j].sid
                == s0[j].sid && self.subs@[j]@ == f(s0[j]@) by {
                assert(self.subs@[j].sid == s0[j].sid);
                assert(self.subs@[j]@ == deliver_sub(s0[j]@, t, e, cap));
                assert(f(s0[j]@) == deliver_sub(s0[j]@, t, e, cap));
            }
            lemma_subs_map_pointwise(s0, self.subs@, f);
            assert forall|a: int, b: int|
                0 <= a < b < self.subs@.len() implies self.subs@[a].sid != self.subs@[b].sid by {
                assert(self.subs@[a].sid == s0[a].sid);
                assert(self.subs@[b].sid == s0[b].sid);
            }
        }
    }

    /// Hand the session's pending events out for delivery, oldest first,
    /// leaving its queue empty. An unknown session yields nothing.
    pub fn take_events(&mut self, sid: u64) -> (evs: Vec<Event>)
        requires
            old(self).wf(),
        ensures
            final(self).wf(),
            final(self).capacity() == old(self).capacity(),
            old(self)@.dom().contains(sid) ==> evs@ == old(self)@[sid].queue && final(self)@
                == old(self)@.insert(
                sid,
                SubView { topics: old(self)@[sid].topics, queue: Seq::empty() },
            ),
            !old(self)@.dom().contains(sid) ==> evs@ == Seq::<Event>::empty() && final(self)@
                == old(self)@,
    {
        match self.find_index(sid) {
            Some(i) => {
                let ghost s0 = self.subs@;
                proof {
                    lemma_subs_map_index(s0, i as int);
                }
                let sub = self.subs.remove(i);
                proof {
                    assert(sub == s0[i as int]);
                    assert(s0[i as int].inv(self.cap as nat));
                }
                let Subscriber { sid: sid2, topics, queue } = sub;
                let fresh = Subscriber { sid: sid2, topics, queue: Vec::new() };
                self.subs.insert(i, fresh);
                proof {
                    assert(self.subs@ =~= s0.update(i as int, fresh));
                    lemma_subs_map_update(s0, i as int, fresh);
                    assert(fresh@.queue =~= Seq::<Event>::empty());
                    assert(fresh@ == SubView { topics: s0[i as int]@.topics, queue: Seq::empty() });
                    assert(fresh.inv(self.cap as nat));
                    assert forall|j: int| 0 <= j < self.subs@.len() implies #[trigger] self.subs@[j].inv(
                        self.cap as nat,
                    ) by {
                        if j != i {
                            assert(self.subs@[j] == s0[j]);
                        }
                    }
                }
                queue
            },
            None => {
                proof {
                    lemma_subs_map_absent(self.subs@, sid);
                }
                Vec::new()
            },
        }
    }

    /// Tell a channel's subscribers that a user is typing there.
    pub fn send_typing(&mut self, channel_id: u64, user_id: u64)
        requires
            old(self).wf(),
        ensures
            final(self).wf(),
            final(self)@ == spec_publish(
                old(self)@,
                Topic::Channel(channel_id),
                Event::Typing { channel_id, user_id },
                old(self).capacity(),
            ),
            final(self).capacity() == old(self).capacity(),
    {
        self.publish(Topic::Channel(channel_id), Event::Typing { channel_id, user_id });
    }

    /// Tell a guild's subscribers that its channel list changed.
    pub fn notify_guild_channel_list_update(&mut self, guild_id: u64)
        requires
            old(self).wf(),
        ensures
            final(self).wf(),
            final(self)@ == spec_publish(
                old(self)@,
                Topic::Guild(guild_id),
                Event::ChannelListUpdated { guild_id },
                old(self).capacity(),
            ),
            final(self).capacity() == old(self).capacity(),
    {
        self.publish(Topic::Guild(guild_id), Event::ChannelListUpdated { guild_id });
    }
}

/// The engine state after a whole sequence of events is published to one
/// topic, oldest first.
pub open spec fn spec_publish_all(m: Map<u64, SubView>, t: Topic, es: Seq<Event>, cap: nat) -> Map<
    u64,
    SubView,
>
    decreases es.len(),
{
    if es.len() == 0 {
        m
    } else {
        spec_publish_all(spec_publish(m, t, es[0], cap), t, es.skip(1), cap)
    }
}

/// Law: after `subscribe(S, T)`, publishing `e` to `T` enqueues `e` for `S`
/// exactly once, at the tail of its queue (dropping at most the oldest
/// pending event when the queue was full).
pub proof fn lemma_subscribe_then_publish_delivers(
    m: Map<u64, SubView>,
    s: u64,
    t: Topic,
    e: Event,
    cap: nat,
)
    requires
        m.dom().contains(s),
        cap >= 1,
    ensures
        ({
            let m1 = spec_subscribe(m, s, t);
            let m2 = spec_publish(m1, t, e, cap);
            &&& m2.dom() == m1.dom()
            &&& m2[s].queue == enqueue(m1[s].queue, e, cap)
            &&& m2[s].queue.len() >= 1
            &&& m2[s].queue.last() == e
        }),
{
    let m1 = spec_subscribe(m, s, t);
    let m2 = spec_publish(m1, t, e, cap);
    assert(m1[s].topics.contains(t));
    assert(m2.dom() =~= m1.dom());
}

/// Law: after `unsubscribe(S, T)`, a publish to `T` leaves `S`'s record —
/// queue and topics — exactly as it was.
pub proof fn lemma_unsubscribe_then_publish_skips(
    m: Map<u64, SubView>,
    s: u64,
    t: Topic,
    e: Event,
    cap: nat,
)
    requires
        m.dom().contains(s),
    ensures
        ({
            let m1 = spec_unsubscribe(m, s, t);
            let m2 = spec_publish(m1, t, e, cap);
            &&& m2.dom() == m1.dom()
            &&& m2[s] == m1[s]
        }),
{
    let m1 = spec_unsubscribe(m, s, t);
    let m2 = spec_publish(m1, t, e, cap);
    assert(!m1[s].topics.contains(t));
    assert(deliver_sub(m1[s], t, e, cap) == m1[s]);
    assert(m2.dom() =~= m1.dom());
}

/// Law: a session that is not subscribed to `T` is never reached by
/// publishes to `T`, however many follow each other.
pub proof fn lemma_not_subscribed_never_reached(
    m: Map<u64, SubView>,
    s: u64,
    t: Topic,
    es: Seq<Event>,
    cap: nat,
)
    requires
        m.dom().contains(s),
        !m[s].topics.contains(t),
    ensures
        spec_publish_all(m, t, es, cap).dom().contains(s),
        spec_publish_all(m, t, es, cap)[s] == m[s],
    decreases es.len(),
{
    if es.len() > 0 {
        let m1 = spec_publish(m, t, es[0], cap);
        assert(m1.dom() =~= m.dom());
        assert(deliver_sub(m[s], t, es[0], cap) == m[s]);
        lemma_not_subscribed_never_reached(m1, s, t, es.skip(1), cap);
    }
}

/// Publishing never adds or removes sessions: only queues change.
pub proof fn lemma_publish_all_preserves_dom(
    m: Map<u64, SubView>,
    t: Topic,
    es: Seq<Event>,
    cap: nat,
)
    ensures
        spec_publish_all(m, t, es, cap).dom() == m.dom(),
    decreases es.len(),
{
    if es.len() > 0 {
        let m1 = spec_publish(m, t, es[0], cap);
        assert(m1.dom() =~= m.dom());
        lemma_publish_all_preserves_dom(m1, t, es.skip(1), cap);
    }
}

/// Law: destroying a session removes its whole record — every subscription
/// it held and its pending queue — and no index entry survives: however
/// many events are then published, none is enqueued for it, because no
/// record for it exists to enqueue into.
pub proof fn lemma_destroyed_session_unreachable(
    m: Map<u64, SubView>,
    s: u64,
    t: Topic,
    es: Seq<Event>,
    cap: nat,
)
    ensures
        !spec_remove_session(m, s).dom().contains(s),
        !spec_publish_all(spec_remove_session(m, s), t, es, cap).dom().contains(s),
        spec_publish_all(spec_remove_session(m, s), t, es, cap).dom() == m.dom().remove(s),
{
    lemma_publish_all_preserves_dom(spec_remove_session(m, s), t, es, cap);
}

/// Law: events published to one topic reach a given subscriber in publish
/// order — with room in its queue, two publishes append the two events in
/// that order, oldest first.
pub proof fn lemma_publish_preserves_order(
    m: Map<u64, SubView>,
    s: u64,
    t: Topic,
    e1: Event,
    e2: Event,
    cap: nat,
)
    requires
        m.dom().contains(s),
        m[s].topics.contains(t),
        m[s].queue.len() + 2 <= cap,
    ensures
        spec_publish(spec_publish(m, t, e1, cap), t, e2, cap)[s].queue == m[s].queue.push(e1).push(
            e2,
        ),
{
    let m1 = spec_publish(m, t, e1, cap);
    assert(m1.dom().contains(s));
    assert(m1[s].topics == m[s].topics);
    assert(m1[s].queue == m[s].queue.push(e1));
}

/// Law: subscribing is idempotent — subscribing a second time to the same
/// topic has no further effect.
pub proof fn lemma_subscribe_idempotent(m: Map<u64, SubView>, s: u64, t: Topic)
    ensures
        spec_subscribe(spec_subscribe(m, s, t), s, t) == spec_subscribe(m, s, t),
{
    if m.dom().contains(s) {
        let m1 = spec_subscribe(m, s, t);
        assert(m1[s].topics.insert(t) =~= m1[s].topics);
        assert(spec_subscribe(m1, s, t) =~= m1);
    }
}

/// Law: unsubscribing from a topic the session does not hold is a no-op.
pub proof fn lemma_unsubscribe_absent_noop(m: Map<u64, SubView>, s: u64, t: Topic)
    requires
        m.dom().contains(s) ==> !m[s].topics.contains(t),
    ensures
        spec_unsubscribe(m, s, t) == m,
{
    if m.dom().contains(s) {
        assert(m[s].topics.remove(t) =~= m[s].topics);
        assert(spec_unsubscribe(m, s, t) =~= m);
    }
}

/// Law: a session whose channel subscription switches from topic `a` to
/// topic `b` stops receiving publishes to `a` and starts receiving
/// publishes to `b`.
pub proof fn lemma_switch_topic_delivery(
    m: Map<u64, SubView>,
    s: u64,
    a: Topic,
    b: Topic,
    e1: Event,
    e2: Event,
    cap: nat,
)
    requires
        m.dom().contains(s),
        a != b,
        cap >= 1,
    ensures
        ({
            let m1 = spec_subscribe(spec_unsubscribe(m, s, a), s, b);
            &&& m1.dom().contains(s)
            &&& m1[s].topics.contains(b)
            &&& !m1[s].topics.contains(a)
            &&& spec_publish(m1, a, e1, cap)[s] == m1[s]
            &&& spec_publish(m1, b, e2, cap)[s].queue == enqueue(m1[s].queue, e2, cap)
            &&& spec_publish(m1, b, e2, cap)[s].queue.last() == e2
        }),
{
    let m0 = spec_unsubscribe(m, s, a);
    let m1 = spec_subscribe(m0, s, b);
    assert(!m0[s].topics.contains(a));
    assert(m1[s].topics.contains(b));
    assert(!m1[s].topics.contains(a));
    assert(deliver_sub(m1[s], a, e1, cap) == m1[s]);
}

fn topics_contain(topics: &Vec<Topic>, t: Topic) -> (b: bool)
    ensures
        b == topics@.contains(t),
{
    let n = topics.len();
    for i in 0..n
        invariant
            n == topics@.len(),
            forall|j: int| 0 <= j < i ==> topics@[j] != t,
    {
        if topics[i] == t {
            return true;
        }
    }
    false
}

fn topic_position(topics: &Vec<Topic>, t: Topic) -> (r: Option<usize>)
    ensures
        match r {
            Some(j) => j < topics@.len() && topics@[j as int] == t,
            None => !topics@.contains(t),
        },
{
    let n = topics.len();
    for i in 0..n
        invariant
            n == topics@.len(),
            forall|j: int| 0 <= j < i ==> topics@[j] != t,
    {
        if topics[i] == t {
            return Some(i);
        }
    }
    None
}

} // verus!
