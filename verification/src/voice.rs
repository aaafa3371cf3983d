//! The voice session manager.
//!
//! One `ClientSession` ties a live connection to its identity, its two
//! media transports, its producer and consumer registries and its voice
//! channel membership. The manager owns every session and mediates
//! join/leave, the produce/consume flows and teardown. The media engine
//! itself is a collaborator of the caller: every engine call is made
//! between a synchronous `*_check` (which gates the call) and a
//! `*_commit` (which re-checks liveness and registers the outcome), so
//! the registries never reference a session or transport that is gone.

use vstd::prelude::*;

use crate::pubsub::{spec_publish, spec_remove_session, spec_subscribe, spec_unsubscribe,
    EventConsumerManager};
use crate::topic::{Event, MediaKind, Topic};
use crate::transport::{Transport, TransportError, TransportState};

verus! {

/// An inbound media stream bound to one client-to-server transport.
/// A removed producer stays as a closed tombstone; lookups regard only
/// producers that are not closed.
#[derive(Clone, Copy, Debug, PartialEq, Eq, Structural)]
pub struct Producer {
    pub id: u64,
    pub kind: MediaKind,
    pub closed: bool,
}

/// An outbound forwarding of one remote producer to a local transport.
/// The producer is referenced by id only — a non-owning relation: when
/// the producer disappears, the consumer is closed, never left dangling.
#[derive(Clone, Copy, Debug, PartialEq, Eq, Structural)]
pub struct Consumer {
    pub id: u64,
    pub producer_id: u64,
    pub closed: bool,
}

/// One direction of a session's media path.
#[derive(Clone, Copy, Debug, PartialEq, Eq, Structural)]
pub enum Direction {
    /// The client-to-server transport, which carries produced streams.
    ClientToServer,
    /// The server-to-client transport, which carries consumed streams.
    ServerToClient,
}

/// The typed failure of the produce flow.
#[derive(Clone, Copy, Debug, PartialEq, Eq, Structural)]
pub enum ProduceError {
    /// The client-to-server transport was never created.
    TransportNotCreated,
    /// The client-to-server transport is not connected.
    TransportNotConnected,
    /// The media engine rejected the stream, or the session disappeared
    /// while the engine call was in flight.
    ProducerFailed,
}

impl ProduceError {
    /// The HTTP-level status a handler reports for this failure: a client
    /// fault for out-of-sequence calls, a server fault for engine failures.
    pub fn status_code(&self) -> (code: u16)
        ensures
            code == match *self {
                ProduceError::TransportNotCreated => 400u16,
                ProduceError::TransportNotConnected => 400u16,
                ProduceError::ProducerFailed => 500u16,
            },
    {
        match self {
            ProduceError::TransportNotCreated => 400,
            ProduceError::TransportNotConnected => 400,
            ProduceError::ProducerFailed => 500,
        }
    }

    /// The stable machine-readable tag surfaced to callers.
    pub fn tag(&self) -> (tag: &'static str)
        ensures
            *self == ProduceError::TransportNotCreated ==> tag@ == "transport_not_created"@,
            *self == ProduceError::TransportNotConnected ==> tag@ == "transport_not_connected"@,
            *self == ProduceError::ProducerFailed ==> tag@ == "producer_failed"@,
    {
        match self {
            ProduceError::TransportNotCreated => "transport_not_created",
            ProduceError::TransportNotConnected => "transport_not_connected",
            ProduceError::ProducerFailed => "producer_failed",
        }
    }
}

/// The reply of a successful produce: the id the stream is registered
/// under, unique across the whole server because the engine generates it.
#[derive(Clone, Copy, Debug, PartialEq, Eq, Structural)]
pub struct ProduceReply {
    pub id: u64,
}

/// The typed failure of the consume flow.
#[derive(Clone, Copy, Debug, PartialEq, Eq, Structural)]
pub enum ConsumeError {
    /// The server-to-client transport was never created.
    TransportNotCreated,
    /// The server-to-client transport is not connected.
    TransportNotConnected,
    /// No live producer carries the requested id.
    ProducerNotFound,
    /// The media engine rejected the forwarding, or the session
    /// disappeared while the engine call was in flight.
    ConsumerFailed,
}

/// One live connection's media state.
pub struct ClientSession {
    pub session_id: u64,
    /// The authenticated user, immutable after creation.
    pub user_id: u64,
    pub c2s: Transport,
    pub s2c: Transport,
    pub producers: Vec<Producer>,
    pub consumers: Vec<Consumer>,
    /// The voice channel the session is a member of — at most one.
    pub voice_channel: Option<u64>,
}

/// The model of one session.
pub struct SessionView {
    pub user_id: u64,
    pub c2s: TransportState,
    pub s2c: TransportState,
    pub producers: Seq<Producer>,
    pub consumers: Seq<Consumer>,
    pub voice_channel: Option<u64>,
}

impl View for ClientSession {
    type V = SessionView;

    open spec fn view(&self) -> SessionView {
        SessionView {
            user_id: self.user_id,
            c2s: self.c2s.state,
            s2c: self.s2c.state,
            producers: self.producers@,
            consumers: self.consumers@,
            voice_channel: self.voice_channel,
        }
    }
}

/// True when no two sessions share a session id.
pub open spec fn session_ids_distinct(s: Seq<ClientSession>) -> bool {
    forall|i: int, j: int| 0 <= i < j < s.len() ==> s[i].session_id != s[j].session_id
}

/// The model of the manager: session id to session model.
pub open spec fn sessions_map(s: Seq<ClientSession>) -> Map<u64, SessionView>
    decreases s.len(),
{
    if s.len() == 0 {
        Map::empty()
    } else {
        sessions_map(s.drop_last()).insert(s.last().session_id, s.last()@)
    }
}

/// A map whose every session is transformed pointwise.
pub open spec fn sessions_transform(
    m: Map<u64, SessionView>,
    f: spec_fn(SessionView) -> SessionView,
) -> Map<u64, SessionView> {
    Map::new(|k: u64| m.dom().contains(k), |k: u64| f(m[k]))
}

/// Whether any session holds a producer with this id, live or closed.
/// Producer ids are engine-generated and unique across the whole server.
pub open spec fn spec_has_producer(m: Map<u64, SessionView>, pid: u64) -> bool {
    exists|k: u64, j: int|
        m.dom().contains(k) && 0 <= j < m[k].producers.len() && (#[trigger] m[k].producers[j]).id
            == pid
}

/// Whether any session holds a live (not closed) producer with this id.
pub open spec fn spec_has_active_producer(m: Map<u64, SessionView>, pid: u64) -> bool {
    exists|k: u64, j: int|
        m.dom().contains(k) && 0 <= j < m[k].producers.len() && (#[trigger] m[k].producers[j]).id
            == pid && !m[k].producers[j].closed
}

/// What removing a producer does to one session: the producer becomes a
/// closed tombstone, and every consumer forwarding it is closed with it.
pub open spec fn close_producer_in(sv: SessionView, pid: u64) -> SessionView {
    SessionView {
        producers: sv.producers.map_values(
            |p: Producer|
                if p.id == pid {
                    Producer { id: p.id, kind: p.kind, closed: true }
                } else {
                    p
                },
        ),
        consumers: sv.consumers.map_values(
            |c: Consumer|
                if c.producer_id == pid {
                    Consumer { id: c.id, producer_id: c.producer_id, closed: true }
                } else {
                    c
                },
        ),
        ..sv
    }
}

/// What removing a producer does to the whole server.
pub open spec fn spec_remove_producer(m: Map<u64, SessionView>, pid: u64) -> Map<u64, SessionView> {
    sessions_transform(m, |sv: SessionView| close_producer_in(sv, pid))
}

/// What tearing a session down does to one surviving session: every
/// consumer that forwarded one of the dead session's producers is closed.
pub open spec fn close_consumers_for(sv: SessionView, pids: Set<u64>) -> SessionView {
    SessionView {
        consumers: sv.consumers.map_values(
            |c: Consumer|
                if pids.contains(c.producer_id) {
                    Consumer { id: c.id, producer_id: c.producer_id, closed: true }
                } else {
                    c
                },
        ),
        ..sv
    }
}

/// Every producer id a session ever held.
pub open spec fn producer_ids(s: Seq<Producer>) -> Set<u64> {
    Set::new(|x: u64| exists|j: int| 0 <= j < s.len() && (#[trigger] s[j]).id == x)
}

/// What `teardown` does: the session's record disappears entirely, and
/// every consumer elsewhere that forwarded one of its producers is closed.
pub open spec fn spec_teardown(m: Map<u64, SessionView>, sid: u64) -> Map<u64, SessionView> {
    if m.dom().contains(sid) {
        sessions_transform(
            m.remove(sid),
            |sv: SessionView| close_consumers_for(sv, producer_ids(m[sid].producers)),
        )
    } else {
        m
    }
}

proof fn lemma_sessions_map_contains_all(s: Seq<ClientSession>)
    ensures
        forall|i: int|
            0 <= i < s.len() ==> sessions_map(s).dom().contains(#[trigger] s[i].session_id),
    decreases s.len(),
{
    if s.len() > 0 {
        lemma_sessions_map_contains_all(s.drop_last());
        assert forall|i: int| 0 <= i < s.len() implies sessions_map(s).dom().contains(
            #[trigger] s[i].session_id,
        ) by {
            if i < s.len() - 1 {
                assert(s.drop_last()[i] == s[i]);
                assert(sessions_map(s.drop_last()).dom().contains(s[i].session_id));
            }
        }
    }
}

proof fn lemma_sessions_map_absent(s: Seq<ClientSession>, x: u64)
    requires
        forall|i: int| 0 <= i < s.len() ==> s[i].session_id != x,
    ensures
        !sessions_map(s).dom().contains(x),
    decreases s.len(),
{
    if s.len() > 0 {
        assert(forall|i: int|
            0 <= i < s.drop_last().len() ==> #[trigger] s.drop_last()[i] == s[i]);
        lemma_sessions_map_absent(s.drop_last(), x);
        assert(s[s.len() - 1].session_id != x);
    }
}

proof fn lemma_sessions_map_index(s: Seq<ClientSession>, i: int)
    requires
        session_ids_distinct(s),
        0 <= i < s.len(),
    ensures
        sessions_map(s).dom().contains(s[i].session_id),
        sessions_map(s)[s[i].session_id] == s[i]@,
    decreases s.len(),
{
    if i < s.len() - 1 {
        lemma_sessions_map_index(s.drop_last(), i);
        assert(s.drop_last()[i] == s[i]);
    }
}

proof fn lemma_sessions_map_push(s: Seq<ClientSession>, c: ClientSession)
    ensures
        sessions_map(s.push(c)) == sessions_map(s).insert(c.session_id, c@),
{
    assert(s.push(c).drop_last() =~= s);
}

proof fn lemma_sessions_map_update(s: Seq<ClientSession>, i: int, c: ClientSession)
    requires
        session_ids_distinct(s),
        0 <= i < s.len(),
        c.session_id == s[i].session_id,
    ensures
        sessions_map(s.update(i, c)) == sessions_map(s).insert(c.session_id, c@),
        session_ids_distinct(s.update(i, c)),
    decreases s.len(),
{
    let su = s.update(i, c);
    if i == s.len() - 1 {
        assert(su.drop_last() =~= s.drop_last());
        assert(su.last() == c);
        assert(sessions_map(su) =~= sessions_map(s).insert(c.session_id, c@));
    } else {
        assert(forall|a: int, b: int|
            0 <= a < b < s.drop_last().len() ==> s.drop_last()[a].session_id
                != s.drop_last()[b].session_id);
        lemma_sessions_map_update(s.drop_last(), i, c);
        assert(su.drop_last() =~= s.drop_last().update(i, c));
        assert(su.last() == s.last());
        assert(s.last().session_id != c.session_id);
        assert(sessions_map(su) =~= sessions_map(s).insert(c.session_id, c@));
    }
}

proof fn lemma_sessions_map_remove(s: Seq<ClientSession>, i: int)
    requires
        session_ids_distinct(s),
        0 <= i < s.len(),
    ensures
        sessions_map(s.remove(i)) == sessions_map(s).remove(s[i].session_id),
        session_ids_distinct(s.remove(i)),
    decreases s.len(),
{
    let sr = s.remove(i);
    if i == s.len() - 1 {
        assert(sr =~= s.drop_last());
        assert(forall|j: int|
            0 <= j < s.drop_last().len() ==> s.drop_last()[j].session_id != s[i].session_id);
        lemma_sessions_map_absent(s.drop_last(), s[i].session_id);
        assert(sessions_map(sr) =~= sessions_map(s).remove(s[i].session_id));
    } else {
        assert(forall|a: int, b: int|
            0 <= a < b < s.drop_last().len() ==> s.drop_last()[a].session_id
                != s.drop_last()[b].session_id);
        lemma_sessions_map_remove(s.drop_last(), i);
        assert(sr.drop_last() =~= s.drop_last().remove(i));
        assert(sr.last() == s.last());
        assert(s.last().session_id != s[i].session_id);
        assert(sessions_map(sr) =~= sessions_map(s).remove(s[i].session_id));
    }
}

proof fn lemma_sessions_map_pointwise(
    s1: Seq<ClientSession>,
    s2: Seq<ClientSession>,
    f: spec_fn(SessionView) -> SessionView,
)
    requires
        s1.len() == s2.len(),
        forall|i: int|
            0 <= i < s1.len() ==> #[trigger] s2[i].session_id == s1[i].session_id && s2[i]@ == f(
                s1[i]@,
            ),
    ensures
        sessions_map(s2) == sessions_transform(sessions_map(s1), f),
    decreases s1.len(),
{
    if s1.len() == 0 {
        assert(sessions_map(s2) =~= sessions_transform(sessions_map(s1), f));
    } else {
        assert(forall|i: int|
            0 <= i < s1.drop_last().len() ==> #[trigger] s2.drop_last()[i] == s2[i]
                && s1.drop_last()[i] == s1[i]);
        lemma_sessions_map_pointwise(s1.drop_last(), s2.drop_last(), f);
        assert(s2[s1.len() - 1].session_id == s1.last().session_id);
        assert(s2.last()@ == f(s1.last()@));
        assert(sessions_map(s2) =~= sessions_transform(sessions_map(s1), f));
    }
}

/// The manager owning every live session's media state.
pub struct VoiceServer {
    pub sessions: Vec<ClientSession>,
}

impl View for VoiceServer {
    type V = Map<u64, SessionView>;

    open spec fn view(&self) -> Map<u64, SessionView> {
        sessions_map(self.sessions@)
    }
}

impl VoiceServer {
    pub open spec fn wf(&self) -> bool {
        session_ids_distinct(self.sessions@)
    }

    /// A fresh manager with no sessions.
    pub fn new() -> (vs: VoiceServer)
        ensures
            vs.wf(),
            vs@ == Map::<u64, SessionView>::empty(),
    {
        VoiceServer { sessions: Vec::new() }
    }

    fn find_index(&self, sid: u64) -> (r: Option<usize>)
        ensures
            match r {
                Some(i) => i < self.sessions@.len() && self.sessions@[i as int].session_id == sid,
                None => forall|j: int|
                    0 <= j < self.sessions@.len() ==> self.sessions@[j].session_id != sid,
            },
    {
        let n = self.sessions.len();
        for i in 0..n
            invariant
                n == self.sessions@.len(),
                forall|j: int| 0 <= j < i ==> self.sessions@[j].session_id != sid,
        {
            if self.sessions[i].session_id == sid {
                return Some(i);
            }
        }
        None
    }

    /// Whether a session is currently registered.
    pub fn has_session(&self, sid: u64) -> (b: bool)
        requires
            self.wf(),
        ensures
            b == self@.dom().contains(sid),
    {
        let r = self.find_index(sid);
        proof {
            match r {
                Some(_) => lemma_sessions_map_contains_all(self.sessions@),
                None => lemma_sessions_map_absent(self.sessions@, sid),
            }
        }
        r.is_some()
    }

    /// Register a session for an authenticated user, with both transports
    /// still uninitialized, no media and no channel membership.
    pub fn connect_session(&mut self, sid: u64, user_id: u64)
        requires
            old(self).wf(),
            !old(self)@.dom().contains(sid),
        ensures
            final(self).wf(),
            final(self)@ == old(self)@.insert(
                sid,
                SessionView {
                    user_id,
                    c2s: TransportState::Uninitialized,
                    s2c: TransportState::Uninitialized,
                    producers: Seq::empty(),
                    consumers: Seq::empty(),
                    voice_channel: None,
                },
            ),
    {
        let ghost s0 = self.sessions@;
        let c = ClientSession {
            session_id: sid,
            user_id,
            c2s: Transport::new(),
            s2c: Transport::new(),
            producers: Vec::new(),
            consumers: Vec::new(),
            voice_channel: None,
        };
        self.sessions.push(c);
        proof {
            assert(self.sessions@ =~= s0.push(c));
            lemma_sessions_map_push(s0, c);
            assert(c@.producers =~= Seq::<Producer>::empty());
            assert(c@.consumers =~= Seq::<Consumer>::empty());
            lemma_sessions_map_contains_all(s0);
            assert(forall|j: int| 0 <= j < s0.len() ==> s0[j].session_id != sid);
            assert forall|a: int, b: int|
                0 <= a < b < self.sessions@.len() implies self.sessions@[a].session_id
                != self.sessions@[b].session_id by {
                if b < s0.len() {
                    assert(self.sessions@[a] == s0[a] && self.sessions@[b] == s0[b]);
                } else {
                    assert(self.sessions@[a] == s0[a]);
                    assert(s0[a].session_id != sid);
                }
            }
        }
    }

    /// Negotiate one of the session's transports with the state machine's
    /// `create` transition; the engine call itself is the caller's, made
    /// only after this gate succeeds.
    pub fn create_transport(&mut self, sid: u64, dir: Direction) -> (r: Result<
        (),
        TransportError,
    >)
        requires
            old(self).wf(),
            old(self)@.dom().contains(sid),
        ensures
            final(self).wf(),
            ({
                let sv0 = old(self)@[sid];
                let st0 = if dir is ClientToServer {
                    sv0.c2s
                } else {
                    sv0.s2c
                };
                &&& (r is Ok <==> st0 == TransportState::Uninitialized)
                &&& (r is Err ==> r == Result::<(), TransportError>::Err(
                    TransportError::AlreadyCreated,
                ) && final(self)@ == old(self)@)
                &&& (r is Ok ==> final(self)@ == old(self)@.insert(
                    sid,
                    if dir is ClientToServer {
                        SessionView { c2s: TransportState::Created, ..sv0 }
                    } else {
                        SessionView { s2c: TransportState::Created, ..sv0 }
                    },
                ))
            }),
    {
        let idx = self.find_index(sid);
        proof {
            if idx is None {
                lemma_sessions_map_absent(self.sessions@, sid);
            }
        }
        let i = idx.unwrap();
        let ghost s0 = self.sessions@;
        proof {
            lemma_sessions_map_index(s0, i as int);
        }
        let mut c = self.sessions.remove(i);
        let r = match dir {
            Direction::ClientToServer => c.c2s.create(),
            Direction::ServerToClient => c.s2c.create(),
        };
        self.sessions.insert(i, c);
        proof {
            assert(self.sessions@ =~= s0.update(i as int, c));
            lemma_sessions_map_update(s0, i as int, c);
            if r is Err {
                assert(c == s0[i as int]);
                assert(self@ =~= old(self)@);
            }
        }
        r
    }

    /// Connect one of the session's transports: the `connect` transition
    /// of the state machine, gated exactly as `create`.
    pub fn connect_transport(&mut self, sid: u64, dir: Direction) -> (r: Result<
        (),
        TransportError,
    >)
        requires
            old(self).wf(),
            old(self)@.dom().contains(sid),
        ensures
            final(self).wf(),
            ({
                let sv0 = old(self)@[sid];
                let st0 = if dir is ClientToServer {
                    sv0.c2s
                } else {
                    sv0.s2c
                };
                &&& (r is Ok <==> st0 == TransportState::Created)
                &&& (st0 == TransportState::Uninitialized ==> r == Result::<
                    (),
                    TransportError,
                >::Err(TransportError::NotCreated))
                &&& (st0 == TransportState::Connected ==> r == Result::<(), TransportError>::Err(
                    TransportError::AlreadyConnected,
                ))
                &&& (st0 == TransportState::Closed ==> r == Result::<(), TransportError>::Err(
                    TransportError::NotConnected,
                ))
                &&& (r is Err ==> final(self)@ == old(self)@)
                &&& (r is Ok ==> final(self)@ == old(self)@.insert(
                    sid,
                    if dir is ClientToServer {
                        SessionView { c2s: TransportState::Connected, ..sv0 }
                    } else {
                        SessionView { s2c: TransportState::Connected, ..sv0 }
                    },
                ))
            }),
    {
        let idx = self.find_index(sid);
        proof {
            if idx is None {
                lemma_sessions_map_absent(self.sessions@, sid);
            }
        }
        let i = idx.unwrap();
        let ghost s0 = self.sessions@;
        proof {
            lemma_sessions_map_index(s0, i as int);
        }
        let mut c = self.sessions.remove(i);
        let r = match dir {
            Direction::ClientToServer => c.c2s.connect(),
            Direction::ServerToClient => c.s2c.connect(),
        };
        self.sessions.insert(i, c);
        proof {
            assert(self.sessions@ =~= s0.update(i as int, c));
            lemma_sessions_map_update(s0, i as int, c);
            if r is Err {
                assert(c == s0[i as int]);
                assert(self@ =~= old(self)@);
            }
        }
        r
    }

    /// Close one of the session's transports: lands in `Closed` from any
    /// state, idempotently, and never fails.
    pub fn close_transport(&mut self, sid: u64, dir: Direction)
        requires
            old(self).wf(),
            old(self)@.dom().contains(sid),
        ensures
            final(self).wf(),
            final(self)@ == old(self)@.insert(
                sid,
                if dir is ClientToServer {
                    SessionView { c2s: TransportState::Closed, ..old(self)@[sid] }
                } else {
                    SessionView { s2c: TransportState::Closed, ..old(self)@[sid] }
                },
            ),
    {
        let idx = self.find_index(sid);
        proof {
            if idx is None {
                lemma_sessions_map_absent(self.sessions@, sid);
            }
        }
        let i = idx.unwrap();
        let ghost s0 = self.sessions@;
        proof {
            lemma_sessions_map_index(s0, i as int);
        }
        let mut c = self.sessions.remove(i);
        match dir {
            Direction::ClientToServer => c.c2s.close(),
            Direction::ServerToClient => c.s2c.close(),
        }
        self.sessions.insert(i, c);
        proof {
            assert(self.sessions@ =~= s0.update(i as int, c));
            lemma_sessions_map_update(s0, i as int, c);
        }
    }

    /// The voice channel a session is currently a member of, if any.
    pub fn voice_channel_of(&self, sid: u64) -> (r: Option<u64>)
        requires
            self.wf(),
        ensures
            self@.dom().contains(sid) ==> r == self@[sid].voice_channel,
            !self@.dom().contains(sid) ==> r is None,
    {
        let idx = self.find_index(sid);
        match idx {
            Some(i) => {
                proof {
                    lemma_sessions_map_index(self.sessions@, i as int);
                }
                self.sessions[i].voice_channel
            },
            None => {
                proof {
                    lemma_sessions_map_absent(self.sessions@, sid);
                }
                None
            },
        }
    }

    /// Whether the consumer a session registered under this id is closed:
    /// the state of the first consumer with the id, or nothing when the
    /// session or the consumer does not exist.
    pub fn consumer_closed(&self, sid: u64, cid: u64) -> (r: Option<bool>)
        requires
            self.wf(),
        ensures
            !self@.dom().contains(sid) ==> r is None,
            self@.dom().contains(sid) ==> match r {
                None => forall|j: int|
                    0 <= j < self@[sid].consumers.len() ==> (#[trigger] self@[sid].consumers[j]).id
                        != cid,
                Some(b) => exists|j: int|
                    0 <= j < self@[sid].consumers.len() && (#[trigger] self@[sid].consumers[j]).id
                        == cid && b == self@[sid].consumers[j].closed,
            },
    {
        let idx = self.find_index(sid);
        let i = match idx {
            Some(i) => i,
            None => {
                proof {
                    lemma_sessions_map_absent(self.sessions@, sid);
                }
                return None;
            },
        };
        proof {
            lemma_sessions_map_index(self.sessions@, i as int);
        }
        let cs = &self.sessions[i].consumers;
        let n = cs.len();
        for j in 0..n
            invariant
                n == cs@.len(),
                self@.dom().contains(sid),
                cs@ == self@[sid].consumers,
                forall|k: int| 0 <= k < j ==> (#[trigger] cs@[k]).id != cid,
        {
            if cs[j].id == cid {
                proof {
                    assert(self@.dom().contains(sid));
                    assert((self@[sid].consumers[j as int]).id == cid);
                }
                return Some(cs[j].closed);
            }
        }
        None
    }

    /// Whether any session currently holds a live producer with this id.
    pub fn has_active_producer(&self, pid: u64) -> (b: bool)
        requires
            self.wf(),
        ensures
            b == spec_has_active_producer(self@, pid),
    {
        let n = self.sessions.len();
        for i in 0..n
            invariant
                n == self.sessions@.len(),
                self.wf(),
                forall|a: int, j: int|
                    0 <= a < i && 0 <= j < self.sessions@[a].producers@.len() ==> !((
                    #[trigger] self.sessions@[a].producers@[j]).id == pid
                        && !self.sessions@[a].producers@[j].closed),
        {
            if producers_scan(&self.sessions[i].producers, pid) {
                proof {
                    let j = choose|j: int|
                        0 <= j < self.sessions@[i as int].producers@.len() && (
                        #[trigger] self.sessions@[i as int].producers@[j]).id == pid
                            && !self.sessions@[i as int].producers@[j].closed;
                    lemma_sessions_map_index(self.sessions@, i as int);
                    let k = self.sessions@[i as int].session_id;
                    assert(self@.dom().contains(k) && 0 <= j < self@[k].producers.len() && (
                    #[trigger] self@[k].producers[j]).id == pid && !self@[k].producers[j].closed);
                }
                return true;
            }
        }
        proof {
            if spec_has_active_producer(self@, pid) {
                let (k, j) = choose|k: u64, j: int|
                    self@.dom().contains(k) && 0 <= j < self@[k].producers.len() && (
                    #[trigger] self@[k].producers[j]).id == pid && !self@[k].producers[j].closed;
                lemma_sessions_map_complete(self.sessions@, k);
                let i = choose|i: int|
                    0 <= i < self.sessions@.len() && #[trigger] self.sessions@[i].session_id == k;
                lemma_sessions_map_index(self.sessions@, i);
                assert(self.sessions@[i].producers@[j].id == pid);
                assert(false);
            }
        }
        false
    }

    /// Whether any session holds a producer with this id, live or closed
    /// tombstone alike: the freshness test for an id about to be
    /// registered.
    pub fn has_producer(&self, pid: u64) -> (b: bool)
        requires
            self.wf(),
        ensures
            b == spec_has_producer(self@, pid),
    {
        let n = self.sessions.len();
        for i in 0..n
            invariant
                n == self.sessions@.len(),
                self.wf(),
                forall|a: int, j: int|
                    0 <= a < i && 0 <= j < self.sessions@[a].producers@.len() ==> (
                    #[trigger] self.sessions@[a].producers@[j]).id != pid,
        {
            if producers_scan_any(&self.sessions[i].producers, pid) {
                proof {
                    let j = choose|j: int|
                        0 <= j < self.sessions@[i as int].producers@.len() && (
                        #[trigger] self.sessions@[i as int].producers@[j]).id == pid;
                    lemma_sessions_map_index(self.sessions@, i as int);
                    let k = self.sessions@[i as int].session_id;
                    assert(self@.dom().contains(k) && 0 <= j < self@[k].producers.len() && (
                    #[trigger] self@[k].producers[j]).id == pid);
                }
                return true;
            }
        }
        proof {
            if spec_has_producer(self@, pid) {
                let (k, j) = choose|k: u64, j: int|
                    self@.dom().contains(k) && 0 <= j < self@[k].producers.len() && (
                    #[trigger] self@[k].producers[j]).id == pid;
                lemma_sessions_map_complete(self.sessions@, k);
                let i = choose|i: int|
                    0 <= i < self.sessions@.len() && #[trigger] self.sessions@[i].session_id == k;
                lemma_sessions_map_index(self.sessions@, i);
                assert(self.sessions@[i].producers@[j].id == pid);
                assert(false);
            }
        }
        false
    }

    /// The synchronous gate of the produce flow, checked before any engine
    /// call: the client-to-server transport must be connected.
    pub fn produce_check(&self, sid: u64) -> (r: Result<(), ProduceError>)
        requires
            self.wf(),
            self@.dom().contains(sid),
        ensures
            ({
                let st = self@[sid].c2s;
                &&& (r is Ok <==> st == TransportState::Connected)
                &&& (st == TransportState::Uninitialized ==> r == Result::<(), ProduceError>::Err(
                    ProduceError::TransportNotCreated,
                ))
                &&& (st == TransportState::Created || st == TransportState::Closed ==> r
                    == Result::<(), ProduceError>::Err(ProduceError::TransportNotConnected))
            }),
    {
        let idx = self.find_index(sid);
        proof {
            if idx is None {
                lemma_sessions_map_absent(self.sessions@, sid);
            }
        }
        let i = idx.unwrap();
        proof {
            lemma_sessions_map_index(self.sessions@, i as int);
        }
        match self.sessions[i].c2s.state {
            TransportState::Uninitialized => Err(ProduceError::TransportNotCreated),
            TransportState::Connected => Ok(()),
            _ => Err(ProduceError::TransportNotConnected),
        }
    }

    /// Commit the outcome of the engine's produce call. `engine_result` is
    /// the id the engine gave the new stream, or `None` when the engine
    /// failed. The commit re-checks that the session is still alive and its
    /// transport still connected — a disconnect may have raced the engine
    /// call — and registers nothing otherwise, so the caller must release
    /// the engine resource on any error. On success the producer is
    /// registered first, and only then is `producer_added` published to the
    /// session's voice channel, if it is a member of one.
    pub fn produce_commit(
        &mut self,
        ecm: &mut EventConsumerManager,
        sid: u64,
        kind: MediaKind,
        engine_result: Option<u64>,
    ) -> (r: Result<ProduceReply, ProduceError>)
        requires
            old(self).wf(),
            old(ecm).wf(),
            engine_result matches Some(pid) ==> !spec_has_producer(old(self)@, pid),
        ensures
            final(self).wf(),
            final(ecm).wf(),
            final(ecm).capacity() == old(ecm).capacity(),
            engine_result is None ==> r == Result::<ProduceReply, ProduceError>::Err(
                ProduceError::ProducerFailed,
            ) && final(self)@ == old(self)@ && final(ecm)@ == old(ecm)@,
            engine_result matches Some(pid) ==> ({
                if !old(self)@.dom().contains(sid) {
                    &&& r == Result::<ProduceReply, ProduceError>::Err(ProduceError::ProducerFailed)
                    &&& final(self)@ == old(self)@
                    &&& final(ecm)@ == old(ecm)@
                } else if old(self)@[sid].c2s != TransportState::Connected {
                    &&& r == Result::<ProduceReply, ProduceError>::Err(
                        ProduceError::TransportNotConnected,
                    )
                    &&& final(self)@ == old(self)@
                    &&& final(ecm)@ == old(ecm)@
                } else {
                    &&& r == Result::<ProduceReply, ProduceError>::Ok(ProduceReply { id: pid })
                    &&& final(self)@ == old(self)@.insert(
                        sid,
                        SessionView {
                            producers: old(self)@[sid].producers.push(
                                Producer { id: pid, kind, closed: false },
                            ),
                            ..old(self)@[sid]
                        },
                    )
                    &&& final(ecm)@ == match old(self)@[sid].voice_channel {
                        Some(ch) => spec_publish(
                            old(ecm)@,
                            Topic::Channel(ch),
                            Event::ProducerAdded { channel_id: ch, producer_id: pid, kind },
                            old(ecm).capacity(),
                        ),
                        None => old(ecm)@,
                    }
                }
            }),
    {
        let pid = match engine_result {
            None => {
                return Err(ProduceError::ProducerFailed);
            },
            Some(pid) => pid,
        };
        let idx = self.find_index(sid);
        let i = match idx {
            None => {
                proof {
                    lemma_sessions_map_absent(self.sessions@, sid);
                }
                return Err(ProduceError::ProducerFailed);
            },
            Some(i) => i,
        };
        let ghost s0 = self.sessions@;
        proof {
            lemma_sessions_map_index(s0, i as int);
        }
        let mut c = self.sessions.remove(i);
        match c.c2s.state {
            TransportState::Connected => {},
            _ => {
                self.sessions.insert(i, c);
                proof {
                    assert(self.sessions@ =~= s0);
                }
                return Err(ProduceError::TransportNotConnected);
            },
        }
        c.producers.push(Producer { id: pid, kind, closed: false });
        let ch = c.voice_channel;
        self.sessions.insert(i, c);
        proof {
            assert(self.sessions@ =~= s0.update(i as int, c));
            lemma_sessions_map_update(s0, i as int, c);
        }
        match ch {
            Some(chan) => {
                ecm.publish(
                    Topic::Channel(chan),
                    Event::ProducerAdded { channel_id: chan, producer_id: pid, kind },
                );
            },
            None => {},
        }
        Ok(ProduceReply { id: pid })
    }

    /// The synchronous gate of the consume flow: the server-to-client
    /// transport must be connected and the forwarded producer must be live
    /// somewhere on the server.
    pub fn consume_check(&self, sid: u64, producer_id: u64) -> (r: Result<(), ConsumeError>)
        requires
            self.wf(),
            self@.dom().contains(sid),
        ensures
            ({
                let st = self@[sid].s2c;
                &&& (r is Ok <==> st == TransportState::Connected && spec_has_active_producer(
                    self@,
                    producer_id,
                ))
                &&& (st == TransportState::Uninitialized ==> r == Result::<(), ConsumeError>::Err(
                    ConsumeError::TransportNotCreated,
                ))
                &&& (st == TransportState::Created || st == TransportState::Closed ==> r
                    == Result::<(), ConsumeError>::Err(ConsumeError::TransportNotConnected))
                &&& (st == TransportState::Connected && !spec_has_active_producer(
                    self@,
                    producer_id,
                ) ==> r == Result::<(), ConsumeError>::Err(ConsumeError::ProducerNotFound))
            }),
    {
        let idx = self.find_index(sid);
        proof {
            if idx is None {
                lemma_sessions_map_absent(self.sessions@, sid);
            }
        }
        let i = idx.unwrap();
        proof {
            lemma_sessions_map_index(self.sessions@, i as int);
        }
        match self.sessions[i].s2c.state {
            TransportState::Uninitialized => Err(ConsumeError::TransportNotCreated),
            TransportState::Connected => {
                if self.has_active_producer(producer_id) {
                    Ok(())
                } else {
                    Err(ConsumeError::ProducerNotFound)
                }
            },
            _ => Err(ConsumeError::TransportNotConnected),
        }
    }

    /// Commit the outcome of the engine's consume call, `engine_result`
    /// being the id the engine gave the forwarding. Liveness, transport
    /// state and the producer are re-checked, exactly as `produce_commit`
    /// re-checks them; nothing is registered on any error.
    pub fn consume_commit(&mut self, sid: u64, producer_id: u64, engine_result: Option<u64>) -> (r:
        Result<u64, ConsumeError>)
        requires
            old(self).wf(),
        ensures
            final(self).wf(),
            engine_result is None ==> r == Result::<u64, ConsumeError>::Err(
                ConsumeError::ConsumerFailed,
            ) && final(self)@ == old(self)@,
            engine_result matches Some(cid) ==> ({
                if !old(self)@.dom().contains(sid) {
                    &&& r == Result::<u64, ConsumeError>::Err(ConsumeError::ConsumerFailed)
                    &&& final(self)@ == old(self)@
                } else if old(self)@[sid].s2c != TransportState::Connected {
                    &&& r == Result::<u64, ConsumeError>::Err(ConsumeError::TransportNotConnected)
                    &&& final(self)@ == old(self)@
                } else if !spec_has_active_producer(old(self)@, producer_id) {
                    &&& r == Result::<u64, ConsumeError>::Err(ConsumeError::ProducerNotFound)
                    &&& final(self)@ == old(self)@
                } else {
                    &&& r == Result::<u64, ConsumeError>::Ok(cid)
                    &&& final(self)@ == old(self)@.insert(
                        sid,
                        SessionView {
                            consumers: old(self)@[sid].consumers.push(
                                Consumer { id: cid, producer_id, closed: false },
                            ),
                            ..old(self)@[sid]
                        },
                    )
                }
            }),
    {
        let cid = match engine_result {
            None => {
                return Err(ConsumeError::ConsumerFailed);
            },
            Some(cid) => cid,
        };
        let idx = self.find_index(sid);
        let i = match idx {
            None => {
                proof {
                    lemma_sessions_map_absent(self.sessions@, sid);
                }
                return Err(ConsumeError::ConsumerFailed);
            },
            Some(i) => i,
        };
        let ghost s0 = self.sessions@;
        proof {
            lemma_sessions_map_index(s0, i as int);
        }
        match self.sessions[i].s2c.state {
            TransportState::Connected => {},
            _ => {
                return Err(ConsumeError::TransportNotConnected);
            },
        }
        if !self.has_active_producer(producer_id) {
            return Err(ConsumeError::ProducerNotFound);
        }
        let mut c = self.sessions.remove(i);
        c.consumers.push(Consumer { id: cid, producer_id, closed: false });
        self.sessions.insert(i, c);
        proof {
            assert(self.sessions@ =~= s0.update(i as int, c));
            lemma_sessions_map_update(s0, i as int, c);
        }
        Ok(cid)
    }

    /// Remove a producer: it becomes closed everywhere, and every consumer
    /// anywhere on the server that forwarded it is closed with it — no
    /// dangling forwarding survives. Returns whether a live producer with
    /// that id existed. Removing an unknown producer changes nothing but
    /// reports `false`.
    #[verifier::rlimit(60)]
    pub fn remove_producer(&mut self, pid: u64) -> (found: bool)
        requires
            old(self).wf(),
        ensures
            final(self).wf(),
            found == spec_has_active_producer(old(self)@, pid),
            final(self)@ == spec_remove_producer(old(self)@, pid),
    {
        let found = self.has_active_producer(pid);
        let ghost s0 = self.sessions@;
        let n = self.sessions.len();
        for i in 0..n
            invariant
                n == self.sessions@.len() == s0.len(),
                session_ids_distinct(s0),
                forall|j: int|
                    0 <= j < i ==> (#[trigger] self.sessions@[j]).session_id == s0[j].session_id,
                forall|j: int|
                    0 <= j < i ==> (#[trigger] self.sessions@[j])@ == close_producer_in(
                        s0[j]@,
                        pid,
                    ),
                forall|j: int| i <= j < n ==> #[trigger] self.sessions@[j] == s0[j],
        {
            let ghost sprev = self.sessions@;
            let mut c = self.sessions.remove(i);
            let ghost c0 = c;
            close_producers_with_id(&mut c.producers, pid);
            close_consumers_of(&mut c.consumers, pid);
            self.sessions.insert(i, c);
            proof {
                assert(self.sessions@ =~= sprev.update(i as int, c));
                assert(c0 == s0[i as int]);
                assert(c@.producers =~= close_producer_in(c0@, pid).producers);
                assert(c@.consumers =~= close_producer_in(c0@, pid).consumers);
                assert(c@ == close_producer_in(s0[i as int]@, pid));
                assert forall|j: int| 0 <= j <= i implies (#[trigger] self.sessions@[j]).session_id
                    == s0[j].session_id && (self.sessions@[j])@ == close_producer_in(
                    s0[j]@,
                    pid,
                ) by {
                    if j < i {
                        assert(self.sessions@[j] == sprev[j]);
                        assert(sprev[j].session_id == s0[j].session_id);
                        assert(sprev[j]@ == close_producer_in(s0[j]@, pid));
                    } else {
                        assert(self.sessions@[j] == c);
                    }
                }
            }
        }
        proof {
            let f = |sv: SessionView| close_producer_in(sv, pid);
            assert forall|j: int| 0 <= j < s0.len() implies #[trigger] self.sessions@[j].session_id
                == s0[j].session_id && self.sessions@[j]@ == f(s0[j]@) by {
                assert(self.sessions@[j].session_id == s0[j].session_id);
                assert(self.sessions@[j]@ == close_producer_in(s0[j]@, pid));
            }
            lemma_sessions_map_pointwise(s0, self.sessions@, f);
            assert forall|a: int, b: int|
                0 <= a < b < self.sessions@.len() implies self.sessions@[a].session_id
                != self.sessions@[b].session_id by {
                assert(self.sessions@[a].session_id == s0[a].session_id);
                assert(self.sessions@[b].session_id == s0[b].session_id);
            }
        }
        found
    }

    /// Join a voice channel. A session already in another channel leaves it
    /// first, as one step: membership afterwards is the new channel only,
    /// the old channel's topic subscription is gone and the new one is in
    /// place. Joining the channel the session is already in re-subscribes
    /// and is otherwise a no-op.
    pub fn join(&mut self, ecm: &mut EventConsumerManager, sid: u64, channel_id: u64)
        requires
            old(self).wf(),
            old(ecm).wf(),
            old(self)@.dom().contains(sid),
        ensures
            final(self).wf(),
            final(ecm).wf(),
            final(ecm).capacity() == old(ecm).capacity(),
            final(self)@ == old(self)@.insert(
                sid,
                SessionView { voice_channel: Some(channel_id), ..old(self)@[sid] },
            ),
            final(ecm)@ == match old(self)@[sid].voice_channel {
                Some(a) => spec_subscribe(
                    spec_unsubscribe(old(ecm)@, sid, Topic::Channel(a)),
                    sid,
                    Topic::Channel(channel_id),
                ),
                None => spec_subscribe(old(ecm)@, sid, Topic::Channel(channel_id)),
            },
    {
        let idx = self.find_index(sid);
        proof {
            if idx is None {
                lemma_sessions_map_absent(self.sessions@, sid);
            }
        }
        let i = idx.unwrap();
        let ghost s0 = self.sessions@;
        proof {
            lemma_sessions_map_index(s0, i as int);
        }
        let mut c = self.sessions.remove(i);
        match c.voice_channel {
            Some(a) => {
                ecm.unsubscribe(sid, Topic::Channel(a));
            },
            None => {},
        }
        c.voice_channel = Some(channel_id);
        ecm.subscribe(sid, Topic::Channel(channel_id));
        self.sessions.insert(i, c);
        proof {
            assert(self.sessions@ =~= s0.update(i as int, c));
            lemma_sessions_map_update(s0, i as int, c);
        }
    }

    /// Leave the voice channel, if any: membership and the channel topic
    /// subscription are both removed. The session's producers stay live
    /// until they are removed explicitly or the session is torn down.
    pub fn leave(&mut self, ecm: &mut EventConsumerManager, sid: u64)
        requires
            old(self).wf(),
            old(ecm).wf(),
            old(self)@.dom().contains(sid),
        ensures
            final(self).wf(),
            final(ecm).wf(),
            final(ecm).capacity() == old(ecm).capacity(),
            final(self)@ == old(self)@.insert(
                sid,
                SessionView { voice_channel: None, ..old(self)@[sid] },
            ),
            final(ecm)@ == match old(self)@[sid].voice_channel {
                Some(a) => spec_unsubscribe(old(ecm)@, sid, Topic::Channel(a)),
                None => old(ecm)@,
            },
    {
        let idx = self.find_index(sid);
        proof {
            if idx is None {
                lemma_sessions_map_absent(self.sessions@, sid);
            }
        }
        let i = idx.unwrap();
        let ghost s0 = self.sessions@;
        proof {
            lemma_sessions_map_index(s0, i as int);
        }
        let mut c = self.sessions.remove(i);
        match c.voice_channel {
            Some(a) => {
                ecm.unsubscribe(sid, Topic::Channel(a));
            },
            None => {},
        }
        c.voice_channel = None;
        self.sessions.insert(i, c);
        proof {
            assert(self.sessions@ =~= s0.update(i as int, c));
            lemma_sessions_map_update(s0, i as int, c);
        }
    }

    /// Tear a session down, the only path that removes its resources. The
    /// whole record — transports, producers, consumers, membership — is
    /// dropped, every consumer elsewhere that forwarded one of its
    /// producers is closed, and the pub/sub engine forgets the session and
    /// every subscription it held. Idempotent: tearing down an unknown
    /// session only clears any engine record left for it, so disconnect,
    /// idle timeout and protocol error can all call it without coordination.
    pub fn teardown(&mut self, ecm: &mut EventConsumerManager, sid: u64)
        requires
            old(self).wf(),
            old(ecm).wf(),
        ensures
            final(self).wf(),
            final(ecm).wf(),
            final(ecm).capacity() == old(ecm).capacity(),
            final(self)@ == spec_teardown(old(self)@, sid),
            final(ecm)@ == spec_remove_session(old(ecm)@, sid),
            !final(self)@.dom().contains(sid),
            !final(ecm)@.dom().contains(sid),
    {
        let ghost m0 = self@;
        let idx = self.find_index(sid);
        let i = match idx {
            None => {
                proof {
                    lemma_sessions_map_absent(self.sessions@, sid);
                }
                ecm.remove_session(sid);
                return ;
            },
            Some(i) => i,
        };
        let ghost s0 = self.sessions@;
        proof {
            lemma_sessions_map_index(s0, i as int);
        }
        let doomed = self.sessions.remove(i);
        proof {
            lemma_sessions_map_remove(s0, i as int);
        }
        let ghost s1 = self.sessions@;
        let ghost pids = producer_ids(m0[sid].producers);
        let n = self.sessions.len();
        for a in 0..n
            invariant
                n == self.sessions@.len() == s1.len(),
                session_ids_distinct(s1),
                doomed.producers@ == m0[sid].producers,
                pids == producer_ids(m0[sid].producers),
                forall|j: int|
                    0 <= j < a ==> (#[trigger] self.sessions@[j]).session_id == s1[j].session_id,
                forall|j: int|
                    0 <= j < a ==> (#[trigger] self.sessions@[j])@ == close_consumers_for(
                        s1[j]@,
                        pids,
                    ),
                forall|j: int| a <= j < n ==> #[trigger] self.sessions@[j] == s1[j],
        {
            let ghost sprev = self.sessions@;
            let mut c = self.sessions.remove(a);
            let ghost c0 = c;
            close_consumers_for_producers(&mut c.consumers, &doomed.producers);
            self.sessions.insert(a, c);
            proof {
                assert(self.sessions@ =~= sprev.update(a as int, c));
                assert(c0 == s1[a as int]);
                assert(c@.consumers =~= close_consumers_for(c0@, pids).consumers);
                assert(c@ == close_consumers_for(s1[a as int]@, pids));
                assert forall|j: int| 0 <= j <= a implies (#[trigger] self.sessions@[j]).session_id
                    == s1[j].session_id && (self.sessions@[j])@ == close_consumers_for(
                    s1[j]@,
                    pids,
                ) by {
                    if j < a {
                        assert(self.sessions@[j] == sprev[j]);
                        assert(sprev[j].session_id == s1[j].session_id);
                        assert(sprev[j]@ == close_consumers_for(s1[j]@, pids));
                    } else {
                        assert(self.sessions@[j] == c);
                    }
                }
            }
        }
        ecm.remove_session(sid);
        proof {
            let f = |sv: SessionView| close_consumers_for(sv, pids);
            assert forall|j: int| 0 <= j < s1.len() implies #[trigger] self.sessions@[j].session_id
                == s1[j].session_id && self.sessions@[j]@ == f(s1[j]@) by {
                assert(self.sessions@[j].session_id == s1[j].session_id);
                assert(self.sessions@[j]@ == close_consumers_for(s1[j]@, pids));
            }
            lemma_sessions_map_pointwise(s1, self.sessions@, f);
            assert forall|a: int, b: int|
                0 <= a < b < self.sessions@.len() implies self.sessions@[a].session_id
                != self.sessions@[b].session_id by {
                assert(self.sessions@[a].session_id == s1[a].session_id);
                assert(self.sessions@[b].session_id == s1[b].session_id);
            }
            assert(sessions_map(s1) == m0.remove(sid));
            assert(!spec_teardown(m0, sid).dom().contains(sid));
        }
    }
}

/// The coupling between membership and delivery: every session that is a
/// member of a voice channel is subscribed to that channel's topic, so
/// membership really is who receives the channel's events.
pub open spec fn membership_subscribed(
    vm: Map<u64, SessionView>,
    em: Map<u64, crate::pubsub::SubView>,
) -> bool {
    forall|sid: u64|
        vm.dom().contains(sid) ==> match (#[trigger] vm[sid]).voice_channel {
            Some(ch) => em.dom().contains(sid) && em[sid].topics.contains(Topic::Channel(ch)),
            None => true,
        }
}

/// Law: joining a channel keeps membership coupled to subscription — the
/// joining session ends up subscribed to the new channel's topic, and no
/// other session's coupling is disturbed.
pub proof fn lemma_join_preserves_coupling(
    vm: Map<u64, SessionView>,
    em: Map<u64, crate::pubsub::SubView>,
    sid: u64,
    ch: u64,
)
    requires
        membership_subscribed(vm, em),
        vm.dom().contains(sid),
        em.dom().contains(sid),
    ensures
        ({
            let vm2 = vm.insert(sid, SessionView { voice_channel: Some(ch), ..vm[sid] });
            let em2 = match vm[sid].voice_channel {
                Some(a) => spec_subscribe(
                    spec_unsubscribe(em, sid, Topic::Channel(a)),
                    sid,
                    Topic::Channel(ch),
                ),
                None => spec_subscribe(em, sid, Topic::Channel(ch)),
            };
            membership_subscribed(vm2, em2)
        }),
{
    let vm2 = vm.insert(sid, SessionView { voice_channel: Some(ch), ..vm[sid] });
    let em2 = match vm[sid].voice_channel {
        Some(a) => spec_subscribe(
            spec_unsubscribe(em, sid, Topic::Channel(a)),
            sid,
            Topic::Channel(ch),
        ),
        None => spec_subscribe(em, sid, Topic::Channel(ch)),
    };
    assert(em2.dom().contains(sid));
    assert(em2[sid].topics.contains(Topic::Channel(ch)));
    assert forall|x: u64| vm2.dom().contains(x) implies match (#[trigger] vm2[x]).voice_channel {
        Some(c) => em2.dom().contains(x) && em2[x].topics.contains(Topic::Channel(c)),
        None => true,
    } by {
        if x != sid {
            assert(vm2[x] == vm[x]);
            assert(em2.dom().contains(x) == em.dom().contains(x));
            if em.dom().contains(x) {
                assert(em2[x] == em[x]);
            }
        }
    }
}

/// Law: leaving, and tearing a session down, keep membership coupled to
/// subscription for every surviving session.
pub proof fn lemma_leave_and_teardown_preserve_coupling(
    vm: Map<u64, SessionView>,
    em: Map<u64, crate::pubsub::SubView>,
    sid: u64,
)
    requires
        membership_subscribed(vm, em),
        vm.dom().contains(sid),
    ensures
        ({
            let vm2 = vm.insert(sid, SessionView { voice_channel: None, ..vm[sid] });
            let em2 = match vm[sid].voice_channel {
                Some(a) => spec_unsubscribe(em, sid, Topic::Channel(a)),
                None => em,
            };
            membership_subscribed(vm2, em2)
        }),
        membership_subscribed(spec_teardown(vm, sid), spec_remove_session(em, sid)),
{
    let vm2 = vm.insert(sid, SessionView { voice_channel: None, ..vm[sid] });
    let em2 = match vm[sid].voice_channel {
        Some(a) => spec_unsubscribe(em, sid, Topic::Channel(a)),
        None => em,
    };
    assert forall|x: u64| vm2.dom().contains(x) implies match (#[trigger] vm2[x]).voice_channel {
        Some(c) => em2.dom().contains(x) && em2[x].topics.contains(Topic::Channel(c)),
        None => true,
    } by {
        if x != sid {
            assert(vm2[x] == vm[x]);
            if em.dom().contains(x) {
                assert(em2[x] == em[x]);
            }
        }
    }
    let vm3 = spec_teardown(vm, sid);
    let em3 = spec_remove_session(em, sid);
    assert forall|x: u64| vm3.dom().contains(x) implies match (#[trigger] vm3[x]).voice_channel {
        Some(c) => em3.dom().contains(x) && em3[x].topics.contains(Topic::Channel(c)),
        None => true,
    } by {
        assert(x != sid);
        assert(vm3[x].voice_channel == vm[x].voice_channel);
        if em.dom().contains(x) {
            assert(em3[x] == em[x]);
        }
    }
}

/// Law: publishing keeps membership coupled to subscription — delivery
/// changes queues, never topics or membership.
pub proof fn lemma_publish_preserves_coupling(
    vm: Map<u64, SessionView>,
    em: Map<u64, crate::pubsub::SubView>,
    t: Topic,
    e: Event,
    cap: nat,
)
    requires
        membership_subscribed(vm, em),
    ensures
        membership_subscribed(vm, spec_publish(em, t, e, cap)),
{
    let em2 = spec_publish(em, t, e, cap);
    assert forall|x: u64| vm.dom().contains(x) implies match (#[trigger] vm[x]).voice_channel {
        Some(c) => em2.dom().contains(x) && em2[x].topics.contains(Topic::Channel(c)),
        None => true,
    } by {
        if em.dom().contains(x) {
            assert(em2.dom().contains(x));
            assert(em2[x].topics == em[x].topics);
        }
    }
}

/// Law: removing a producer closes, across the whole server, every
/// consumer that forwarded it — however many there are — leaves every
/// unrelated consumer untouched, and leaves no live producer with its id.
pub proof fn lemma_producer_cascade(m: Map<u64, SessionView>, pid: u64)
    ensures
        ({
            let m2 = spec_remove_producer(m, pid);
            &&& m2.dom() == m.dom()
            &&& forall|k: u64, j: int|
                m.dom().contains(k) && 0 <= j < m[k].consumers.len() && (
                #[trigger] m2[k].consumers[j]).producer_id == pid ==> m2[k].consumers[j].closed
            &&& forall|k: u64, j: int|
                m.dom().contains(k) && 0 <= j < m[k].consumers.len() && (
                #[trigger] m2[k].consumers[j]).producer_id != pid ==> m2[k].consumers[j]
                    == m[k].consumers[j]
            &&& !spec_has_active_producer(m2, pid)
        }),
{
    let m2 = spec_remove_producer(m, pid);
    assert(m2.dom() =~= m.dom());
    if spec_has_active_producer(m2, pid) {
        let (k, j) = choose|k: u64, j: int|
            m2.dom().contains(k) && 0 <= j < m2[k].producers.len() && (
            #[trigger] m2[k].producers[j]).id == pid && !m2[k].producers[j].closed;
        assert(m2[k].producers[j] == close_producer_in(m[k], pid).producers[j]);
        assert(false);
    }
}

/// Law: a torn-down session is gone from both registries, and no consumer
/// anywhere still forwards any producer it held live or closed.
pub proof fn lemma_teardown_complete(m: Map<u64, SessionView>, sid: u64)
    requires
        m.dom().contains(sid),
    ensures
        ({
            let m2 = spec_teardown(m, sid);
            &&& !m2.dom().contains(sid)
            &&& m2.dom() == m.dom().remove(sid)
            &&& forall|k: u64, j: int|
                m2.dom().contains(k) && 0 <= j < m2[k].consumers.len() && producer_ids(
                    m[sid].producers,
                ).contains((#[trigger] m2[k].consumers[j]).producer_id) ==> m2[k].consumers[j].closed
        }),
{
    let m2 = spec_teardown(m, sid);
    assert(m2.dom() =~= m.dom().remove(sid));
}

fn producers_scan(ps: &Vec<Producer>, pid: u64) -> (b: bool)
    ensures
        b == exists|j: int|
            0 <= j < ps@.len() && (#[trigger] ps@[j]).id == pid && !ps@[j].closed,
{
    let n = ps.len();
    for i in 0..n
        invariant
            n == ps@.len(),
            forall|j: int| 0 <= j < i ==> !((#[trigger] ps@[j]).id == pid && !ps@[j].closed),
    {
        if ps[i].id == pid && !ps[i].closed {
            return true;
        }
    }
    false
}

fn producers_scan_any(ps: &Vec<Producer>, pid: u64) -> (b: bool)
    ensures
        b == exists|j: int| 0 <= j < ps@.len() && (#[trigger] ps@[j]).id == pid,
{
    let n = ps.len();
    for i in 0..n
        invariant
            n == ps@.len(),
            forall|j: int| 0 <= j < i ==> (#[trigger] ps@[j]).id != pid,
    {
        if ps[i].id == pid {
            return true;
        }
    }
    false
}

fn close_producers_with_id(ps: &mut Vec<Producer>, pid: u64)
    ensures
        final(ps)@ == old(ps)@.map_values(
            |p: Producer|
                if p.id == pid {
                    Producer { id: p.id, kind: p.kind, closed: true }
                } else {
                    p
                },
        ),
{
    let ghost p0 = ps@;
    let n = ps.len();
    for i in 0..n
        invariant
            n == ps@.len() == p0.len(),
            forall|j: int|
                0 <= j < i ==> #[trigger] ps@[j] == (if p0[j].id == pid {
                    Producer { id: p0[j].id, kind: p0[j].kind, closed: true }
                } else {
                    p0[j]
                }),
            forall|j: int| i <= j < n ==> #[trigger] ps@[j] == p0[j],
    {
        let p = ps[i];
        if p.id == pid {
            ps[i] = Producer { id: p.id, kind: p.kind, closed: true };
        }
    }
    proof {
        assert(ps@ =~= p0.map_values(
            |p: Producer|
                if p.id == pid {
                    Producer { id: p.id, kind: p.kind, closed: true }
                } else {
                    p
                },
        ));
    }
}

fn close_consumers_of(cs: &mut Vec<Consumer>, pid: u64)
    ensures
        final(cs)@ == old(cs)@.map_values(
            |c: Consumer|
                if c.producer_id == pid {
                    Consumer { id: c.id, producer_id: c.producer_id, closed: true }
                } else {
                    c
                },
        ),
{
    let ghost c0 = cs@;
    let n = cs.len();
    for i in 0..n
        invariant
            n == cs@.len() == c0.len(),
            forall|j: int|
                0 <= j < i ==> #[trigger] cs@[j] == (if c0[j].producer_id == pid {
                    Consumer { id: c0[j].id, producer_id: c0[j].producer_id, closed: true }
                } else {
                    c0[j]
                }),
            forall|j: int| i <= j < n ==> #[trigger] cs@[j] == c0[j],
    {
        let c = cs[i];
        if c.producer_id == pid {
            cs[i] = Consumer { id: c.id, producer_id: c.producer_id, closed: true };
        }
    }
    proof {
        assert(cs@ =~= c0.map_values(
            |c: Consumer|
                if c.producer_id == pid {
                    Consumer { id: c.id, producer_id: c.producer_id, closed: true }
                } else {
                    c
                },
        ));
    }
}

fn producers_hold_id(ps: &Vec<Producer>, x: u64) -> (b: bool)
    ensures
        b == producer_ids(ps@).contains(x),
{
    let n = ps.len();
    for i in 0..n
        invariant
            n == ps@.len(),
            forall|j: int| 0 <= j < i ==> (#[trigger] ps@[j]).id != x,
    {
        if ps[i].id == x {
            proof {
                assert(producer_ids(ps@).contains(x));
            }
            return true;
        }
    }
    proof {
        if producer_ids(ps@).contains(x) {
            let j = choose|j: int| 0 <= j < ps@.len() && (#[trigger] ps@[j]).id == x;
            assert(false);
        }
    }
    false
}

fn close_consumers_for_producers(cs: &mut Vec<Consumer>, ps: &Vec<Producer>)
    ensures
        final(cs)@ == old(cs)@.map_values(
            |c: Consumer|
                if producer_ids(ps@).contains(c.producer_id) {
                    Consumer { id: c.id, producer_id: c.producer_id, closed: true }
                } else {
                    c
                },
        ),
{
    let ghost c0 = cs@;
    let n = cs.len();
    for i in 0..n
        invariant
            n == cs@.len() == c0.len(),
            forall|j: int|
                0 <= j < i ==> #[trigger] cs@[j] == (if producer_ids(ps@).contains(
                    c0[j].producer_id,
                ) {
                    Consumer { id: c0[j].id, producer_id: c0[j].producer_id, closed: true }
                } else {
                    c0[j]
                }),
            forall|j: int| i <= j < n ==> #[trigger] cs@[j] == c0[j],
    {
        let c = cs[i];
        if producers_hold_id(ps, c.producer_id) {
            cs[i] = Consumer { id: c.id, producer_id: c.producer_id, closed: true };
        }
    }
    proof {
        assert(cs@ =~= c0.map_values(
            |c: Consumer|
                if producer_ids(ps@).contains(c.producer_id) {
                    Consumer { id: c.id, producer_id: c.producer_id, closed: true }
                } else {
                    c
                },
        ));
    }
}

proof fn lemma_sessions_map_complete(s: Seq<ClientSession>, k: u64)
    requires
        sessions_map(s).dom().contains(k),
    ensures
        exists|i: int| 0 <= i < s.len() && #[trigger] s[i].session_id == k,
    decreases s.len(),
{
    if s.len() > 0 {
        if k == s.last().session_id {
            assert(s[s.len() - 1].session_id == k);
        } else {
            lemma_sessions_map_complete(s.drop_last(), k);
            let i = choose|i: int|
                0 <= i < s.drop_last().len() && #[trigger] s.drop_last()[i].session_id == k;
            assert(s[i].session_id == k);
        }
    }
}

} // verus!
