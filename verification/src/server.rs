//! WebSocket server state: the session table, each session's current
//! subscription, and the routing decision for every outbound message.
//! The sockets themselves live outside the library; it works purely on
//! session identifiers.

use vstd::prelude::*;

verus! {

use crate::node::{Node, NodeV};

/// One of the three buffered time resolutions a client can watch.
#[derive(Clone, Copy, Debug, PartialEq, Eq, Structural)]
pub enum Timeframe {
    OverviewOneSecond,
    OverviewFiveSeconds,
    OverviewFifteenSeconds,
}

/// A subscription change a session sends in.
pub struct InboundMessage {
    pub session_id: u64,
    pub subscribe_to: Timeframe,
}

/// What an outbound message carries: per-node or cluster samples.
pub enum MessageData {
    NodeMetrics(Vec<Node>),
    ClusterMetrics(Vec<Node>),
}

/// The mathematical value of a `MessageData`.
#[verifier::ext_equal]
pub ghost enum MessageDataV {
    NodeMetrics { nodes: Seq<NodeV> },
    ClusterMetrics { nodes: Seq<NodeV> },
}

impl View for MessageData {
    type V = MessageDataV;

    open spec fn view(&self) -> MessageDataV {
        match self {
            MessageData::NodeMetrics(nodes) => MessageDataV::NodeMetrics {
                nodes: nodes.deep_view(),
            },
            MessageData::ClusterMetrics(nodes) => MessageDataV::ClusterMetrics {
                nodes: nodes.deep_view(),
            },
        }
    }
}

/// Who an outbound message is for.
#[derive(Clone, Copy, Debug, PartialEq, Eq, Structural)]
pub enum Receiver {
    Everyone,
    SubscribersOf(Timeframe),
    Only(u64),
}

/// A routed message from the hub to the WebSocket server.
pub struct OutboundMessage {
    pub receiver: Receiver,
    pub data: MessageData,
}

/// The mathematical value of an `OutboundMessage`.
#[verifier::ext_equal]
pub ghost struct OutboundMessageV {
    pub receiver: Receiver,
    pub data: MessageDataV,
}

impl View for OutboundMessage {
    type V = OutboundMessageV;

    open spec fn view(&self) -> OutboundMessageV {
        OutboundMessageV { receiver: self.receiver, data: self.data@ }
    }
}

impl DeepView for OutboundMessage {
    type V = OutboundMessageV;

    open spec fn deep_view(&self) -> OutboundMessageV {
        self.view()
    }
}

/// A hub-bound note that a session subscribed and wants a backfill.
pub struct ClientJoined {
    pub session_id: u64,
    pub subscribe_to: Timeframe,
}

/// A new socket connection announcing itself.
pub struct Connect {
    pub ip: Vec<u8>,
}

/// A closing socket taking its leave.
pub struct Disconnect {
    pub sender_id: u64,
    pub ip: Vec<u8>,
}

/// One text frame bound for one socket.
pub struct SessionMessage(pub Vec<u8>);

/// One session's entry in the server table.
#[derive(Clone, Copy, Debug, PartialEq, Eq, Structural)]
pub struct SessionEntry {
    pub id: u64,
    pub subscription: Timeframe,
}

/// The session table and the routing over it. Sessions are kept in
/// connection order; ids are unique.
pub struct WsServer {
    pub sessions: Vec<SessionEntry>,
}

/// Whether the table holds an entry with this id.
pub open spec fn table_has_id(sessions: Seq<SessionEntry>, id: u64) -> bool {
    exists|i: int| 0 <= i < sessions.len() && sessions[i].id == id
}

/// The ids of the sessions a receiver designates, in table order.
pub open spec fn route_spec(sessions: Seq<SessionEntry>, receiver: Receiver) -> Seq<u64> {
    match receiver {
        Receiver::Everyone => sessions.map_values(|e: SessionEntry| e.id),
        Receiver::SubscribersOf(v) => sessions.filter(
            |e: SessionEntry| e.subscription == v,
        ).map_values(|e: SessionEntry| e.id),
        Receiver::Only(id) => if table_has_id(sessions, id) {
            seq![id]
        } else {
            Seq::empty()
        },
    }
}

impl WsServer {
    /// Ids never repeat in the table.
    pub open spec fn wf(&self) -> bool {
        forall|i: int, j: int|
            0 <= i < j < self.sessions@.len() ==> self.sessions@[i].id != self.sessions@[j].id
    }

    pub fn new() -> (r: WsServer)
        ensures
            r.sessions@ == Seq::<SessionEntry>::empty(),
            r.wf(),
    {
        WsServer { sessions: Vec::new() }
    }

    /// Records a new session under `id` watching the one-second view.
    /// A repeated id replaces the older entry, as a fresh map insert
    /// would.
    pub fn connect(&mut self, id: u64)
        requires
            old(self).wf(),
        ensures
            final(self).wf(),
            final(self).sessions@ == old(self).sessions@.filter(
                |e: SessionEntry| e.id != id,
            ).push(SessionEntry { id, subscription: Timeframe::OverviewOneSecond }),
    {
        self.remove_id(id);
        proof {
            let flt = self.sessions@;
            assert forall|a: int| 0 <= a < flt.len() implies flt[a].id != id by {
                old(self).sessions@.lemma_filter_pred(|e: SessionEntry| e.id != id, a);
            }
        }
        self.sessions.push(SessionEntry { id, subscription: Timeframe::OverviewOneSecond });
    }

    /// Accepts a new connection under a freshly drawn id and reports
    /// it. Whatever id the generator returns, the table stays
    /// well-formed and ends with the new session on the one-second
    /// view.
    pub fn handle_connect(&mut self) -> (id: u64)
        requires
            old(self).wf(),
        ensures
            final(self).wf(),
            final(self).sessions@ == old(self).sessions@.filter(
                |e: SessionEntry| e.id != id,
            ).push(SessionEntry { id, subscription: Timeframe::OverviewOneSecond }),
    {
        let id = random_session_id();
        self.connect(id);
        id
    }

    /// Drops the session with this id, silently when none exists.
    pub fn disconnect(&mut self, id: u64)
        requires
            old(self).wf(),
        ensures
            final(self).wf(),
            final(self).sessions@ == old(self).sessions@.filter(|e: SessionEntry| e.id != id),
    {
        self.remove_id(id);
    }

    fn remove_id(&mut self, id: u64)
        requires
            old(self).wf(),
        ensures
            final(self).wf(),
            final(self).sessions@ == old(self).sessions@.filter(|e: SessionEntry| e.id != id),
    {
        let ghost all = self.sessions@;
        let mut out: Vec<SessionEntry> = Vec::new();
        let mut i: usize = 0;
        proof {
            assert(all.take(0) =~= Seq::<SessionEntry>::empty());
            assert(Seq::<SessionEntry>::empty().filter(|e: SessionEntry| e.id != id) =~= Seq::<
                SessionEntry,
            >::empty());
        }
        while i < self.sessions.len()
            invariant
                i <= self.sessions@.len(),
                all == self.sessions@,
                forall|x: int, y: int| 0 <= x < y < all.len() ==> all[x].id != all[y].id,
                out@ =~= all.take(i as int).filter(|e: SessionEntry| e.id != id),
                forall|a: int|
                    0 <= a < out@.len() ==> exists|x: int| 0 <= x < i && all[x] == #[trigger] out@[a],
                forall|a: int, b: int| 0 <= a < b < out@.len() ==> out@[a].id != out@[b].id,
            decreases self.sessions@.len() - i,
        {
            let e = self.sessions[i];
            if e.id != id {
                proof {
                    let gi = i as int;
                    assert forall|a: int| 0 <= a < out@.len() implies out@[a].id != all[gi].id by {
                        let x = choose|x: int| 0 <= x < gi && all[x] == out@[a];
                        assert(all[x].id != all[gi].id);
                    }
                }
                out.push(e);
            }
            i = i + 1;
            proof {
                assert(all.take(i as int).drop_last() =~= all.take(i - 1));
                assert(all.take(i as int).last() == all[i - 1]);
                reveal_with_fuel(Seq::filter, 2);
                assert(all.take(i as int).filter(|e: SessionEntry| e.id != id) == all.take(i - 1)
                    .filter(|e: SessionEntry| e.id != id) + if all[i - 1].id != id {
                    seq![all[i - 1]]
                } else {
                    Seq::empty()
                });
            }
        }
        proof {
            assert(all.take(all.len() as int) =~= all);
        }
        self.sessions = out;
    }

    /// Points the session at a new resolution; reports whether the id
    /// was known (only then does a backfill follow).
    pub fn set_subscription(&mut self, id: u64, subscribe_to: Timeframe) -> (known: bool)
        requires
            old(self).wf(),
        ensures
            final(self).wf(),
            known == table_has_id(old(self).sessions@, id),
            final(self).sessions@ == old(self).sessions@.map_values(
                |e: SessionEntry|
                    if e.id == id {
                        SessionEntry { id: e.id, subscription: subscribe_to }
                    } else {
                        e
                    },
            ),
    {
        let ghost all = self.sessions@;
        let ghost upd = |e: SessionEntry|
            if e.id == id {
                SessionEntry { id: e.id, subscription: subscribe_to }
            } else {
                e
            };
        let mut out: Vec<SessionEntry> = Vec::new();
        let mut found: bool = false;
        let mut i: usize = 0;
        while i < self.sessions.len()
            invariant
                i <= all.len(),
                all == self.sessions@,
                upd == (|e: SessionEntry|
                    if e.id == id {
                        SessionEntry { id: e.id, subscription: subscribe_to }
                    } else {
                        e
                    }),
                out@ =~= all.take(i as int).map_values(upd),
                found == exists|x: int| 0 <= x < i && all[x].id == id,
            decreases all.len() - i,
        {
            let e = self.sessions[i];
            if e.id == id {
                found = true;
                out.push(SessionEntry { id: e.id, subscription: subscribe_to });
            } else {
                out.push(e);
            }
            i = i + 1;
            proof {
                assert(all.take(i as int).map_values(upd) =~= all.take(i - 1).map_values(upd).push(
                    upd(all[i - 1]),
                ));
            }
        }
        proof {
            assert(all.take(all.len() as int) =~= all);
            let mapped = all.map_values(upd);
            assert forall|x: int, y: int|
                0 <= x < y < mapped.len() implies mapped[x].id != mapped[y].id by {
                assert(all[x].id != all[y].id);
            }
        }
        self.sessions = out;
        found
    }

    /// The sessions an outbound message goes to, in table order.
    pub fn route(&self, receiver: Receiver) -> (r: Vec<u64>)
        ensures
            r@ == route_spec(self.sessions@, receiver),
    {
        let ghost all = self.sessions@;
        match receiver {
            Receiver::Everyone => {
                let mut out: Vec<u64> = Vec::new();
                let mut i: usize = 0;
                while i < self.sessions.len()
                    invariant
                        i <= all.len(),
                        all == self.sessions@,
                        out@ =~= all.take(i as int).map_values(|e: SessionEntry| e.id),
                    decreases all.len() - i,
                {
                    out.push(self.sessions[i].id);
                    i = i + 1;
                    proof {
                        assert(all.take(i as int).map_values(|e: SessionEntry| e.id) =~= all.take(
                            i - 1,
                        ).map_values(|e: SessionEntry| e.id).push(all[i - 1].id));
                    }
                }
                proof {
                    assert(all.take(all.len() as int) =~= all);
                }
                out
            },
            Receiver::SubscribersOf(v) => {
                let mut out: Vec<u64> = Vec::new();
                let mut i: usize = 0;
                proof {
                    assert(all.take(0) =~= Seq::<SessionEntry>::empty());
                    assert(Seq::<SessionEntry>::empty().filter(
                        |e: SessionEntry| e.subscription == v,
                    ) =~= Seq::<SessionEntry>::empty());
                }
                while i < self.sessions.len()
                    invariant
                        i <= all.len(),
                        all == self.sessions@,
                        out@ =~= all.take(i as int).filter(
                            |e: SessionEntry| e.subscription == v,
                        ).map_values(|e: SessionEntry| e.id),
                    decreases all.len() - i,
                {
                    let e = self.sessions[i];
                    if e.subscription == v {
                        out.push(e.id);
                    }
                    i = i + 1;
                    proof {
                        assert(all.take(i as int).drop_last() =~= all.take(i - 1));
                        assert(all.take(i as int).last() == all[i - 1]);
                        reveal_with_fuel(Seq::filter, 2);
                        assert(all.take(i as int).filter(|e: SessionEntry| e.subscription == v)
                            == all.take(i - 1).filter(|e: SessionEntry| e.subscription == v) + if all[i
                            - 1].subscription == v {
                            seq![all[i - 1]]
                        } else {
                            Seq::empty()
                        });
                        assert(out@ =~= all.take(i as int).filter(
                            |e: SessionEntry| e.subscription == v,
                        ).map_values(|e: SessionEntry| e.id));
                    }
                }
                proof {
                    assert(all.take(all.len() as int) =~= all);
                }
                out
            },
            Receiver::Only(id) => {
                let mut out: Vec<u64> = Vec::new();
                let mut i: usize = 0;
                let mut found: bool = false;
                while i < self.sessions.len()
                    invariant
                        i <= all.len(),
                        all == self.sessions@,
                        found == exists|x: int| 0 <= x < i && all[x].id == id,
                        out@ =~= if found {
                            seq![id]
                        } else {
                            Seq::<u64>::empty()
                        },
                    decreases all.len() - i,
                {
                    if !found && self.sessions[i].id == id {
                        found = true;
                        out.push(id);
                    }
                    i = i + 1;
                }
                proof {
                    assert(found == table_has_id(all, id));
                    assert(out@ =~= route_spec(all, Receiver::Only(id)));
                }
                out
            },
        }
    }
}

/// Relies on rand::random: an arbitrary session id. Nothing can be
/// promised of a random value; every caller handles every outcome.
#[verifier::external_body]
fn random_session_id() -> u64 {
    rand::random::<u64>()
}

} // verus!
