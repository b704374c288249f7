//! The metric hub: it keeps the latest sample per node, the bounded
//! per-node and cluster histories, and the node identities, and it
//! decides every outbound message. Once per second a tick folds the
//! latest samples into the buffers (offline heartbeats filling the
//! gaps) and derives the cluster sample; broadcast rounds and
//! per-client backfills read the buffers without changing them.

use vstd::prelude::*;

verus! {

use crate::buffer::{
    MetricBuffer, MetricBufferEntryV, MetricBufferMap, MetricBufferV, key_index,
};
use crate::node::{Node, NodeMetrics, NodeMetricsV, NodeSpecs, NodeSpecsV, NodeV};
use crate::server::{MessageData, MessageDataV, OutboundMessage, OutboundMessageV, Receiver, Timeframe};
use crate::text::bytes_eq;

/// How many samples each history keeps at each resolution.
pub const BUFFER_LIMIT: usize = 120;

/// The position of a hostname among the latest samples, or -1.
pub open spec fn metrics_key_index(s: Seq<NodeMetricsV>, key: Seq<u8>) -> int
    decreases s.len(),
{
    if s.len() == 0 {
        -1
    } else if s[0].hostname == key {
        0
    } else {
        let r = metrics_key_index(s.drop_first(), key);
        if r < 0 {
            -1
        } else {
            1 + r
        }
    }
}

/// The position of a hostname among the node identities, or -1.
pub open spec fn specs_key_index(s: Seq<NodeSpecsV>, key: Seq<u8>) -> int
    decreases s.len(),
{
    if s.len() == 0 {
        -1
    } else if s[0].hostname == key {
        0
    } else {
        let r = specs_key_index(s.drop_first(), key);
        if r < 0 {
            -1
        } else {
            1 + r
        }
    }
}

/// The buffers and undelivered samples left after one aggregation
/// pass over a run of node identities.
#[verifier::ext_equal]
pub ghost struct FeedState {
    pub entries: Seq<MetricBufferEntryV>,
    pub latest: Seq<NodeMetricsV>,
}

/// Folds each identity's latest sample (or an offline heartbeat) into
/// its buffer, consuming the sample, in identity order.
pub open spec fn feed_spec(
    st: FeedState,
    specs: Seq<NodeSpecsV>,
    limit: int,
) -> FeedState
    decreases specs.len(),
{
    if specs.len() == 0 {
        st
    } else {
        let prev = feed_spec(st, specs.drop_last(), limit);
        let key = specs.last().hostname;
        let j = metrics_key_index(prev.latest, key);
        if j >= 0 {
            FeedState {
                entries: MetricBufferMap::push_map_spec(prev.entries, key, prev.latest[j], limit),
                latest: prev.latest.remove(j),
            }
        } else {
            FeedState {
                entries: MetricBufferMap::push_map_spec(
                    prev.entries,
                    key,
                    NodeMetrics::offline_spec(key),
                    limit,
                ),
                latest: prev.latest,
            }
        }
    }
}

/// The newest one-second sample of every non-empty buffer, in buffer
/// order.
pub open spec fn last_samples(entries: Seq<MetricBufferEntryV>) -> Seq<NodeMetricsV> {
    entries.filter(|e: MetricBufferEntryV| e.buffer.s1.len() > 0).map_values(
        |e: MetricBufferEntryV| e.buffer.s1.last(),
    )
}

/// The cpu counts of a run of identities, summed.
pub open spec fn sum_cpus(specs: Seq<NodeSpecsV>) -> int
    decreases specs.len(),
{
    if specs.len() == 0 {
        0
    } else {
        sum_cpus(specs.drop_last()) + specs.last().cpus
    }
}

/// An integer clamped into u16 range from above.
pub open spec fn cap_u16(x: int) -> u16 {
    if x > u16::MAX {
        u16::MAX as u16
    } else if x < 0 {
        0
    } else {
        x as u16
    }
}

/// Samples decorated with one identity, in order.
pub open spec fn nodes_with_specs(samples: Seq<NodeMetricsV>, sp: NodeSpecsV) -> Seq<NodeV> {
    samples.map_values(|m: NodeMetricsV| NodeV { specs: sp, metrics: m })
}

/// The hub's state.
pub struct MetricHub {
    pub node_buffers: MetricBufferMap,
    pub cluster_buffer: MetricBuffer,
    pub node_specs: Vec<NodeSpecs>,
    pub cluster_specs: NodeSpecs,
    pub latest_metrics: Vec<NodeMetrics>,
}

impl MetricHub {
    /// Buffers well-formed at the shared limit, hostnames unique.
    pub open spec fn wf(&self) -> bool {
        &&& self.node_buffers.wf()
        &&& self.node_buffers.limit == BUFFER_LIMIT
        &&& self.cluster_buffer@.wf()
        &&& self.cluster_buffer@.limit == BUFFER_LIMIT as int
        &&& forall|i: int, j: int|
            0 <= i < j < self.node_specs@.len() ==> self.node_specs.deep_view()[i].hostname
                != self.node_specs.deep_view()[j].hostname
        &&& forall|i: int, j: int|
            0 <= i < j < self.latest_metrics@.len() ==> self.latest_metrics.deep_view()[i].hostname
                != self.latest_metrics.deep_view()[j].hostname
    }

    /// A fresh hub: empty buffers and tables, the cluster identity
    /// named `Cluster`.
    pub fn new() -> (r: MetricHub)
        ensures
            r.wf(),
            r.node_buffers.storage@.len() == 0,
            r.cluster_buffer@ == MetricBufferV::empty_spec(BUFFER_LIMIT as int),
            r.node_specs@.len() == 0,
            r.latest_metrics@.len() == 0,
            r.cluster_specs@.index == 0,
            r.cluster_specs@.hostname == crate::lit_bytes("Cluster"@),
            r.cluster_specs@.cpus == 0,
            r.cluster_specs@.ip == Seq::<u8>::empty(),
    {
        proof {
            reveal_strlit("Cluster");
        }
        let cluster_name = crate::ascii_to_bytes("Cluster");
        MetricHub {
            node_buffers: MetricBufferMap::new(BUFFER_LIMIT),
            cluster_buffer: MetricBuffer::new(BUFFER_LIMIT),
            node_specs: Vec::new(),
            cluster_specs: NodeSpecs::new(0, cluster_name, 0, Vec::new()),
            latest_metrics: Vec::new(),
        }
    }

    /// Remembers the newest sample of its node, replacing an older
    /// undelivered one.
    pub fn handle_node_metrics(&mut self, metrics: NodeMetrics)
        requires
            old(self).wf(),
        ensures
            final(self).wf(),
            ({
                let l0 = old(self).latest_metrics.deep_view();
                let j = metrics_key_index(l0, metrics@.hostname);
                final(self).latest_metrics.deep_view() == if j >= 0 {
                    l0.update(j, metrics@)
                } else {
                    l0.push(metrics@)
                }
            }),
            final(self).node_buffers == old(self).node_buffers,
            final(self).cluster_buffer == old(self).cluster_buffer,
            final(self).node_specs == old(self).node_specs,
            final(self).cluster_specs == old(self).cluster_specs,
    {
        let ghost l0 = self.latest_metrics.deep_view();
        let mut i: usize = 0;
        while i < self.latest_metrics.len()
            invariant
                i <= self.latest_metrics@.len(),
                l0 == self.latest_metrics.deep_view(),
                self.node_buffers == old(self).node_buffers,
                self.cluster_buffer == old(self).cluster_buffer,
                self.node_specs == old(self).node_specs,
                self.cluster_specs == old(self).cluster_specs,
                old(self).wf(),
                l0 == old(self).latest_metrics.deep_view(),
                forall|x: int, y: int| 0 <= x < y < l0.len() ==> l0[x].hostname != l0[y].hostname,
                forall|x: int| 0 <= x < i ==> l0[x].hostname != metrics@.hostname,
            decreases self.latest_metrics@.len() - i,
        {
            if bytes_eq(self.latest_metrics[i].hostname.as_slice(), metrics.hostname.as_slice()) {
                proof {
                    lemma_metrics_key_index_at(l0, metrics@.hostname, i as int);
                }
                let _old_entry = self.latest_metrics.remove(i);
                self.latest_metrics.insert(i, metrics);
                proof {
                    assert(self.latest_metrics.deep_view() =~~= l0.update(i as int, metrics@));
                    lemma_update_keeps_distinct_metrics(l0, i as int, metrics@);
                }
                return ;
            }
            i = i + 1;
        }
        proof {
            lemma_metrics_key_index_none(l0, metrics@.hostname);
        }
        self.latest_metrics.push(metrics);
        proof {
            assert(self.latest_metrics.deep_view() =~~= l0.push(metrics@));
            lemma_metrics_key_index_missing(l0, metrics@.hostname);
        }
    }

    /// Remembers or refreshes one node's identity.
    pub fn handle_node_specs(&mut self, specs: NodeSpecs)
        requires
            old(self).wf(),
        ensures
            final(self).wf(),
            ({
                let s0 = old(self).node_specs.deep_view();
                let j = specs_key_index(s0, specs@.hostname);
                final(self).node_specs.deep_view() == if j >= 0 {
                    s0.update(j, specs@)
                } else {
                    s0.push(specs@)
                }
            }),
            final(self).node_buffers == old(self).node_buffers,
            final(self).cluster_buffer == old(self).cluster_buffer,
            final(self).latest_metrics == old(self).latest_metrics,
            final(self).cluster_specs == old(self).cluster_specs,
    {
        let ghost s0 = self.node_specs.deep_view();
        let mut i: usize = 0;
        while i < self.node_specs.len()
            invariant
                i <= self.node_specs@.len(),
                s0 == self.node_specs.deep_view(),
                self.node_buffers == old(self).node_buffers,
                self.cluster_buffer == old(self).cluster_buffer,
                self.latest_metrics == old(self).latest_metrics,
                self.cluster_specs == old(self).cluster_specs,
                old(self).wf(),
                s0 == old(self).node_specs.deep_view(),
                forall|x: int, y: int| 0 <= x < y < s0.len() ==> s0[x].hostname != s0[y].hostname,
                forall|x: int| 0 <= x < i ==> s0[x].hostname != specs@.hostname,
            decreases self.node_specs@.len() - i,
        {
            if bytes_eq(self.node_specs[i].hostname.as_slice(), specs.hostname.as_slice()) {
                proof {
                    lemma_specs_key_index_at(s0, specs@.hostname, i as int);
                }
                let _old_entry = self.node_specs.remove(i);
                self.node_specs.insert(i, specs);
                proof {
                    assert(self.node_specs.deep_view() =~~= s0.update(i as int, specs@));
                    lemma_update_keeps_distinct_specs(s0, i as int, specs@);
                }
                return ;
            }
            i = i + 1;
        }
        proof {
            lemma_specs_key_index_none(s0, specs@.hostname);
        }
        self.node_specs.push(specs);
        proof {
            assert(self.node_specs.deep_view() =~~= s0.push(specs@));
            lemma_specs_key_index_missing(s0, specs@.hostname);
        }
    }
    /// One aggregation pass: every known node's latest sample (or an
    /// offline heartbeat carrying its hostname) moves into its buffer,
    /// the cluster cpu count is refreshed, and the cluster sample over
    /// the nodes' newest samples lands in the cluster buffer.
    pub fn aggregation_tick(&mut self)
        requires
            old(self).wf(),
        ensures
            final(self).wf(),
            ({
                let ns = old(self).node_specs.deep_view();
                let fed = feed_spec(
                    FeedState {
                        entries: old(self).node_buffers.storage.deep_view(),
                        latest: old(self).latest_metrics.deep_view(),
                    },
                    ns,
                    BUFFER_LIMIT as int,
                );
                &&& final(self).node_buffers.storage.deep_view() == fed.entries
                &&& final(self).latest_metrics.deep_view() == fed.latest
                &&& final(self).cluster_specs@ == (NodeSpecsV {
                    cpus: cap_u16(sum_cpus(ns)),
                    ..old(self).cluster_specs@
                })
                &&& final(self).cluster_buffer@ == old(self).cluster_buffer@.push_spec(
                    NodeMetrics::cluster_spec(last_samples(fed.entries)),
                )
                &&& final(self).node_specs == old(self).node_specs
            }),
    {
        let ghost ns = self.node_specs.deep_view();
        let ghost init = FeedState {
            entries: self.node_buffers.storage.deep_view(),
            latest: self.latest_metrics.deep_view(),
        };
        let mut total_cpus: u16 = 0;
        let mut i: usize = 0;
        proof {
            assert(ns.take(0) =~= Seq::<NodeSpecsV>::empty());
        }
        while i < self.node_specs.len()
            invariant
                i <= self.node_specs@.len(),
                ns == self.node_specs.deep_view(),
                self.node_specs == old(self).node_specs,
                self.cluster_buffer == old(self).cluster_buffer,
                self.cluster_specs == old(self).cluster_specs,
                old(self).wf(),
                self.node_buffers.wf(),
                self.node_buffers.limit == BUFFER_LIMIT,
                init == (FeedState {
                    entries: old(self).node_buffers.storage.deep_view(),
                    latest: old(self).latest_metrics.deep_view(),
                }),
                feed_spec(init, ns.take(i as int), BUFFER_LIMIT as int) == (FeedState {
                    entries: self.node_buffers.storage.deep_view(),
                    latest: self.latest_metrics.deep_view(),
                }),
                forall|x: int, y: int|
                    0 <= x < y < self.latest_metrics@.len()
                        ==> self.latest_metrics.deep_view()[x].hostname
                        != self.latest_metrics.deep_view()[y].hostname,
                sum_cpus(ns.take(i as int)) >= 0,
                total_cpus == cap_u16(sum_cpus(ns.take(i as int))),
            decreases self.node_specs@.len() - i,
        {
            let ghost st_prev = FeedState {
                entries: self.node_buffers.storage.deep_view(),
                latest: self.latest_metrics.deep_view(),
            };
            proof {
                assert(ns.take(i + 1).drop_last() =~= ns.take(i as int));
                assert(ns.take(i + 1).last() == ns[i as int]);
                assert(ns[i as int] == self.node_specs@[i as int]@);
            }
            let cpus = self.node_specs[i].cpus;
            let wide: u32 = total_cpus as u32 + cpus as u32;
            total_cpus = if wide > 65535 {
                65535
            } else {
                wide as u16
            };
            let mut key: Vec<u8> = Vec::new();
            crate::network::append_bytes(&mut key, self.node_specs[i].hostname.as_slice());
            let taken = take_by_hostname(&mut self.latest_metrics, key.as_slice());
            match taken {
                Some(m) => {
                    proof {
                        let j = metrics_key_index(st_prev.latest, key@);
                        lemma_metrics_key_index_found(st_prev.latest, key@);
                        lemma_remove_keeps_distinct(st_prev.latest, j);
                    }
                    self.node_buffers.push(key.as_slice(), m);
                },
                None => {
                    let heartbeat = NodeMetrics::offline(key);
                    let mut key2: Vec<u8> = Vec::new();
                    crate::network::append_bytes(&mut key2, heartbeat.hostname.as_slice());
                    self.node_buffers.push(key2.as_slice(), heartbeat);
                },
            }
            i = i + 1;
        }
        proof {
            assert(ns.take(ns.len() as int) =~= ns);
        }
        self.cluster_specs.update_cpus(total_cpus);
        let lasts = collect_last_samples(self.node_buffers.storage());
        let cluster = NodeMetrics::aggregate(lasts);
        self.cluster_buffer.push(cluster);
    }
}

/// The per-node messages of one broadcast round: for each identity
/// whose buffer has history at the resolution, its newest sample,
/// addressed to the resolution's subscribers.
pub open spec fn node_broadcast_spec(
    specs: Seq<NodeSpecsV>,
    entries: Seq<MetricBufferEntryV>,
    tf: Timeframe,
) -> Seq<OutboundMessageV>
    decreases specs.len(),
{
    if specs.len() == 0 {
        Seq::empty()
    } else {
        let rest = node_broadcast_spec(specs.drop_last(), entries, tf);
        let sp = specs.last();
        let k = key_index(entries, sp.hostname);
        if k >= 0 && entries[k].buffer.at(tf).len() > 0 {
            rest.push(
                OutboundMessageV {
                    receiver: Receiver::SubscribersOf(tf),
                    data: MessageDataV::NodeMetrics {
                        nodes: seq![
                            NodeV { specs: sp, metrics: entries[k].buffer.at(tf).last() },
                        ],
                    },
                },
            )
        } else {
            rest
        }
    }
}

/// One whole broadcast round: the per-node messages, then the cluster
/// message when the cluster buffer has history at the resolution.
pub open spec fn broadcast_spec(
    specs: Seq<NodeSpecsV>,
    entries: Seq<MetricBufferEntryV>,
    cluster_specs: NodeSpecsV,
    cluster: MetricBufferV,
    tf: Timeframe,
) -> Seq<OutboundMessageV> {
    let base = node_broadcast_spec(specs, entries, tf);
    if cluster.at(tf).len() > 0 {
        base.push(
            OutboundMessageV {
                receiver: Receiver::SubscribersOf(tf),
                data: MessageDataV::ClusterMetrics {
                    nodes: seq![
                        NodeV { specs: cluster_specs, metrics: cluster.at(tf).last() },
                    ],
                },
            },
        )
    } else {
        base
    }
}

/// The per-node backfill for one new subscriber: for each buffer
/// whose node has an identity, its entire history at the resolution,
/// decorated with that identity, addressed to the one session.
pub open spec fn backfill_nodes_spec(
    entries: Seq<MetricBufferEntryV>,
    specs: Seq<NodeSpecsV>,
    id: u64,
    tf: Timeframe,
) -> Seq<OutboundMessageV>
    decreases entries.len(),
{
    if entries.len() == 0 {
        Seq::empty()
    } else {
        let rest = backfill_nodes_spec(entries.drop_last(), specs, id, tf);
        let e = entries.last();
        let k = specs_key_index(specs, e.hostname);
        if k >= 0 {
            rest.push(
                OutboundMessageV {
                    receiver: Receiver::Only(id),
                    data: MessageDataV::NodeMetrics {
                        nodes: nodes_with_specs(e.buffer.at(tf), specs[k]),
                    },
                },
            )
        } else {
            rest
        }
    }
}

/// One whole backfill: the per-node histories, then the entire
/// cluster history at the resolution.
pub open spec fn backfill_spec(
    entries: Seq<MetricBufferEntryV>,
    specs: Seq<NodeSpecsV>,
    cluster_specs: NodeSpecsV,
    cluster: MetricBufferV,
    id: u64,
    tf: Timeframe,
) -> Seq<OutboundMessageV> {
    backfill_nodes_spec(entries, specs, id, tf).push(
        OutboundMessageV {
            receiver: Receiver::Only(id),
            data: MessageDataV::ClusterMetrics {
                nodes: nodes_with_specs(cluster.at(tf), cluster_specs),
            },
        },
    )
}

impl MetricHub {
    /// One broadcast round at one resolution; see `broadcast_spec`.
    pub fn send_metrics(&self, timeframe: Timeframe) -> (out: Vec<OutboundMessage>)
        ensures
            out.deep_view() == broadcast_spec(
                self.node_specs.deep_view(),
                self.node_buffers.storage.deep_view(),
                self.cluster_specs@,
                self.cluster_buffer@,
                timeframe,
            ),
    {
        let ghost ns = self.node_specs.deep_view();
        let ghost es = self.node_buffers.storage.deep_view();
        let mut out: Vec<OutboundMessage> = Vec::new();
        let mut i: usize = 0;
        proof {
            assert(ns.take(0) =~= Seq::<NodeSpecsV>::empty());
            assert(out.deep_view() =~~= node_broadcast_spec(ns.take(0), es, timeframe));
        }
        while i < self.node_specs.len()
            invariant
                i <= self.node_specs@.len(),
                ns == self.node_specs.deep_view(),
                es == self.node_buffers.storage.deep_view(),
                out.deep_view() =~~= node_broadcast_spec(ns.take(i as int), es, timeframe),
            decreases self.node_specs@.len() - i,
        {
            let ghost o0 = out.deep_view();
            proof {
                assert(ns.take(i + 1).drop_last() =~= ns.take(i as int));
                assert(ns.take(i + 1).last() == ns[i as int]);
                assert(ns[i as int] == self.node_specs@[i as int]@);
            }
            let sp = &self.node_specs[i];
            let found = self.node_buffers.get(sp.hostname.as_slice());
            match found {
                Some(buffer) => {
                    let history = buffer.storage(timeframe);
                    let n = history.len();
                    if n > 0 {
                        let last = history[n - 1].duplicate();
                        proof {
                            assert(history.deep_view()[n - 1] == history@[n - 1]@);
                        }
                        let node = Node::new(sp.duplicate(), last);
                        let mut nodes: Vec<Node> = Vec::new();
                        nodes.push(node);
                        let msg = OutboundMessage {
                            receiver: Receiver::SubscribersOf(timeframe),
                            data: MessageData::NodeMetrics(nodes),
                        };
                        out.push(msg);
                        proof {
                            let k = key_index(es, ns[i as int].hostname);
                            assert(out.deep_view() =~~= o0.push(
                                OutboundMessageV {
                                    receiver: Receiver::SubscribersOf(timeframe),
                                    data: MessageDataV::NodeMetrics {
                                        nodes: seq![
                                            NodeV {
                                                specs: ns[i as int],
                                                metrics: es[k].buffer.at(timeframe).last(),
                                            },
                                        ],
                                    },
                                },
                            ));
                        }
                    }
                },
                None => {
                },
            }
            i = i + 1;
            proof {
                assert(out.deep_view() =~~= node_broadcast_spec(ns.take(i as int), es, timeframe));
            }
        }
        proof {
            assert(ns.take(ns.len() as int) =~= ns);
        }
        let cluster_history = self.cluster_buffer.storage(timeframe);
        let n = cluster_history.len();
        if n > 0 {
            let ghost o0 = out.deep_view();
            let last = cluster_history[n - 1].duplicate();
            proof {
                assert(cluster_history.deep_view()[n - 1] == cluster_history@[n - 1]@);
            }
            let node = Node::new(self.cluster_specs.duplicate(), last);
            let mut nodes: Vec<Node> = Vec::new();
            nodes.push(node);
            out.push(
                OutboundMessage {
                    receiver: Receiver::SubscribersOf(timeframe),
                    data: MessageData::ClusterMetrics(nodes),
                },
            );
            proof {
                assert(out.deep_view() =~~= o0.push(
                    OutboundMessageV {
                        receiver: Receiver::SubscribersOf(timeframe),
                        data: MessageDataV::ClusterMetrics {
                            nodes: seq![
                                NodeV {
                                    specs: self.cluster_specs@,
                                    metrics: self.cluster_buffer@.at(timeframe).last(),
                                },
                            ],
                        },
                    },
                ));
            }
        }
        out
    }

    /// The backfill a newly subscribed session receives: exactly the
    /// current buffer contents at its chosen resolution, per node and
    /// then for the cluster; see `backfill_spec`.
    pub fn handle_client_joined(&self, session_id: u64, subscribe_to: Timeframe) -> (out: Vec<
        OutboundMessage,
    >)
        ensures
            out.deep_view() == backfill_spec(
                self.node_buffers.storage.deep_view(),
                self.node_specs.deep_view(),
                self.cluster_specs@,
                self.cluster_buffer@,
                session_id,
                subscribe_to,
            ),
    {
        let ghost ns = self.node_specs.deep_view();
        let ghost es = self.node_buffers.storage.deep_view();
        let mut out: Vec<OutboundMessage> = Vec::new();
        let entries = self.node_buffers.storage();
        let mut i: usize = 0;
        proof {
            assert(es.take(0) =~= Seq::<MetricBufferEntryV>::empty());
            assert(out.deep_view() =~~= backfill_nodes_spec(
                es.take(0),
                ns,
                session_id,
                subscribe_to,
            ));
        }
        while i < entries.len()
            invariant
                i <= entries@.len(),
                ns == self.node_specs.deep_view(),
                es == entries.deep_view(),
                es == self.node_buffers.storage.deep_view(),
                out.deep_view() =~~= backfill_nodes_spec(
                    es.take(i as int),
                    ns,
                    session_id,
                    subscribe_to,
                ),
            decreases entries@.len() - i,
        {
            let ghost o0 = out.deep_view();
            proof {
                assert(es.take(i + 1).drop_last() =~= es.take(i as int));
                assert(es.take(i + 1).last() == es[i as int]);
                assert(es[i as int] == entries@[i as int]@);
            }
            let e = &entries[i];
            let found = find_specs(&self.node_specs, e.hostname.as_slice());
            match found {
                Some(k) => {
                    proof {
                        assert(ns[k as int] == self.node_specs@[k as int]@);
                    }
                    let nodes = decorate(e.buffer.storage(subscribe_to), &self.node_specs[k]);
                    out.push(
                        OutboundMessage {
                            receiver: Receiver::Only(session_id),
                            data: MessageData::NodeMetrics(nodes),
                        },
                    );
                    proof {
                        assert(out.deep_view() =~~= o0.push(
                            OutboundMessageV {
                                receiver: Receiver::Only(session_id),
                                data: MessageDataV::NodeMetrics {
                                    nodes: nodes_with_specs(
                                        es[i as int].buffer.at(subscribe_to),
                                        ns[k as int],
                                    ),
                                },
                            },
                        ));
                    }
                },
                None => {
                },
            }
            i = i + 1;
            proof {
                assert(out.deep_view() =~~= backfill_nodes_spec(
                    es.take(i as int),
                    ns,
                    session_id,
                    subscribe_to,
                ));
            }
        }
        proof {
            assert(es.take(es.len() as int) =~= es);
        }
        let ghost o0 = out.deep_view();
        let cluster_nodes = decorate(self.cluster_buffer.storage(subscribe_to), &self.cluster_specs);
        out.push(
            OutboundMessage {
                receiver: Receiver::Only(session_id),
                data: MessageData::ClusterMetrics(cluster_nodes),
            },
        );
        proof {
            assert(out.deep_view() =~~= o0.push(
                OutboundMessageV {
                    receiver: Receiver::Only(session_id),
                    data: MessageDataV::ClusterMetrics {
                        nodes: nodes_with_specs(
                            self.cluster_buffer@.at(subscribe_to),
                            self.cluster_specs@,
                        ),
                    },
                },
            ));
        }
        out
    }
}

/// The newest one-second sample of each non-empty buffer, copied out
/// in buffer order.
fn collect_last_samples(entries: &Vec<crate::buffer::MetricBufferEntry>) -> (r: Vec<NodeMetrics>)
    ensures
        r.deep_view() == last_samples(entries.deep_view()),
{
    let ghost es = entries.deep_view();
    let mut r: Vec<NodeMetrics> = Vec::new();
    let mut i: usize = 0;
    proof {
        assert(es.take(0) =~= Seq::<MetricBufferEntryV>::empty());
        assert(last_samples(es.take(0)) =~~= Seq::<NodeMetricsV>::empty()) by {
            reveal_with_fuel(Seq::filter, 2);
            assert(es.take(0).filter(|e: MetricBufferEntryV| e.buffer.s1.len() > 0) =~~= Seq::<
                MetricBufferEntryV,
            >::empty());
        }
    }
    while i < entries.len()
        invariant
            i <= entries@.len(),
            es == entries.deep_view(),
            r.deep_view() =~~= last_samples(es.take(i as int)),
        decreases entries@.len() - i,
    {
        let ghost r0 = r.deep_view();
        proof {
            assert(es[i as int] == entries@[i as int]@);
        }
        let n = entries[i].buffer.storage_1s.len();
        if n > 0 {
            let m = entries[i].buffer.storage_1s[n - 1].duplicate();
            proof {
                assert(entries@[i as int].buffer.storage_1s.deep_view()[n - 1] == entries@[
                    i as int
                ].buffer.storage_1s@[n - 1]@);
                assert(m@ == es[i as int].buffer.s1.last());
            }
            r.push(m);
        }
        i = i + 1;
        proof {
            let pred = |e: MetricBufferEntryV| e.buffer.s1.len() > 0;
            let f = |e: MetricBufferEntryV| e.buffer.s1.last();
            assert(es.take(i as int).drop_last() =~= es.take(i - 1));
            assert(es.take(i as int).last() == es[i - 1]);
            reveal_with_fuel(Seq::filter, 2);
            assert(es.take(i as int).filter(pred) == es.take(i - 1).filter(pred) + if pred(
                es[i - 1],
            ) {
                seq![es[i - 1]]
            } else {
                Seq::empty()
            });
            if pred(es[i - 1]) {
                assert(es.take(i as int).filter(pred).map_values(f) =~~= es.take(i - 1).filter(
                    pred,
                ).map_values(f).push(f(es[i - 1])));
            } else {
                assert(es.take(i as int).filter(pred).map_values(f) =~~= es.take(i - 1).filter(
                    pred,
                ).map_values(f));
            }
            assert(r.deep_view() =~~= last_samples(es.take(i as int)));
        }
    }
    proof {
        assert(es.take(es.len() as int) =~= es);
    }
    r
}

/// Takes the sample stored under a hostname out of the list, if any.
fn take_by_hostname(v: &mut Vec<NodeMetrics>, key: &[u8]) -> (r: Option<NodeMetrics>)
    ensures
        ({
            let l0 = old(v).deep_view();
            let j = metrics_key_index(l0, key@);
            match r {
                Some(m) => j >= 0 && m@ == l0[j] && final(v).deep_view() == l0.remove(j),
                None => j < 0 && final(v).deep_view() == l0,
            }
        }),
{
    let ghost l0 = v.deep_view();
    let mut i: usize = 0;
    while i < v.len()
        invariant
            i <= v@.len(),
            l0 == v.deep_view(),
            l0 == old(v).deep_view(),
            forall|x: int| 0 <= x < i ==> l0[x].hostname != key@,
        decreases v@.len() - i,
    {
        if bytes_eq(v[i].hostname.as_slice(), key) {
            proof {
                lemma_metrics_key_index_at(l0, key@, i as int);
            }
            let m = v.remove(i);
            proof {
                assert(v.deep_view() =~~= l0.remove(i as int));
                assert(m@ == l0[i as int]);
            }
            return Some(m);
        }
        i = i + 1;
    }
    proof {
        lemma_metrics_key_index_none(l0, key@);
        assert(v.deep_view() =~~= l0);
    }
    None
}

/// Finds the identity stored under a hostname.
fn find_specs(v: &Vec<NodeSpecs>, key: &[u8]) -> (r: Option<usize>)
    ensures
        match r {
            Some(i) => 0 <= i < v@.len() && specs_key_index(v.deep_view(), key@) == i as int,
            None => specs_key_index(v.deep_view(), key@) < 0,
        },
{
    let ghost s0 = v.deep_view();
    let mut i: usize = 0;
    while i < v.len()
        invariant
            i <= v@.len(),
            s0 == v.deep_view(),
            forall|x: int| 0 <= x < i ==> s0[x].hostname != key@,
        decreases v@.len() - i,
    {
        if bytes_eq(v[i].hostname.as_slice(), key) {
            proof {
                lemma_specs_key_index_at(s0, key@, i as int);
            }
            return Some(i);
        }
        i = i + 1;
    }
    proof {
        lemma_specs_key_index_none(s0, key@);
    }
    None
}

/// Removing an element keeps hostnames pairwise distinct.
proof fn lemma_remove_keeps_distinct(s: Seq<NodeMetricsV>, j: int)
    requires
        0 <= j < s.len(),
        forall|x: int, y: int| 0 <= x < y < s.len() ==> s[x].hostname != s[y].hostname,
    ensures
        forall|x: int, y: int|
            0 <= x < y < s.remove(j).len() ==> s.remove(j)[x].hostname != s.remove(j)[y].hostname,
{
    let t = s.remove(j);
    assert forall|x: int, y: int| 0 <= x < y < t.len() implies t[x].hostname != t[y].hostname by {
        let xx = if x < j {
            x
        } else {
            x + 1
        };
        let yy = if y < j {
            y
        } else {
            y + 1
        };
        assert(t[x] == s[xx]);
        assert(t[y] == s[yy]);
    }
}

/// Samples decorated with one identity.
fn decorate(samples: &Vec<NodeMetrics>, sp: &NodeSpecs) -> (r: Vec<Node>)
    ensures
        r.deep_view() == nodes_with_specs(samples.deep_view(), sp@),
{
    let ghost ms = samples.deep_view();
    let mut r: Vec<Node> = Vec::new();
    let mut i: usize = 0;
    proof {
        assert(r.deep_view() =~~= ms.take(0).map_values(
            |m: NodeMetricsV| NodeV { specs: sp@, metrics: m },
        ));
    }
    while i < samples.len()
        invariant
            i <= samples@.len(),
            ms == samples.deep_view(),
            r.deep_view() =~~= ms.take(i as int).map_values(
                |m: NodeMetricsV| NodeV { specs: sp@, metrics: m },
            ),
        decreases samples@.len() - i,
    {
        let ghost r0 = r.deep_view();
        let node = Node::new(sp.duplicate(), samples[i].duplicate());
        proof {
            assert(ms[i as int] == samples@[i as int]@);
        }
        r.push(node);
        i = i + 1;
        proof {
            assert(r.deep_view() =~~= r0.push(NodeV { specs: sp@, metrics: ms[i - 1] }));
            assert(ms.take(i as int).map_values(
                |m: NodeMetricsV| NodeV { specs: sp@, metrics: m },
            ) =~~= ms.take(i - 1).map_values(
                |m: NodeMetricsV| NodeV { specs: sp@, metrics: m },
            ).push(NodeV { specs: sp@, metrics: ms[i - 1] }));
        }
    }
    proof {
        assert(ms.take(ms.len() as int) =~~= ms);
    }
    r
}

/// When the first `i` samples miss the key and sample `i` hits it,
/// the key's index is `i`.
proof fn lemma_metrics_key_index_at(s: Seq<NodeMetricsV>, key: Seq<u8>, i: int)
    requires
        0 <= i < s.len(),
        s[i].hostname == key,
        forall|x: int| 0 <= x < i ==> s[x].hostname != key,
    ensures
        metrics_key_index(s, key) == i,
    decreases i,
{
    if i > 0 {
        let t = s.drop_first();
        assert(forall|x: int| 0 <= x < i - 1 ==> t[x] == s[x + 1]);
        lemma_metrics_key_index_at(t, key, i - 1);
    }
}

/// When no sample holds the key, its index is -1.
proof fn lemma_metrics_key_index_none(s: Seq<NodeMetricsV>, key: Seq<u8>)
    requires
        forall|x: int| 0 <= x < s.len() ==> s[x].hostname != key,
    ensures
        metrics_key_index(s, key) < 0,
    decreases s.len(),
{
    if s.len() > 0 {
        let t = s.drop_first();
        assert(forall|x: int| 0 <= x < t.len() ==> t[x] == s[x + 1]);
        lemma_metrics_key_index_none(t, key);
    }
}

/// A negative index means no sample holds the key.
pub proof fn lemma_metrics_key_index_missing(s: Seq<NodeMetricsV>, key: Seq<u8>)
    requires
        metrics_key_index(s, key) < 0,
    ensures
        forall|x: int| 0 <= x < s.len() ==> (#[trigger] s[x]).hostname != key,
    decreases s.len(),
{
    if s.len() > 0 {
        assert(s[0].hostname != key);
        lemma_metrics_key_index_missing(s.drop_first(), key);
        assert(forall|x: int|
            1 <= x < s.len() ==> (#[trigger] s[x]).hostname == s.drop_first()[x - 1].hostname);
    }
}

/// A nonnegative index points at a sample holding the key.
pub proof fn lemma_metrics_key_index_found(s: Seq<NodeMetricsV>, key: Seq<u8>)
    requires
        metrics_key_index(s, key) >= 0,
    ensures
        metrics_key_index(s, key) < s.len(),
        s[metrics_key_index(s, key)].hostname == key,
    decreases s.len(),
{
    if s.len() > 0 && s[0].hostname != key {
        lemma_metrics_key_index_found(s.drop_first(), key);
    }
}

proof fn lemma_update_keeps_distinct_metrics(s: Seq<NodeMetricsV>, i: int, m: NodeMetricsV)
    requires
        0 <= i < s.len(),
        s[i].hostname == m.hostname,
        forall|x: int, y: int| 0 <= x < y < s.len() ==> s[x].hostname != s[y].hostname,
    ensures
        forall|x: int, y: int|
            0 <= x < y < s.update(i, m).len() ==> s.update(i, m)[x].hostname != s.update(
                i,
                m,
            )[y].hostname,
{
}

/// When the first `i` identities miss the key and identity `i` hits
/// it, the key's index is `i`.
proof fn lemma_specs_key_index_at(s: Seq<NodeSpecsV>, key: Seq<u8>, i: int)
    requires
        0 <= i < s.len(),
        s[i].hostname == key,
        forall|x: int| 0 <= x < i ==> s[x].hostname != key,
    ensures
        specs_key_index(s, key) == i,
    decreases i,
{
    if i > 0 {
        let t = s.drop_first();
        assert(forall|x: int| 0 <= x < i - 1 ==> t[x] == s[x + 1]);
        lemma_specs_key_index_at(t, key, i - 1);
    }
}

/// When no identity holds the key, its index is -1.
proof fn lemma_specs_key_index_none(s: Seq<NodeSpecsV>, key: Seq<u8>)
    requires
        forall|x: int| 0 <= x < s.len() ==> s[x].hostname != key,
    ensures
        specs_key_index(s, key) < 0,
    decreases s.len(),
{
    if s.len() > 0 {
        let t = s.drop_first();
        assert(forall|x: int| 0 <= x < t.len() ==> t[x] == s[x + 1]);
        lemma_specs_key_index_none(t, key);
    }
}

/// A negative index means no identity holds the key.
proof fn lemma_specs_key_index_missing(s: Seq<NodeSpecsV>, key: Seq<u8>)
    requires
        specs_key_index(s, key) < 0,
    ensures
        forall|x: int| 0 <= x < s.len() ==> (#[trigger] s[x]).hostname != key,
    decreases s.len(),
{
    if s.len() > 0 {
        assert(s[0].hostname != key);
        lemma_specs_key_index_missing(s.drop_first(), key);
        assert(forall|x: int|
            1 <= x < s.len() ==> (#[trigger] s[x]).hostname == s.drop_first()[x - 1].hostname);
    }
}

proof fn lemma_update_keeps_distinct_specs(s: Seq<NodeSpecsV>, i: int, m: NodeSpecsV)
    requires
        0 <= i < s.len(),
        s[i].hostname == m.hostname,
        forall|x: int, y: int| 0 <= x < y < s.len() ==> s[x].hostname != s[y].hostname,
    ensures
        forall|x: int, y: int|
            0 <= x < y < s.update(i, m).len() ==> s.update(i, m)[x].hostname != s.update(
                i,
                m,
            )[y].hostname,
{
}

} // verus!
