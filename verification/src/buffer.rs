//! Bounded per-node history at three resolutions. Every push lands in
//! the one-second buffer; every fifth push rolls the newest five
//! one-second samples up into the five-second buffer, and every
//! fifteenth rolls the newest three five-second samples up into the
//! fifteen-second buffer. Each buffer drops from the head so its
//! length never exceeds the limit.

use vstd::prelude::*;

verus! {

use vstd::math::min;
use crate::node::{NodeMetrics, NodeMetricsV};
use crate::server::Timeframe;
use crate::text::bytes_eq;

/// Appends at the tail and drops from the head down to `limit`.
pub open spec fn bounded_push(s: Seq<NodeMetricsV>, m: NodeMetricsV, limit: int) -> Seq<
    NodeMetricsV,
> {
    let t = s.push(m);
    if t.len() > limit {
        t.skip(t.len() - limit)
    } else {
        t
    }
}

/// The newest `k` samples, oldest first; fewer when fewer exist.
pub open spec fn tail_of(s: Seq<NodeMetricsV>, k: int) -> Seq<NodeMetricsV> {
    s.skip(s.len() - min(k, s.len() as int))
}

/// The mathematical value of a `MetricBuffer`.
#[verifier::ext_equal]
pub ghost struct MetricBufferV {
    pub limit: int,
    pub s1: Seq<NodeMetricsV>,
    pub c5: int,
    pub s5: Seq<NodeMetricsV>,
    pub c15: int,
    pub s15: Seq<NodeMetricsV>,
}

impl MetricBufferV {
    /// Lengths bounded by the limit, counters inside their cycles.
    pub open spec fn wf(self) -> bool {
        &&& self.limit >= 1
        &&& self.s1.len() <= self.limit
        &&& self.s5.len() <= self.limit
        &&& self.s15.len() <= self.limit
        &&& 0 <= self.c5 < 5
        &&& 0 <= self.c15 < 15
    }

    /// A fresh buffer.
    pub open spec fn empty_spec(limit: int) -> MetricBufferV {
        MetricBufferV {
            limit,
            s1: Seq::empty(),
            c5: 0,
            s5: Seq::empty(),
            c15: 0,
            s15: Seq::empty(),
        }
    }

    /// The state after one push: the sample lands in the one-second
    /// history, and due rollups cascade.
    pub open spec fn push_spec(self, m: NodeMetricsV) -> MetricBufferV {
        let s1 = bounded_push(self.s1, m, self.limit);
        let c5 = self.c5 + 1;
        let roll5 = c5 == 5;
        let s5 = if roll5 {
            bounded_push(self.s5, NodeMetrics::avg_spec(tail_of(s1, 5)), self.limit)
        } else {
            self.s5
        };
        let c15 = self.c15 + 1;
        let roll15 = c15 == 15;
        let s15 = if roll15 {
            bounded_push(self.s15, NodeMetrics::avg_spec(tail_of(s5, 3)), self.limit)
        } else {
            self.s15
        };
        MetricBufferV {
            limit: self.limit,
            s1,
            c5: if roll5 {
                0
            } else {
                c5
            },
            s5,
            c15: if roll15 {
                0
            } else {
                c15
            },
            s15,
        }
    }

    /// The history at one resolution.
    pub open spec fn at(self, timeframe: Timeframe) -> Seq<NodeMetricsV> {
        match timeframe {
            Timeframe::OverviewOneSecond => self.s1,
            Timeframe::OverviewFiveSeconds => self.s5,
            Timeframe::OverviewFifteenSeconds => self.s15,
        }
    }
}

/// Bounded history of one node's samples at the three resolutions.
pub struct MetricBuffer {
    pub limit: usize,
    pub storage_1s: Vec<NodeMetrics>,
    pub samples_since_5s_rollup: u8,
    pub storage_5s: Vec<NodeMetrics>,
    pub samples_since_15s_rollup: u8,
    pub storage_15s: Vec<NodeMetrics>,
}

impl View for MetricBuffer {
    type V = MetricBufferV;

    open spec fn view(&self) -> MetricBufferV {
        MetricBufferV {
            limit: self.limit as int,
            s1: self.storage_1s.deep_view(),
            c5: self.samples_since_5s_rollup as int,
            s5: self.storage_5s.deep_view(),
            c15: self.samples_since_15s_rollup as int,
            s15: self.storage_15s.deep_view(),
        }
    }
}

/// Drops the head when full, then appends.
fn bounded_push_vec(v: &mut Vec<NodeMetrics>, m: NodeMetrics, limit: usize)
    requires
        limit >= 1,
        old(v)@.len() <= limit,
    ensures
        final(v).deep_view() == bounded_push(old(v).deep_view(), m@, limit as int),
        final(v)@.len() <= limit,
{
    let ghost before = v.deep_view();
    if v.len() >= limit {
        v.remove(0);
        proof {
            assert(v.deep_view() =~~= before.drop_first());
        }
    }
    v.push(m);
    proof {
        if before.len() == limit {
            assert(v.deep_view() =~~= bounded_push(before, m@, limit as int));
        } else {
            assert(v.deep_view() =~~= bounded_push(before, m@, limit as int));
        }
    }
}

/// Copies the newest `k` samples, oldest first.
fn tail_samples(v: &Vec<NodeMetrics>, k: usize) -> (r: Vec<NodeMetrics>)
    ensures
        r.deep_view() == tail_of(v.deep_view(), k as int),
{
    let ghost dv = v.deep_view();
    let start: usize = if v.len() > k {
        v.len() - k
    } else {
        0
    };
    let mut r: Vec<NodeMetrics> = Vec::new();
    let mut i: usize = start;
    proof {
        assert(dv.subrange(start as int, start as int) =~~= Seq::<NodeMetricsV>::empty());
    }
    while i < v.len()
        invariant
            start <= i <= v@.len(),
            dv == v.deep_view(),
            r.deep_view() =~~= dv.subrange(start as int, i as int),
        decreases v@.len() - i,
    {
        let ghost r0 = r.deep_view();
        let m = v[i].duplicate();
        proof {
            assert(dv[i as int] == v@[i as int]@);
        }
        r.push(m);
        i = i + 1;
        proof {
            assert(r.deep_view() =~~= r0.push(dv[i - 1]));
            assert(dv.subrange(start as int, i as int) =~~= dv.subrange(start as int, i - 1).push(
                dv[i - 1],
            ));
        }
    }
    proof {
        assert(dv.subrange(start as int, dv.len() as int) =~~= tail_of(dv, k as int));
    }
    r
}

impl MetricBuffer {
    pub fn new(limit: usize) -> (r: MetricBuffer)
        requires
            limit >= 1,
        ensures
            r@ == MetricBufferV::empty_spec(limit as int),
            r@.wf(),
    {
        let r = MetricBuffer {
            limit,
            storage_1s: Vec::new(),
            samples_since_5s_rollup: 0,
            storage_5s: Vec::new(),
            samples_since_15s_rollup: 0,
            storage_15s: Vec::new(),
        };
        proof {
            assert(r@.s1 =~~= Seq::<NodeMetricsV>::empty());
            assert(r@.s5 =~~= Seq::<NodeMetricsV>::empty());
            assert(r@.s15 =~~= Seq::<NodeMetricsV>::empty());
        }
        r
    }

    /// The stored history at one resolution.
    pub fn storage(&self, timeframe: Timeframe) -> (r: &Vec<NodeMetrics>)
        ensures
            r.deep_view() == self@.at(timeframe),
    {
        match timeframe {
            Timeframe::OverviewOneSecond => &self.storage_1s,
            Timeframe::OverviewFiveSeconds => &self.storage_5s,
            Timeframe::OverviewFifteenSeconds => &self.storage_15s,
        }
    }

    /// Absorbs one sample; see `MetricBufferV::push_spec`. No history
    /// ever grows beyond the limit.
    pub fn push(&mut self, metrics: NodeMetrics)
        requires
            old(self)@.wf(),
        ensures
            final(self)@ == old(self)@.push_spec(metrics@),
            final(self)@.wf(),
    {
        bounded_push_vec(&mut self.storage_1s, metrics, self.limit);
        self.samples_since_5s_rollup = self.samples_since_5s_rollup + 1;
        self.samples_since_15s_rollup = self.samples_since_15s_rollup + 1;

        if self.samples_since_5s_rollup == 5 {
            let five = tail_samples(&self.storage_1s, 5);
            let rollup = NodeMetrics::aggregate_avg(five);
            bounded_push_vec(&mut self.storage_5s, rollup, self.limit);
            self.samples_since_5s_rollup = 0;
        }

        if self.samples_since_15s_rollup == 15 {
            let three = tail_samples(&self.storage_5s, 3);
            let rollup = NodeMetrics::aggregate_avg(three);
            bounded_push_vec(&mut self.storage_15s, rollup, self.limit);
            self.samples_since_15s_rollup = 0;
        }
    }
}

/// The buffer after absorbing a whole run of samples, oldest first.
pub open spec fn pushes(b: MetricBufferV, ms: Seq<NodeMetricsV>) -> MetricBufferV
    decreases ms.len(),
{
    if ms.len() == 0 {
        b
    } else {
        pushes(b, ms.drop_last()).push_spec(ms.last())
    }
}

/// One bounded push grows a history by one, up to the limit.
proof fn lemma_bounded_push_len(s: Seq<NodeMetricsV>, m: NodeMetricsV, limit: int)
    requires
        limit >= 1,
    ensures
        bounded_push(s, m, limit).len() == min(s.len() as int + 1, limit),
{
}

/// After `n` one-second ticks into a fresh buffer, the one-second
/// history holds `n` samples, the five-second history `n / 5`, and
/// the fifteen-second history `n / 15` (a fifteen-second sample needs
/// three five-second rollups), each capped at the limit; the rollup
/// counters hold the remainders.
pub proof fn lemma_buffer_lengths_after_ticks(ms: Seq<NodeMetricsV>, limit: int)
    requires
        limit >= 1,
    ensures
        ({
            let b = pushes(MetricBufferV::empty_spec(limit), ms);
            let n = ms.len() as int;
            &&& b.wf()
            &&& b.limit == limit
            &&& b.s1.len() == min(n, limit)
            &&& b.c5 == n % 5
            &&& b.s5.len() == min(n / 5, limit)
            &&& b.c15 == n % 15
            &&& b.s15.len() == min(n / 15, limit)
        }),
    decreases ms.len(),
{
    let b = pushes(MetricBufferV::empty_spec(limit), ms);
    let n = ms.len() as int;
    if ms.len() == 0 {
    } else {
        lemma_buffer_lengths_after_ticks(ms.drop_last(), limit);
        let prev = pushes(MetricBufferV::empty_spec(limit), ms.drop_last());
        let m = ms.last();
        vstd::arithmetic::div_mod::lemma_fundamental_div_mod(n, 5);
        vstd::arithmetic::div_mod::lemma_fundamental_div_mod(n - 1, 5);
        vstd::arithmetic::div_mod::lemma_mod_bound(n, 5);
        vstd::arithmetic::div_mod::lemma_mod_bound(n - 1, 5);
        vstd::arithmetic::div_mod::lemma_fundamental_div_mod(n, 15);
        vstd::arithmetic::div_mod::lemma_fundamental_div_mod(n - 1, 15);
        vstd::arithmetic::div_mod::lemma_mod_bound(n, 15);
        vstd::arithmetic::div_mod::lemma_mod_bound(n - 1, 15);
        lemma_bounded_push_len(prev.s1, m, limit);
        assert((n - 1) % 5 + 1 == 5 <==> n % 5 == 0);
        if (n - 1) % 5 + 1 == 5 {
            lemma_bounded_push_len(
                prev.s5,
                NodeMetrics::avg_spec(tail_of(bounded_push(prev.s1, m, limit), 5)),
                limit,
            );
            assert(n / 5 == (n - 1) / 5 + 1);
        } else {
            assert(n / 5 == (n - 1) / 5);
        }
        let s5_now = b.s5;
        assert((n - 1) % 15 + 1 == 15 <==> n % 15 == 0);
        if (n - 1) % 15 + 1 == 15 {
            lemma_bounded_push_len(prev.s15, NodeMetrics::avg_spec(tail_of(s5_now, 3)), limit);
            assert(n / 15 == (n - 1) / 15 + 1);
        } else {
            assert(n / 15 == (n - 1) / 15);
        }
    }
}

/// One node's buffer under its hostname.
pub struct MetricBufferEntry {
    pub hostname: Vec<u8>,
    pub buffer: MetricBuffer,
}

/// The mathematical value of a `MetricBufferEntry`.
#[verifier::ext_equal]
pub ghost struct MetricBufferEntryV {
    pub hostname: Seq<u8>,
    pub buffer: MetricBufferV,
}

impl View for MetricBufferEntry {
    type V = MetricBufferEntryV;

    open spec fn view(&self) -> MetricBufferEntryV {
        MetricBufferEntryV { hostname: self.hostname@, buffer: self.buffer@ }
    }
}

impl DeepView for MetricBufferEntry {
    type V = MetricBufferEntryV;

    open spec fn deep_view(&self) -> MetricBufferEntryV {
        self.view()
    }
}

/// The position of a hostname among the entries, or -1.
pub open spec fn key_index(entries: Seq<MetricBufferEntryV>, key: Seq<u8>) -> int
    decreases entries.len(),
{
    if entries.len() == 0 {
        -1
    } else if entries[0].hostname == key {
        0
    } else {
        let r = key_index(entries.drop_first(), key);
        if r < 0 {
            -1
        } else {
            1 + r
        }
    }
}

/// Per-hostname buffers, created on first push, in first-seen order.
pub struct MetricBufferMap {
    pub limit: usize,
    pub storage: Vec<MetricBufferEntry>,
}

impl MetricBufferMap {
    /// Distinct hostnames, and every buffer well-formed at the shared
    /// limit.
    pub open spec fn wf(&self) -> bool {
        &&& self.limit >= 1
        &&& forall|i: int, j: int|
            0 <= i < j < self.storage@.len() ==> self.storage.deep_view()[i].hostname
                != self.storage.deep_view()[j].hostname
        &&& forall|i: int|
            0 <= i < self.storage@.len() ==> (#[trigger] self.storage.deep_view()[i]).buffer.wf()
                && self.storage.deep_view()[i].buffer.limit == self.limit
    }

    /// What one push leaves: the keyed buffer pushed, or a fresh
    /// buffer pushed and appended when the hostname is new.
    pub open spec fn push_map_spec(
        entries: Seq<MetricBufferEntryV>,
        key: Seq<u8>,
        m: NodeMetricsV,
        limit: int,
    ) -> Seq<MetricBufferEntryV> {
        let i = key_index(entries, key);
        if i >= 0 {
            entries.update(
                i,
                MetricBufferEntryV { hostname: key, buffer: entries[i].buffer.push_spec(m) },
            )
        } else {
            entries.push(
                MetricBufferEntryV {
                    hostname: key,
                    buffer: MetricBufferV::empty_spec(limit).push_spec(m),
                },
            )
        }
    }

    pub fn new(limit: usize) -> (r: MetricBufferMap)
        requires
            limit >= 1,
        ensures
            r.storage@.len() == 0,
            r.limit == limit,
            r.wf(),
    {
        MetricBufferMap { limit, storage: Vec::new() }
    }

    pub fn storage(&self) -> (r: &Vec<MetricBufferEntry>)
        ensures
            r.deep_view() == self.storage.deep_view(),
    {
        &self.storage
    }

    /// The buffer stored under a hostname, if any.
    pub fn get(&self, key: &[u8]) -> (r: Option<&MetricBuffer>)
        ensures
            match r {
                Some(b) => key_index(self.storage.deep_view(), key@) >= 0 && b@
                    == self.storage.deep_view()[key_index(self.storage.deep_view(), key@)].buffer,
                None => key_index(self.storage.deep_view(), key@) < 0,
            },
    {
        let idx = self.find(key);
        match idx {
            Some(i) => Some(&self.storage[i].buffer),
            None => None,
        }
    }

    /// Finds the entry position of a hostname.
    fn find(&self, key: &[u8]) -> (r: Option<usize>)
        ensures
            match r {
                Some(i) => 0 <= i < self.storage@.len() && key_index(
                    self.storage.deep_view(),
                    key@,
                ) == i as int,
                None => key_index(self.storage.deep_view(), key@) < 0,
            },
    {
        let ghost entries = self.storage.deep_view();
        let mut i: usize = 0;
        while i < self.storage.len()
            invariant
                i <= self.storage@.len(),
                entries == self.storage.deep_view(),
                forall|x: int| 0 <= x < i ==> entries[x].hostname != key@,
            decreases self.storage@.len() - i,
        {
            if bytes_eq(self.storage[i].hostname.as_slice(), key) {
                proof {
                    assert(entries[i as int].hostname == key@);
                    lemma_key_index_at(entries, key@, i as int);
                }
                return Some(i);
            }
            i = i + 1;
        }
        proof {
            lemma_key_index_none(entries, key@);
        }
        None
    }

    /// Pushes one sample under a hostname; see `push_map_spec`.
    pub fn push(&mut self, key: &[u8], metrics: NodeMetrics)
        requires
            old(self).wf(),
        ensures
            final(self).wf(),
            final(self).limit == old(self).limit,
            final(self).storage.deep_view() == MetricBufferMap::push_map_spec(
                old(self).storage.deep_view(),
                key@,
                metrics@,
                old(self).limit as int,
            ),
    {
        let ghost entries = self.storage.deep_view();
        let idx = self.find(key);
        match idx {
            Some(i) => {
                let mut entry = self.storage.remove(i);
                entry.buffer.push(metrics);
                let mut hostname = Vec::new();
                crate::network::append_bytes(&mut hostname, key);
                entry.hostname = hostname;
                self.storage.insert(i, entry);
                proof {
                    assert(entries[i as int].hostname == key@) by {
                        lemma_key_index_found(entries, key@);
                    }
                    assert(self.storage.deep_view() =~~= MetricBufferMap::push_map_spec(
                        entries,
                        key@,
                        metrics@,
                        self.limit as int,
                    ));
                }
            },
            None => {
                let mut buffer = MetricBuffer::new(self.limit);
                buffer.push(metrics);
                let mut hostname = Vec::new();
                crate::network::append_bytes(&mut hostname, key);
                self.storage.push(MetricBufferEntry { hostname, buffer });
                proof {
                    assert(self.storage.deep_view() =~~= MetricBufferMap::push_map_spec(
                        entries,
                        key@,
                        metrics@,
                        self.limit as int,
                    ));
                }
            },
        }
        proof {
            lemma_push_map_wf(entries, key@, metrics@, self.limit as int);
        }
    }
}

/// When the first `i` entries miss the key and entry `i` hits it, the
/// key's index is `i`.
proof fn lemma_key_index_at(entries: Seq<MetricBufferEntryV>, key: Seq<u8>, i: int)
    requires
        0 <= i < entries.len(),
        entries[i].hostname == key,
        forall|x: int| 0 <= x < i ==> entries[x].hostname != key,
    ensures
        key_index(entries, key) == i,
    decreases i,
{
    if i > 0 {
        let t = entries.drop_first();
        assert(forall|x: int| 0 <= x < i - 1 ==> t[x] == entries[x + 1]);
        lemma_key_index_at(t, key, i - 1);
    }
}

/// When no entry holds the key, its index is -1.
proof fn lemma_key_index_none(entries: Seq<MetricBufferEntryV>, key: Seq<u8>)
    requires
        forall|x: int| 0 <= x < entries.len() ==> entries[x].hostname != key,
    ensures
        key_index(entries, key) < 0,
    decreases entries.len(),
{
    if entries.len() > 0 {
        let t = entries.drop_first();
        assert(forall|x: int| 0 <= x < t.len() ==> t[x] == entries[x + 1]);
        lemma_key_index_none(t, key);
    }
}

/// A nonnegative key index points at an entry holding the key.
proof fn lemma_key_index_found(entries: Seq<MetricBufferEntryV>, key: Seq<u8>)
    requires
        key_index(entries, key) >= 0,
    ensures
        key_index(entries, key) < entries.len(),
        entries[key_index(entries, key)].hostname == key,
    decreases entries.len(),
{
    if entries.len() > 0 && entries[0].hostname != key {
        lemma_key_index_found(entries.drop_first(), key);
    }
}

/// One map push preserves distinct keys and buffer well-formedness.
proof fn lemma_push_map_wf(
    entries: Seq<MetricBufferEntryV>,
    key: Seq<u8>,
    m: NodeMetricsV,
    limit: int,
)
    requires
        limit >= 1,
        forall|i: int, j: int|
            0 <= i < j < entries.len() ==> entries[i].hostname != entries[j].hostname,
        forall|i: int|
            0 <= i < entries.len() ==> (#[trigger] entries[i]).buffer.wf() && entries[i].buffer.limit
                == limit,
    ensures
        ({
            let out = MetricBufferMap::push_map_spec(entries, key, m, limit);
            &&& forall|i: int, j: int|
                0 <= i < j < out.len() ==> out[i].hostname != out[j].hostname
            &&& forall|i: int|
                0 <= i < out.len() ==> (#[trigger] out[i]).buffer.wf() && out[i].buffer.limit
                    == limit
        }),
{
    let idx = key_index(entries, key);
    if idx >= 0 {
        lemma_key_index_found(entries, key);
    } else {
        lemma_key_index_missing(entries, key);
    }
}

/// A negative key index means no entry holds the key.
proof fn lemma_key_index_missing(entries: Seq<MetricBufferEntryV>, key: Seq<u8>)
    requires
        key_index(entries, key) < 0,
    ensures
        forall|x: int| 0 <= x < entries.len() ==> (#[trigger] entries[x]).hostname != key,
    decreases entries.len(),
{
    if entries.len() > 0 {
        assert(entries[0].hostname != key);
        lemma_key_index_missing(entries.drop_first(), key);
        assert(forall|x: int|
            1 <= x < entries.len() ==> (#[trigger] entries[x]).hostname == entries.drop_first()[x
                - 1].hostname);
    }
}

} // verus!
