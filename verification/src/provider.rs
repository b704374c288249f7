//! The metric provider: one merged shell command per poll across all
//! plugins, and the dispatch of the response fragments back to them.
//! The shell that runs the command lives outside the library; success
//! and failure both come back here as plain values.

use vstd::prelude::*;

verus! {

use crate::lit_bytes;
use crate::metrics::{MetricPlugin, Metrics, Plugin};
use crate::node::{NodeMetrics, NodeMetricsV, set_spec};
use crate::text::{split_delim, split_parts};

/// The glue between two probe commands: emits the fragment delimiter
/// between their outputs. None of the probed files can contain it.
pub open spec fn query_glue() -> Seq<u8> {
    lit_bytes(" && printf '######' && "@)
}

/// The fragment delimiter in the merged response.
pub open spec fn fragment_delim() -> Seq<u8> {
    lit_bytes("######"@)
}

/// The plugins' probe commands joined with the glue, in order.
pub open spec fn merged_query_spec(ps: Seq<Plugin>) -> Seq<u8>
    decreases ps.len(),
{
    if ps.len() == 0 {
        Seq::empty()
    } else if ps.len() == 1 {
        ps[0].query_spec()
    } else {
        merged_query_spec(ps.drop_last()) + query_glue() + ps.last().query_spec()
    }
}

/// The sample after each fragment is fed to its plugin, in order; a
/// short fragment list leaves the remaining families at their zeros.
pub open spec fn outputs_spec(
    m: NodeMetricsV,
    ps: Seq<Plugin>,
    frags: Seq<Seq<u8>>,
    now_ms: u64,
) -> NodeMetricsV
    decreases ps.len(),
{
    if ps.len() == 0 || frags.len() == 0 {
        m
    } else {
        outputs_spec(
            set_spec(m, ps[0].output_spec(frags[0], now_ms)),
            ps.drop_first(),
            frags.drop_first(),
            now_ms,
        )
    }
}

/// The plugins after each of them absorbed its fragment, in order.
pub open spec fn plugins_after_spec(ps: Seq<Plugin>, frags: Seq<Seq<u8>>, now_ms: u64) -> Seq<
    Plugin,
>
    decreases ps.len(),
{
    if ps.len() == 0 || frags.len() == 0 {
        ps
    } else {
        seq![ps[0].next_spec(frags[0], now_ms)] + plugins_after_spec(
            ps.drop_first(),
            frags.drop_first(),
            now_ms,
        )
    }
}

/// An online sample carrying identity data, before any family is set.
pub open spec fn online_base(hostname: Seq<u8>, uptime_seconds: u64) -> NodeMetricsV {
    NodeMetricsV { online: true, uptime_seconds, ..NodeMetrics::offline_spec(hostname) }
}

/// An offline sample carrying identity data.
pub open spec fn offline_base(hostname: Seq<u8>, uptime_seconds: u64) -> NodeMetricsV {
    NodeMetricsV { uptime_seconds, ..NodeMetrics::offline_spec(hostname) }
}

/// The fragments still unconsumed after the first `i` are dispatched.
pub open spec fn frags_from(frags: Seq<Seq<u8>>, i: int) -> Seq<Seq<u8>> {
    if 0 <= i <= frags.len() {
        frags.skip(i)
    } else {
        Seq::empty()
    }
}

/// The ordered plugins of one node's poll cycle.
pub struct MetricProvider {
    pub metric_plugins: Vec<Plugin>,
}

impl MetricProvider {
    /// Whether every plugin may absorb a reading stamped `now_ms`.
    pub open spec fn ready_at(&self, now_ms: u64) -> bool {
        forall|i: int|
            0 <= i < self.metric_plugins@.len() ==> (#[trigger] self.metric_plugins@[i]).ready_at(
                now_ms,
            )
    }

    pub fn new(metric_providers: Vec<Plugin>) -> (r: MetricProvider)
        ensures
            r.metric_plugins == metric_providers,
    {
        MetricProvider { metric_plugins: metric_providers }
    }

    /// The one shell command of a poll: every plugin's probe, joined
    /// so the response splits back into fragments.
    pub fn merged_query(&self) -> (q: Vec<u8>)
        ensures
            q@ == merged_query_spec(self.metric_plugins@),
    {
        let ghost ps = self.metric_plugins@;
        let mut q: Vec<u8> = Vec::new();
        let mut i: usize = 0;
        while i < self.metric_plugins.len()
            invariant
                i <= ps.len(),
                ps == self.metric_plugins@,
                q@ == merged_query_spec(ps.take(i as int)),
            decreases ps.len() - i,
        {
            proof {
                assert(ps.take(i + 1).drop_last() =~= ps.take(i as int));
                assert(ps.take(i + 1).last() == ps[i as int]);
                assert(ps.take(i + 1)[0] == ps[0]);
            }
            if i > 0 {
                proof {
                    reveal_strlit(" && printf '######' && ");
                }
                let glue = crate::ascii_to_bytes(" && printf '######' && ");
                crate::network::append_bytes(&mut q, glue.as_slice());
            }
            let piece = self.metric_plugins[i].get_query();
            crate::network::append_bytes(&mut q, piece.as_slice());
            i = i + 1;
        }
        proof {
            assert(ps.take(ps.len() as int) =~= ps);
        }
        q
    }

    /// Splits a successful response into fragments, feeds each plugin
    /// its fragment in order, and assembles the online sample.
    pub fn process_raw_data(
        &mut self,
        raw_data: &[u8],
        now_ms: u64,
        hostname: &[u8],
        uptime_seconds: u64,
    ) -> (r: NodeMetrics)
        requires
            old(self).ready_at(now_ms),
        ensures
            ({
                let frags = split_parts(raw_data@, fragment_delim());
                &&& final(self).metric_plugins@ == plugins_after_spec(
                    old(self).metric_plugins@,
                    frags,
                    now_ms,
                )
                &&& r@ == outputs_spec(
                    online_base(hostname@, uptime_seconds),
                    old(self).metric_plugins@,
                    frags,
                    now_ms,
                )
            }),
    {
        proof {
            reveal_strlit("######");
        }
        let delim = crate::ascii_to_bytes("######");
        let fragments = split_delim(raw_data, delim.as_slice());
        let ghost frags = fragments.deep_view();

        let mut hostname_copy: Vec<u8> = Vec::new();
        crate::network::append_bytes(&mut hostname_copy, hostname);
        let mut aggregate = NodeMetrics::offline(hostname_copy);
        aggregate.online = true;
        aggregate.uptime_seconds = uptime_seconds;
        proof {
            assert(aggregate@ =~~= online_base(hostname@, uptime_seconds));
        }

        let ghost ps0 = self.metric_plugins@;
        let total = self.metric_plugins.len();
        let mut done: Vec<Plugin> = Vec::new();
        let mut i: usize = 0;
        proof {
            assert(ps0.skip(0) =~= ps0);
            assert(frags.skip(0) =~~= frags);
            assert(done@ + ps0 =~= ps0);
        }
        while self.metric_plugins.len() > 0
            invariant
                i <= ps0.len(),
                ps0.len() == total,
                frags == fragments.deep_view(),
                self.metric_plugins@.len() == ps0.len() - i,
                self.metric_plugins@ =~= ps0.skip(i as int),
                i <= frags.len() ==> outputs_spec(
                    online_base(hostname@, uptime_seconds),
                    ps0,
                    frags,
                    now_ms,
                ) == outputs_spec(
                    aggregate@,
                    ps0.skip(i as int),
                    frags_from(frags, i as int),
                    now_ms,
                ),
                i > frags.len() ==> outputs_spec(
                    online_base(hostname@, uptime_seconds),
                    ps0,
                    frags,
                    now_ms,
                ) == aggregate@,
                plugins_after_spec(ps0, frags, now_ms) =~= done@ + plugins_after_spec(
                    ps0.skip(i as int),
                    frags_from(frags, i as int),
                    now_ms,
                ),
                aggregate@.hostname == hostname@,
                forall|x: int|
                    0 <= x < self.metric_plugins@.len()
                        ==> (#[trigger] self.metric_plugins@[x]).ready_at(now_ms),
            decreases ps0.len() - i,
        {
            let ghost rem_ps = ps0.skip(i as int);
            let ghost rem_fr = frags_from(frags, i as int);
            let mut p = self.metric_plugins.remove(0);
            proof {
                assert(self.metric_plugins@ =~= rem_ps.drop_first());
                assert(self.metric_plugins@ =~= ps0.skip(i + 1));
                assert(rem_ps[0] == ps0[i as int]);
            }
            if i < fragments.len() {
                proof {
                    assert(rem_fr[0] == frags[i as int]);
                    assert(rem_fr.drop_first() =~~= frags_from(frags, i + 1));
                    assert(frags[i as int] == fragments@[i as int]@);
                }
                let m = p.process_data(fragments[i].as_slice(), now_ms);
                aggregate.set(m);
            } else {
                proof {
                    assert(rem_fr.len() == 0);
                    assert(frags_from(frags, i + 1).len() == 0);
                }
            }
            let ghost done0 = done@;
            done.push(p);
            proof {
                assert(done@ =~= done0.push(p));
                if i < frags.len() {
                    assert(done@ + plugins_after_spec(
                        ps0.skip(i + 1),
                        frags_from(frags, i + 1),
                        now_ms,
                    ) =~= done0 + (seq![rem_ps[0].next_spec(rem_fr[0], now_ms)]
                        + plugins_after_spec(rem_ps.drop_first(), rem_fr.drop_first(), now_ms)));
                } else {
                    assert(plugins_after_spec(rem_ps, rem_fr, now_ms) == rem_ps);
                    assert(plugins_after_spec(ps0.skip(i + 1), frags_from(frags, i + 1), now_ms)
                        =~= ps0.skip(i + 1));
                    assert(done@ + ps0.skip(i + 1) =~= done0 + rem_ps);
                }
            }
            i = i + 1;
        }
        proof {
            assert(ps0.skip(ps0.len() as int).len() == 0);
            assert(plugins_after_spec(
                ps0.skip(ps0.len() as int),
                frags_from(frags, ps0.len() as int),
                now_ms,
            ) =~= Seq::<Plugin>::empty());
            assert(done@ + Seq::<Plugin>::empty() =~= done@);
            if ps0.len() <= frags.len() {
                assert(outputs_spec(
                    aggregate@,
                    ps0.skip(ps0.len() as int),
                    frags_from(frags, ps0.len() as int),
                    now_ms,
                ) == aggregate@);
            }
        }
        self.metric_plugins = done;
        aggregate
    }

    /// The offline sample a failed poll yields: zero metrics under the
    /// node's identity.
    pub fn build_empty_metrics(&self, hostname: &[u8], uptime_seconds: u64) -> (r: NodeMetrics)
        ensures
            r@ == offline_base(hostname@, uptime_seconds),
    {
        let mut hostname_copy: Vec<u8> = Vec::new();
        crate::network::append_bytes(&mut hostname_copy, hostname);
        let mut r = NodeMetrics::offline(hostname_copy);
        r.uptime_seconds = uptime_seconds;
        proof {
            assert(r@ =~~= offline_base(hostname@, uptime_seconds));
        }
        r
    }
}

} // verus!
