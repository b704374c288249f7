//! Per-node sample types and the two aggregations over them: the
//! rollup mean of consecutive samples from one node, and the cluster
//! sample combining the latest sample of every node.

use vstd::prelude::*;

verus! {

use crate::{cap_u64, lit_bytes};
use crate::cpu::CpuMetrics;
use crate::disk::DiskMetrics;
use crate::la::LaMetrics;
use crate::metrics::Metrics;
use crate::network::NetMetrics;
use crate::ram::RamMetrics;
use crate::space::SpaceMetrics;

/// Rarely changing identity of one node.
pub struct NodeSpecs {
    pub index: u8,
    pub hostname: Vec<u8>,
    pub cpus: u16,
    pub ip: Vec<u8>,
}

/// The mathematical value of a `NodeSpecs`.
#[verifier::ext_equal]
pub ghost struct NodeSpecsV {
    pub index: u8,
    pub hostname: Seq<u8>,
    pub cpus: u16,
    pub ip: Seq<u8>,
}

impl View for NodeSpecs {
    type V = NodeSpecsV;

    open spec fn view(&self) -> NodeSpecsV {
        NodeSpecsV {
            index: self.index,
            hostname: self.hostname@,
            cpus: self.cpus,
            ip: self.ip@,
        }
    }
}

impl DeepView for NodeSpecs {
    type V = NodeSpecsV;

    open spec fn deep_view(&self) -> NodeSpecsV {
        self.view()
    }
}

impl NodeSpecs {
    pub fn new(index: u8, hostname: Vec<u8>, cpus: u16, ip: Vec<u8>) -> (r: NodeSpecs)
        ensures
            r@ == (NodeSpecsV { index, hostname: hostname@, cpus, ip: ip@ }),
    {
        NodeSpecs { index, hostname, cpus, ip }
    }

    pub fn hostname(&self) -> (r: &Vec<u8>)
        ensures
            r@ == self@.hostname,
    {
        &self.hostname
    }

    pub fn get_cpus(&self) -> (r: u16)
        ensures
            r == self@.cpus,
    {
        self.cpus
    }

    pub fn update_cpus(&mut self, cpus: u16)
        ensures
            final(self)@ == (NodeSpecsV { cpus, ..old(self)@ }),
    {
        self.cpus = cpus;
    }

    pub fn duplicate(&self) -> (r: NodeSpecs)
        ensures
            r@ == self@,
    {
        NodeSpecs {
            index: self.index,
            hostname: self.hostname.clone(),
            cpus: self.cpus,
            ip: self.ip.clone(),
        }
    }
}

/// One node's sample at one instant.
pub struct NodeMetrics {
    pub hostname: Vec<u8>,
    pub online: bool,
    pub uptime_seconds: u64,
    pub cpu: CpuMetrics,
    pub disk: DiskMetrics,
    pub la: LaMetrics,
    pub net: NetMetrics,
    pub ram: RamMetrics,
    pub space: SpaceMetrics,
}

/// The mathematical value of a `NodeMetrics`.
#[verifier::ext_equal]
pub ghost struct NodeMetricsV {
    pub hostname: Seq<u8>,
    pub online: bool,
    pub uptime_seconds: u64,
    pub cpu: CpuMetrics,
    pub disk: DiskMetrics,
    pub la: LaMetrics,
    pub net: NetMetrics,
    pub ram: RamMetrics,
    pub space: SpaceMetrics,
}

impl View for NodeMetrics {
    type V = NodeMetricsV;

    open spec fn view(&self) -> NodeMetricsV {
        NodeMetricsV {
            hostname: self.hostname@,
            online: self.online,
            uptime_seconds: self.uptime_seconds,
            cpu: self.cpu,
            disk: self.disk,
            la: self.la,
            net: self.net,
            ram: self.ram,
            space: self.space,
        }
    }
}

impl DeepView for NodeMetrics {
    type V = NodeMetricsV;

    open spec fn deep_view(&self) -> NodeMetricsV {
        self.view()
    }
}

/// The numeric fields of a sample under one numbering, so sums and
/// means can be stated uniformly: 0 uptime; 1-8 the cpu percentages;
/// 9-10 disk write/read; 11 the load; 12-13 net up/down; 14-17 ram
/// total/used/buffers/cached; 18-19 space total/used.
pub open spec fn metric_field(m: NodeMetricsV, k: int) -> u64 {
    if k == 0 {
        m.uptime_seconds
    } else if k == 1 {
        m.cpu.cpu_usage
    } else if k == 2 {
        m.cpu.user
    } else if k == 3 {
        m.cpu.nice
    } else if k == 4 {
        m.cpu.system
    } else if k == 5 {
        m.cpu.idle
    } else if k == 6 {
        m.cpu.iowait
    } else if k == 7 {
        m.cpu.irq
    } else if k == 8 {
        m.cpu.softirq
    } else if k == 9 {
        m.disk.write_throughput
    } else if k == 10 {
        m.disk.read_throughput
    } else if k == 11 {
        m.la.load_average
    } else if k == 12 {
        m.net.up_bandwidth
    } else if k == 13 {
        m.net.down_bandwidth
    } else if k == 14 {
        m.ram.mem_total
    } else if k == 15 {
        m.ram.mem_used
    } else if k == 16 {
        m.ram.mem_buffers
    } else if k == 17 {
        m.ram.mem_cached
    } else if k == 18 {
        m.space.total
    } else if k == 19 {
        m.space.used
    } else {
        0
    }
}

/// The sum of numeric field `k` over a sequence of samples.
pub open spec fn sum_field(s: Seq<NodeMetricsV>, k: int) -> int
    decreases s.len(),
{
    if s.len() == 0 {
        0
    } else {
        sum_field(s.drop_last(), k) + metric_field(s.last(), k)
    }
}

/// A sample built back from the twenty numeric fields plus identity.
pub open spec fn sample_of_fields(
    hostname: Seq<u8>,
    online: bool,
    f: spec_fn(int) -> u64,
) -> NodeMetricsV {
    NodeMetricsV {
        hostname,
        online,
        uptime_seconds: f(0),
        cpu: CpuMetrics {
            cpu_usage: f(1),
            user: f(2),
            nice: f(3),
            system: f(4),
            idle: f(5),
            iowait: f(6),
            irq: f(7),
            softirq: f(8),
        },
        disk: DiskMetrics { write_throughput: f(9), read_throughput: f(10) },
        la: LaMetrics { load_average: f(11) },
        net: NetMetrics { up_bandwidth: f(12), down_bandwidth: f(13) },
        ram: RamMetrics {
            mem_total: f(14),
            mem_used: f(15),
            mem_buffers: f(16),
            mem_cached: f(17),
        },
        space: SpaceMetrics { total: f(18), used: f(19) },
    }
}

/// A sample with the record of one metric family replaced.
pub open spec fn set_spec(v: NodeMetricsV, metrics: Metrics) -> NodeMetricsV {
    match metrics {
        Metrics::Cpu(m) => NodeMetricsV { cpu: m, ..v },
        Metrics::Disk(m) => NodeMetricsV { disk: m, ..v },
        Metrics::La(m) => NodeMetricsV { la: m, ..v },
        Metrics::Net(m) => NodeMetricsV { net: m, ..v },
        Metrics::Ram(m) => NodeMetricsV { ram: m, ..v },
        Metrics::Space(m) => NodeMetricsV { space: m, ..v },
    }
}

impl NodeMetrics {
    /// An all-zero offline sample carrying only a hostname.
    pub open spec fn offline_spec(hostname: Seq<u8>) -> NodeMetricsV {
        sample_of_fields(hostname, false, |k: int| 0u64)
    }

    /// The rollup mean: identity from the most recent sample, every
    /// numeric field the floored mean. An empty list gives the
    /// offline sample with an empty hostname.
    pub open spec fn avg_spec(ms: Seq<NodeMetricsV>) -> NodeMetricsV {
        if ms.len() == 0 {
            NodeMetrics::offline_spec(Seq::empty())
        } else {
            sample_of_fields(
                ms.last().hostname,
                ms.last().online,
                |k: int| (sum_field(ms, k) / ms.len() as int) as u64,
            )
        }
    }

    /// The cluster sample: named `Cluster`, offline flag clear, cpu
    /// percentages and uptime the floored mean over the nodes, every
    /// other numeric field (cluster-wide ram, throughput, load and
    /// space) the capped sum.
    pub open spec fn cluster_spec(ns: Seq<NodeMetricsV>) -> NodeMetricsV {
        sample_of_fields(
            lit_bytes("Cluster"@),
            false,
            |k: int|
                if 0 <= k <= 8 {
                    if ns.len() == 0 {
                        0u64
                    } else {
                        (sum_field(ns, k) / ns.len() as int) as u64
                    }
                } else {
                    cap_u64(sum_field(ns, k))
                },
        )
    }

    pub fn offline(hostname: Vec<u8>) -> (r: NodeMetrics)
        ensures
            r@ == NodeMetrics::offline_spec(hostname@),
    {
        let r = NodeMetrics {
            hostname,
            online: false,
            uptime_seconds: 0,
            cpu: CpuMetrics::zero(),
            disk: DiskMetrics::zero(),
            la: LaMetrics::zero(),
            net: NetMetrics::zero(),
            ram: RamMetrics::zero(),
            space: SpaceMetrics::zero(),
        };
        r
    }

    pub fn hostname(&self) -> (r: &Vec<u8>)
        ensures
            r@ == self@.hostname,
    {
        &self.hostname
    }

    pub fn duplicate(&self) -> (r: NodeMetrics)
        ensures
            r@ == self@,
    {
        NodeMetrics {
            hostname: self.hostname.clone(),
            online: self.online,
            uptime_seconds: self.uptime_seconds,
            cpu: self.cpu,
            disk: self.disk,
            la: self.la,
            net: self.net,
            ram: self.ram,
            space: self.space,
        }
    }

    /// Replaces the record of one metric family.
    pub fn set(&mut self, metrics: Metrics)
        ensures
            final(self)@ == set_spec(old(self)@, metrics),
    {
        match metrics {
            Metrics::Cpu(m) => self.cpu = m,
            Metrics::Disk(m) => self.disk = m,
            Metrics::La(m) => self.la = m,
            Metrics::Net(m) => self.net = m,
            Metrics::Ram(m) => self.ram = m,
            Metrics::Space(m) => self.space = m,
        }
    }

    /// The rollup mean of consecutive samples; see `avg_spec`.
    pub fn aggregate_avg(measurements: Vec<NodeMetrics>) -> (r: NodeMetrics)
        ensures
            r@ == NodeMetrics::avg_spec(measurements.deep_view()),
    {
        let ghost ms = measurements.deep_view();
        if measurements.len() == 0 {
            let r = NodeMetrics::offline(Vec::new());
            proof {
                assert(r@ == NodeMetrics::avg_spec(ms));
            }
            return r;
        }
        let n = measurements.len();
        let sums = field_sums(&measurements);
        let mut means: Vec<u64> = Vec::new();
        let mut k: usize = 0;
        while k < 20
            invariant
                k <= 20,
                n == ms.len(),
                n > 0,
                sums@.len() == 20,
                forall|j: int| 0 <= j < 20 ==> sums@[j] == sum_field(ms, j),
                means@.len() == k,
                forall|j: int|
                    0 <= j < k ==> means@[j] == (sum_field(ms, j) / ms.len() as int) as u64,
            decreases 20 - k,
        {
            proof {
                lemma_sum_field_bound(ms, k as int);
            }
            means.push(div_mean(sums[k], n));
            k = k + 1;
        }
        let last = &measurements[n - 1];
        proof {
            assert(ms.last() == last@);
        }
        let r = NodeMetrics {
            hostname: last.hostname.clone(),
            online: last.online,
            uptime_seconds: means[0],
            cpu: CpuMetrics {
                cpu_usage: means[1],
                user: means[2],
                nice: means[3],
                system: means[4],
                idle: means[5],
                iowait: means[6],
                irq: means[7],
                softirq: means[8],
            },
            disk: DiskMetrics { write_throughput: means[9], read_throughput: means[10] },
            la: LaMetrics { load_average: means[11] },
            net: NetMetrics { up_bandwidth: means[12], down_bandwidth: means[13] },
            ram: RamMetrics {
                mem_total: means[14],
                mem_used: means[15],
                mem_buffers: means[16],
                mem_cached: means[17],
            },
            space: SpaceMetrics { total: means[18], used: means[19] },
        };
        r
    }

    /// The cluster sample over the nodes' latest samples; see
    /// `cluster_spec`.
    pub fn aggregate(nodes: Vec<NodeMetrics>) -> (r: NodeMetrics)
        ensures
            r@ == NodeMetrics::cluster_spec(nodes.deep_view()),
    {
        let ghost ns = nodes.deep_view();
        let n = nodes.len();
        let sums = field_sums(&nodes);
        let mut vals: Vec<u64> = Vec::new();
        let mut k: usize = 0;
        while k < 20
            invariant
                k <= 20,
                n == ns.len(),
                sums@.len() == 20,
                forall|j: int| 0 <= j < 20 ==> sums@[j] == sum_field(ns, j),
                vals@.len() == k,
                forall|j: int|
                    0 <= j < k ==> vals@[j] == (if 0 <= j <= 8 {
                        if ns.len() == 0 {
                            0u64
                        } else {
                            (sum_field(ns, j) / ns.len() as int) as u64
                        }
                    } else {
                        cap_u64(sum_field(ns, j))
                    }),
            decreases 20 - k,
        {
            proof {
                lemma_sum_field_bound(ns, k as int);
            }
            let v: u64 = if k <= 8 {
                if n == 0 {
                    0
                } else {
                    div_mean(sums[k], n)
                }
            } else {
                let s = sums[k];
                if s > u64::MAX as u128 {
                    u64::MAX
                } else {
                    s as u64
                }
            };
            vals.push(v);
            k = k + 1;
        }
        proof {
            reveal_strlit("Cluster");
        }
        let hostname = crate::ascii_to_bytes("Cluster");
        let r = NodeMetrics {
            hostname,
            online: false,
            uptime_seconds: vals[0],
            cpu: CpuMetrics {
                cpu_usage: vals[1],
                user: vals[2],
                nice: vals[3],
                system: vals[4],
                idle: vals[5],
                iowait: vals[6],
                irq: vals[7],
                softirq: vals[8],
            },
            disk: DiskMetrics { write_throughput: vals[9], read_throughput: vals[10] },
            la: LaMetrics { load_average: vals[11] },
            net: NetMetrics { up_bandwidth: vals[12], down_bandwidth: vals[13] },
            ram: RamMetrics {
                mem_total: vals[14],
                mem_used: vals[15],
                mem_buffers: vals[16],
                mem_cached: vals[17],
            },
            space: SpaceMetrics { total: vals[18], used: vals[19] },
        };
        r
    }
}

/// The cluster sample's cpu percentages and uptime are exactly the
/// floored arithmetic mean over the participating nodes.
pub proof fn lemma_cluster_cpu_is_mean(ns: Seq<NodeMetricsV>)
    requires
        ns.len() > 0,
    ensures
        NodeMetrics::cluster_spec(ns).uptime_seconds == (sum_field(ns, 0) / ns.len() as int) as u64,
        NodeMetrics::cluster_spec(ns).cpu == (CpuMetrics {
            cpu_usage: (sum_field(ns, 1) / ns.len() as int) as u64,
            user: (sum_field(ns, 2) / ns.len() as int) as u64,
            nice: (sum_field(ns, 3) / ns.len() as int) as u64,
            system: (sum_field(ns, 4) / ns.len() as int) as u64,
            idle: (sum_field(ns, 5) / ns.len() as int) as u64,
            iowait: (sum_field(ns, 6) / ns.len() as int) as u64,
            irq: (sum_field(ns, 7) / ns.len() as int) as u64,
            softirq: (sum_field(ns, 8) / ns.len() as int) as u64,
        }),
{
}

/// A field sum over `n` samples never exceeds `n` times the field cap.
proof fn lemma_sum_field_bound(s: Seq<NodeMetricsV>, k: int)
    ensures
        0 <= sum_field(s, k) <= s.len() * u64::MAX,
    decreases s.len(),
{
    if s.len() == 0 {
    } else {
        lemma_sum_field_bound(s.drop_last(), k);
        assert((s.len() - 1) * u64::MAX + u64::MAX == s.len() * u64::MAX) by (nonlinear_arith);
    }
}

/// The floored mean of a sum of `n` u64 values fits in u64.
fn div_mean(sum: u128, n: usize) -> (r: u64)
    requires
        n > 0,
        sum <= n * u64::MAX,
    ensures
        r == (sum as int / n as int) as u64,
{
    proof {
        assert(sum as int / n as int <= u64::MAX) by (nonlinear_arith)
            requires
                n > 0 && sum <= n * (u64::MAX as int),
        ;
        assert(sum as int / n as int >= 0) by (nonlinear_arith)
            requires
                n > 0 && sum >= 0,
        ;
    }
    (sum / n as u128) as u64
}

/// The twenty field sums over a list of samples, as wide integers.
fn field_sums(v: &Vec<NodeMetrics>) -> (r: Vec<u128>)
    ensures
        r@.len() == 20,
        forall|k: int| 0 <= k < 20 ==> r@[k] == sum_field(v.deep_view(), k),
{
    let ghost ms = v.deep_view();
    let mut r: Vec<u128> = Vec::new();
    let mut k: usize = 0;
    while k < 20
        invariant
            k <= 20,
            ms == v.deep_view(),
            r@.len() == k,
            forall|j: int| 0 <= j < k ==> r@[j] == sum_field(ms, j),
        decreases 20 - k,
    {
        let mut acc: u128 = 0;
        let mut i: usize = 0;
        proof {
            assert(ms.take(0) =~= Seq::<NodeMetricsV>::empty());
        }
        while i < v.len()
            invariant
                i <= v.len(),
                k < 20,
                ms == v.deep_view(),
                acc == sum_field(ms.take(i as int), k as int),
                acc <= i * u64::MAX,
            decreases v.len() - i,
        {
            proof {
                lemma_sum_field_bound(ms.take(i as int), k as int);
                assert(ms.take(i + 1).drop_last() =~= ms.take(i as int));
                assert(ms.take(i + 1).last() == ms[i as int]);
                assert(i * u64::MAX + u64::MAX == (i + 1) * u64::MAX) by (nonlinear_arith);
                assert(i * u64::MAX <= v@.len() * u64::MAX) by (nonlinear_arith)
                    requires
                        0 <= i <= v@.len(),
                ;
            }
            let f = metric_field_of(&v[i], k);
            acc = acc + f as u128;
            i = i + 1;
        }
        proof {
            assert(ms.take(v@.len() as int) =~= ms);
        }
        r.push(acc);
        k = k + 1;
    }
    r
}

/// Field `k` of one sample under the shared numbering.
fn metric_field_of(m: &NodeMetrics, k: usize) -> (r: u64)
    ensures
        r == metric_field(m@, k as int),
{
    if k == 0 {
        m.uptime_seconds
    } else if k == 1 {
        m.cpu.cpu_usage
    } else if k == 2 {
        m.cpu.user
    } else if k == 3 {
        m.cpu.nice
    } else if k == 4 {
        m.cpu.system
    } else if k == 5 {
        m.cpu.idle
    } else if k == 6 {
        m.cpu.iowait
    } else if k == 7 {
        m.cpu.irq
    } else if k == 8 {
        m.cpu.softirq
    } else if k == 9 {
        m.disk.write_throughput
    } else if k == 10 {
        m.disk.read_throughput
    } else if k == 11 {
        m.la.load_average
    } else if k == 12 {
        m.net.up_bandwidth
    } else if k == 13 {
        m.net.down_bandwidth
    } else if k == 14 {
        m.ram.mem_total
    } else if k == 15 {
        m.ram.mem_used
    } else if k == 16 {
        m.ram.mem_buffers
    } else if k == 17 {
        m.ram.mem_cached
    } else if k == 18 {
        m.space.total
    } else if k == 19 {
        m.space.used
    } else {
        0
    }
}

/// One node as sent to clients: identity plus the current sample.
pub struct Node {
    pub specs: NodeSpecs,
    pub metrics: NodeMetrics,
}

/// The mathematical value of a `Node`.
#[verifier::ext_equal]
pub ghost struct NodeV {
    pub specs: NodeSpecsV,
    pub metrics: NodeMetricsV,
}

impl View for Node {
    type V = NodeV;

    open spec fn view(&self) -> NodeV {
        NodeV { specs: self.specs@, metrics: self.metrics@ }
    }
}

impl DeepView for Node {
    type V = NodeV;

    open spec fn deep_view(&self) -> NodeV {
        self.view()
    }
}

impl Node {
    pub fn new(specs: NodeSpecs, metrics: NodeMetrics) -> (r: Node)
        ensures
            r@ == (NodeV { specs: specs@, metrics: metrics@ }),
    {
        Node { specs, metrics }
    }
}

} // verus!
