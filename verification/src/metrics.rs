//! The closed set of metric plugins. Each plugin owns the rolling
//! state for one counter family, knows the shell probe that produces
//! its raw text, and turns one raw fragment plus a timestamp into a
//! typed metric record.

use vstd::prelude::*;

verus! {

use crate::cpu::{Cpu, CpuMetricPlugin, CpuMetrics, CpuTimes};
use crate::disk::{Disk, DiskMetricPlugin, DiskMetrics, DiskStats};
use crate::la::{LaMetrics, LoadAverageMetricPlugin, la_of};
use crate::lit_bytes;
use crate::network::{NetMetrics, Network, NetworkMetricPlugin, NetworkStats};
use crate::ram::{RamMetricPlugin, RamMetrics, ram_from_string, ram_of};
use crate::space::{SpaceMetricPlugin, SpaceMetrics, space_from_string, space_of};

/// One typed metric record, tagged by family.
#[derive(Clone, Copy, Debug, PartialEq, Eq, Structural)]
pub enum Metrics {
    Cpu(CpuMetrics),
    Disk(DiskMetrics),
    La(LaMetrics),
    Net(NetMetrics),
    Ram(RamMetrics),
    Space(SpaceMetrics),
}

/// A metric plugin: a probe command, a transition on raw probe output,
/// and a default record for offline samples.
pub trait MetricPlugin: Sized {
    /// The shell command whose output this plugin reads.
    spec fn query_spec(&self) -> Seq<u8>;

    /// Whether a reading stamped `time_ms` may be absorbed next.
    spec fn ready_at(&self, time_ms: u64) -> bool;

    /// The plugin state after absorbing raw text stamped `time_ms`.
    spec fn next_spec(self, raw: Seq<u8>, time_ms: u64) -> Self;

    /// The record produced by absorbing raw text stamped `time_ms`.
    spec fn output_spec(self, raw: Seq<u8>, time_ms: u64) -> Metrics;

    /// The default record for a sample that never reached the host.
    spec fn empty_spec(&self) -> Metrics;

    fn get_query(&self) -> (q: Vec<u8>)
        ensures
            q@ == self.query_spec(),
    ;

    fn process_data(&mut self, raw_data: &[u8], time_ms: u64) -> (m: Metrics)
        requires
            old(self).ready_at(time_ms),
        ensures
            *final(self) == old(self).next_spec(raw_data@, time_ms),
            m == old(self).output_spec(raw_data@, time_ms),
    ;

    fn empty_metrics(&self) -> (m: Metrics)
        ensures
            m == self.empty_spec(),
    ;
}

impl MetricPlugin for CpuMetricPlugin {
    open spec fn query_spec(&self) -> Seq<u8> {
        lit_bytes("grep 'cpu '  /proc/stat"@)
    }

    open spec fn ready_at(&self, time_ms: u64) -> bool {
        true
    }

    open spec fn next_spec(self, raw: Seq<u8>, time_ms: u64) -> Self {
        CpuMetricPlugin { cpu: self.cpu.push_spec(CpuTimes::from_spec(raw)) }
    }

    open spec fn output_spec(self, raw: Seq<u8>, time_ms: u64) -> Metrics {
        Metrics::Cpu(self.cpu.push_spec(CpuTimes::from_spec(raw)).percents)
    }

    open spec fn empty_spec(&self) -> Metrics {
        Metrics::Cpu(CpuMetrics::zero_spec())
    }

    fn get_query(&self) -> (q: Vec<u8>) {
        proof {
            reveal_strlit("grep 'cpu '  /proc/stat");
        }
        crate::ascii_to_bytes("grep 'cpu '  /proc/stat")
    }

    fn process_data(&mut self, raw_data: &[u8], time_ms: u64) -> (m: Metrics) {
        let cpu_times = CpuTimes::from_string(raw_data);
        self.cpu.push(cpu_times);
        Metrics::Cpu(
            CpuMetrics {
                cpu_usage: self.cpu.work_percent(),
                user: self.cpu.user_percent(),
                nice: self.cpu.nice_percent(),
                system: self.cpu.system_percent(),
                idle: self.cpu.idle_percent(),
                iowait: self.cpu.iowait_percent(),
                irq: self.cpu.irq_percent(),
                softirq: self.cpu.softirq_percent(),
            },
        )
    }

    fn empty_metrics(&self) -> (m: Metrics) {
        Metrics::Cpu(CpuMetrics::zero())
    }
}

impl MetricPlugin for RamMetricPlugin {
    open spec fn query_spec(&self) -> Seq<u8> {
        lit_bytes("cat /proc/meminfo"@)
    }

    open spec fn ready_at(&self, time_ms: u64) -> bool {
        true
    }

    open spec fn next_spec(self, raw: Seq<u8>, time_ms: u64) -> Self {
        self
    }

    open spec fn output_spec(self, raw: Seq<u8>, time_ms: u64) -> Metrics {
        Metrics::Ram(ram_of(raw))
    }

    open spec fn empty_spec(&self) -> Metrics {
        Metrics::Ram(RamMetrics::zero_spec())
    }

    fn get_query(&self) -> (q: Vec<u8>) {
        proof {
            reveal_strlit("cat /proc/meminfo");
        }
        crate::ascii_to_bytes("cat /proc/meminfo")
    }

    fn process_data(&mut self, raw_data: &[u8], time_ms: u64) -> (m: Metrics) {
        Metrics::Ram(ram_from_string(raw_data))
    }

    fn empty_metrics(&self) -> (m: Metrics) {
        Metrics::Ram(RamMetrics::zero())
    }
}

impl MetricPlugin for LoadAverageMetricPlugin {
    open spec fn query_spec(&self) -> Seq<u8> {
        lit_bytes("cat /proc/loadavg"@)
    }

    open spec fn ready_at(&self, time_ms: u64) -> bool {
        true
    }

    open spec fn next_spec(self, raw: Seq<u8>, time_ms: u64) -> Self {
        self
    }

    open spec fn output_spec(self, raw: Seq<u8>, time_ms: u64) -> Metrics {
        Metrics::La(la_of(raw))
    }

    open spec fn empty_spec(&self) -> Metrics {
        Metrics::La(LaMetrics::zero_spec())
    }

    fn get_query(&self) -> (q: Vec<u8>) {
        proof {
            reveal_strlit("cat /proc/loadavg");
        }
        crate::ascii_to_bytes("cat /proc/loadavg")
    }

    fn process_data(&mut self, raw_data: &[u8], time_ms: u64) -> (m: Metrics) {
        Metrics::La(crate::la::la_from_string(raw_data))
    }

    fn empty_metrics(&self) -> (m: Metrics) {
        Metrics::La(LaMetrics::zero())
    }
}

impl MetricPlugin for DiskMetricPlugin {
    open spec fn query_spec(&self) -> Seq<u8> {
        self.command@
    }

    open spec fn ready_at(&self, time_ms: u64) -> bool {
        time_ms >= self.disk.previous_disk_stats.current_time
    }

    open spec fn next_spec(self, raw: Seq<u8>, time_ms: u64) -> Self {
        DiskMetricPlugin {
            disk: self.disk.push_spec(DiskStats::from_spec(raw, time_ms)),
            command: self.command,
        }
    }

    open spec fn output_spec(self, raw: Seq<u8>, time_ms: u64) -> Metrics {
        let d = self.disk.push_spec(DiskStats::from_spec(raw, time_ms));
        Metrics::Disk(
            DiskMetrics { write_throughput: d.write_throughput, read_throughput: d.read_throughput },
        )
    }

    open spec fn empty_spec(&self) -> Metrics {
        Metrics::Disk(DiskMetrics::zero_spec())
    }

    fn get_query(&self) -> (q: Vec<u8>) {
        self.command.clone()
    }

    fn process_data(&mut self, raw_data: &[u8], time_ms: u64) -> (m: Metrics) {
        let disk_stats = DiskStats::from_string(raw_data, time_ms);
        self.disk.push(disk_stats);
        Metrics::Disk(
            DiskMetrics {
                write_throughput: self.disk.write_throughput(),
                read_throughput: self.disk.read_throughput(),
            },
        )
    }

    fn empty_metrics(&self) -> (m: Metrics) {
        Metrics::Disk(DiskMetrics::zero())
    }
}

impl MetricPlugin for NetworkMetricPlugin {
    open spec fn query_spec(&self) -> Seq<u8> {
        self.command@
    }

    open spec fn ready_at(&self, time_ms: u64) -> bool {
        time_ms >= self.network.previous_network_stats.current_time
    }

    open spec fn next_spec(self, raw: Seq<u8>, time_ms: u64) -> Self {
        NetworkMetricPlugin {
            network: self.network.push_spec(NetworkStats::from_spec(raw, time_ms)),
            command: self.command,
        }
    }

    open spec fn output_spec(self, raw: Seq<u8>, time_ms: u64) -> Metrics {
        let n = self.network.push_spec(NetworkStats::from_spec(raw, time_ms));
        Metrics::Net(NetMetrics { up_bandwidth: n.up_bandwidth, down_bandwidth: n.down_bandwidth })
    }

    open spec fn empty_spec(&self) -> Metrics {
        Metrics::Net(NetMetrics::zero_spec())
    }

    fn get_query(&self) -> (q: Vec<u8>) {
        self.command.clone()
    }

    fn process_data(&mut self, raw_data: &[u8], time_ms: u64) -> (m: Metrics) {
        let network_stats = NetworkStats::from_string(raw_data, time_ms);
        self.network.push(network_stats);
        Metrics::Net(
            NetMetrics {
                up_bandwidth: self.network.up_bandwidth(),
                down_bandwidth: self.network.down_bandwidth(),
            },
        )
    }

    fn empty_metrics(&self) -> (m: Metrics) {
        Metrics::Net(NetMetrics::zero())
    }
}

impl MetricPlugin for SpaceMetricPlugin {
    open spec fn query_spec(&self) -> Seq<u8> {
        self.command@
    }

    open spec fn ready_at(&self, time_ms: u64) -> bool {
        true
    }

    open spec fn next_spec(self, raw: Seq<u8>, time_ms: u64) -> Self {
        self
    }

    open spec fn output_spec(self, raw: Seq<u8>, time_ms: u64) -> Metrics {
        Metrics::Space(space_of(raw))
    }

    open spec fn empty_spec(&self) -> Metrics {
        Metrics::Space(SpaceMetrics::zero_spec())
    }

    fn get_query(&self) -> (q: Vec<u8>) {
        self.command.clone()
    }

    fn process_data(&mut self, raw_data: &[u8], time_ms: u64) -> (m: Metrics) {
        Metrics::Space(space_from_string(raw_data))
    }

    fn empty_metrics(&self) -> (m: Metrics) {
        Metrics::Space(SpaceMetrics::zero())
    }
}

/// One plugin of the closed set, ready to be kept in an ordered list.
pub enum Plugin {
    Cpu(CpuMetricPlugin),
    Ram(RamMetricPlugin),
    La(LoadAverageMetricPlugin),
    Disk(DiskMetricPlugin),
    Net(NetworkMetricPlugin),
    Space(SpaceMetricPlugin),
}

impl MetricPlugin for Plugin {
    open spec fn query_spec(&self) -> Seq<u8> {
        match self {
            Plugin::Cpu(p) => p.query_spec(),
            Plugin::Ram(p) => p.query_spec(),
            Plugin::La(p) => p.query_spec(),
            Plugin::Disk(p) => p.query_spec(),
            Plugin::Net(p) => p.query_spec(),
            Plugin::Space(p) => p.query_spec(),
        }
    }

    open spec fn ready_at(&self, time_ms: u64) -> bool {
        match self {
            Plugin::Cpu(p) => p.ready_at(time_ms),
            Plugin::Ram(p) => p.ready_at(time_ms),
            Plugin::La(p) => p.ready_at(time_ms),
            Plugin::Disk(p) => p.ready_at(time_ms),
            Plugin::Net(p) => p.ready_at(time_ms),
            Plugin::Space(p) => p.ready_at(time_ms),
        }
    }

    open spec fn next_spec(self, raw: Seq<u8>, time_ms: u64) -> Self {
        match self {
            Plugin::Cpu(p) => Plugin::Cpu(p.next_spec(raw, time_ms)),
            Plugin::Ram(p) => Plugin::Ram(p.next_spec(raw, time_ms)),
            Plugin::La(p) => Plugin::La(p.next_spec(raw, time_ms)),
            Plugin::Disk(p) => Plugin::Disk(p.next_spec(raw, time_ms)),
            Plugin::Net(p) => Plugin::Net(p.next_spec(raw, time_ms)),
            Plugin::Space(p) => Plugin::Space(p.next_spec(raw, time_ms)),
        }
    }

    open spec fn output_spec(self, raw: Seq<u8>, time_ms: u64) -> Metrics {
        match self {
            Plugin::Cpu(p) => p.output_spec(raw, time_ms),
            Plugin::Ram(p) => p.output_spec(raw, time_ms),
            Plugin::La(p) => p.output_spec(raw, time_ms),
            Plugin::Disk(p) => p.output_spec(raw, time_ms),
            Plugin::Net(p) => p.output_spec(raw, time_ms),
            Plugin::Space(p) => p.output_spec(raw, time_ms),
        }
    }

    open spec fn empty_spec(&self) -> Metrics {
        match self {
            Plugin::Cpu(p) => p.empty_spec(),
            Plugin::Ram(p) => p.empty_spec(),
            Plugin::La(p) => p.empty_spec(),
            Plugin::Disk(p) => p.empty_spec(),
            Plugin::Net(p) => p.empty_spec(),
            Plugin::Space(p) => p.empty_spec(),
        }
    }

    fn get_query(&self) -> (q: Vec<u8>) {
        match self {
            Plugin::Cpu(p) => p.get_query(),
            Plugin::Ram(p) => p.get_query(),
            Plugin::La(p) => p.get_query(),
            Plugin::Disk(p) => p.get_query(),
            Plugin::Net(p) => p.get_query(),
            Plugin::Space(p) => p.get_query(),
        }
    }

    fn process_data(&mut self, raw_data: &[u8], time_ms: u64) -> (m: Metrics) {
        match self {
            Plugin::Cpu(p) => p.process_data(raw_data, time_ms),
            Plugin::Ram(p) => p.process_data(raw_data, time_ms),
            Plugin::La(p) => p.process_data(raw_data, time_ms),
            Plugin::Disk(p) => p.process_data(raw_data, time_ms),
            Plugin::Net(p) => p.process_data(raw_data, time_ms),
            Plugin::Space(p) => p.process_data(raw_data, time_ms),
        }
    }

    fn empty_metrics(&self) -> (m: Metrics) {
        match self {
            Plugin::Cpu(p) => p.empty_metrics(),
            Plugin::Ram(p) => p.empty_metrics(),
            Plugin::La(p) => p.empty_metrics(),
            Plugin::Disk(p) => p.empty_metrics(),
            Plugin::Net(p) => p.empty_metrics(),
            Plugin::Space(p) => p.empty_metrics(),
        }
    }
}

/// Creates the six plugins in the order the merged probe command and
/// the response fragments follow: cpu, ram, load, disk, net, space.
pub fn metric_plugin_factory(disk: &[u8], filesystem: &[u8], network_interface: &[u8]) -> (r: Vec<
    Plugin,
>)
    ensures
        r@.len() == 6,
        r@[0] matches Plugin::Cpu(p) && p.cpu == Cpu::new_spec(),
        r@[1] matches Plugin::Ram(_),
        r@[2] matches Plugin::La(_),
        r@[3] matches Plugin::Disk(p) && p.disk == Disk::new_spec() && p.command@
            == DiskMetricPlugin::command_spec(disk@),
        r@[4] matches Plugin::Net(p) && p.network == Network::new_spec() && p.command@
            == NetworkMetricPlugin::command_spec(network_interface@),
        r@[5] matches Plugin::Space(p) && p.command@ == SpaceMetricPlugin::command_spec(
            filesystem@,
        ),
{
    let mut r: Vec<Plugin> = Vec::new();
    r.push(Plugin::Cpu(CpuMetricPlugin::new()));
    r.push(Plugin::Ram(RamMetricPlugin::new()));
    r.push(Plugin::La(LoadAverageMetricPlugin::new()));
    r.push(Plugin::Disk(DiskMetricPlugin::new(disk)));
    r.push(Plugin::Net(NetworkMetricPlugin::new(network_interface)));
    r.push(Plugin::Space(SpaceMetricPlugin::new(filesystem)));
    r
}

} // verus!
