//! The counter parsers on real probe output, including the tolerant
//! paths on empty input.

use clustermon::cpu::{CpuMetrics, CpuMetricPlugin, CpuTimes};
use clustermon::disk::DiskMetricPlugin;
use clustermon::la::LoadAverageMetricPlugin;
use clustermon::metrics::{MetricPlugin, Metrics};
use clustermon::network::NetworkMetricPlugin;
use clustermon::ram::{RamMetricPlugin, RamMetrics};
use clustermon::space::{SpaceMetricPlugin, SpaceMetrics};

const MEMINFO: &str = "
MemTotal:       16256332 kB
MemFree:         6890464 kB
MemAvailable:   11132000 kB
Buffers:          536332 kB
Cached:          3729760 kB
SwapCached:            0 kB
Active:          5845680 kB
Inactive:        2676952 kB
Active(anon):    4258740 kB
Inactive(anon):    71668 kB
Active(file):    1586940 kB
Inactive(file):  2605284 kB
Unevictable:         668 kB
Mlocked:             668 kB
SwapTotal:      16598524 kB
SwapFree:       16598524 kB
Dirty:              2900 kB
Writeback:             0 kB
AnonPages:       4241168 kB
Mapped:           802548 kB
Shmem:             73864 kB
Slab:             560172 kB
SReclaimable:     391760 kB
SUnreclaim:       168412 kB
KernelStack:       17232 kB
PageTables:        67836 kB
NFS_Unstable:          0 kB
Bounce:                0 kB
WritebackTmp:          0 kB
CommitLimit:    24726688 kB
Committed_AS:   12589700 kB
VmallocTotal:   34359738367 kB
VmallocUsed:           0 kB
VmallocChunk:          0 kB
HardwareCorrupted:     0 kB
AnonHugePages:   2174976 kB
CmaTotal:              0 kB
CmaFree:               0 kB
HugePages_Total:       0
HugePages_Free:        0
HugePages_Rsvd:        0
HugePages_Surp:        0
Hugepagesize:       2048 kB
DirectMap4k:      401680 kB
DirectMap2M:     9908224 kB
DirectMap1G:     7340032 kB
        ";

fn assert_ram_parse(raw: &str, mem_total: u64, mem_used: u64, mem_buffers: u64, mem_cached: u64) {
    let mut metric_plugin = RamMetricPlugin::new();
    let metrics = metric_plugin.process_data(raw.as_bytes(), 0);
    let expected = Metrics::Ram(RamMetrics {
        mem_total,
        mem_used,
        mem_buffers,
        mem_cached,
    });
    assert_eq!(expected, metrics);
}

#[test]
fn ram_test_process_data() {
    let mem_total: u64 = 16256332 * 1024;
    let mem_free: u64 = 6890464 * 1024;
    let mem_buffers: u64 = 536332 * 1024;
    let mem_cached: u64 = (3729760 + 391760 - 73864) * 1024;
    let mem_used: u64 = mem_total - mem_free - mem_buffers - mem_cached;
    assert_ram_parse(MEMINFO, mem_total, mem_used, mem_buffers, mem_cached);
    assert_ram_parse("", 0, 0, 0, 0);
}

fn assert_space_parse(raw: &str, total: u64, used: u64) {
    let mut metric_plugin = SpaceMetricPlugin::new(b"sda1");
    let metrics = metric_plugin.process_data(raw.as_bytes(), 0);
    let expected = Metrics::Space(SpaceMetrics { total, used });
    assert_eq!(expected, metrics);
}

#[test]
fn space_test_process_data() {
    let raw_data = "Filesystem     1K-blocks      Used Available Use% Mounted on
/dev/sda1      475788360 389354068  62242600  87% /";
    let total = 475788360;
    let used = 475788360 - 62242600;
    assert_space_parse(raw_data, total, used);
    assert_space_parse("", 0, 0);
}

fn assert_disk_parse(raw_1: &str, raw_2: &str, read_throughput: u64, write_throughput: u64) {
    let mut metric_plugin = DiskMetricPlugin::new(b"sda");
    metric_plugin.process_data(raw_1.as_bytes(), 1531416624000);
    let metrics = metric_plugin.process_data(raw_2.as_bytes(), 1531416625000);
    match metrics {
        Metrics::Disk(d) => {
            assert_eq!(d.read_throughput, read_throughput);
            assert_eq!(d.write_throughput, write_throughput);
        }
        other => panic!("wrong metric family: {:?}", other),
    }
}

#[test]
fn disk_test_process_data() {
    let raw_data_1 = "  255586     4852  7024174   115692    31086    50639  3211504   132760        0    48784   248760";
    let raw_data_2 = "  255600     4852  7027286   115700    31108    50799  3213280   132824        0    48852   248832";
    let read_throughput = (7027286 - 7024174) * 512;
    let write_throughput = (3213280 - 3211504) * 512;
    assert_disk_parse(raw_data_1, raw_data_2, read_throughput, write_throughput);
    assert_disk_parse("", "", 0, 0);
}

fn assert_network_parse(raw_1: &str, raw_2: &str, down_bandwidth: u64, up_bandwidth: u64) {
    let mut metric_plugin = NetworkMetricPlugin::new(b"eth0");
    metric_plugin.process_data(raw_1.as_bytes(), 1531416624000);
    let metrics = metric_plugin.process_data(raw_2.as_bytes(), 1531416625000);
    match metrics {
        Metrics::Net(n) => {
            assert_eq!(n.down_bandwidth, down_bandwidth);
            assert_eq!(n.up_bandwidth, up_bandwidth);
        }
        other => panic!("wrong metric family: {:?}", other),
    }
}

#[test]
fn network_test_process_data() {
    let raw_data_1 = "33597756273\n11137558032";
    let raw_data_2 = "33597768357\n11137566224";
    let down_bandwidth = 33597768357 - 33597756273;
    let up_bandwidth = 11137566224 - 11137558032;
    assert_network_parse(raw_data_1, raw_data_2, down_bandwidth, up_bandwidth);
    assert_network_parse("", "", 0, 0);
}

fn assert_la_parse(raw: &str, load_average_hundredths: u64) {
    let mut metric_plugin = LoadAverageMetricPlugin::new();
    let metrics = metric_plugin.process_data(raw.as_bytes(), 0);
    match metrics {
        Metrics::La(la) => assert_eq!(la.load_average, load_average_hundredths),
        other => panic!("wrong metric family: {:?}", other),
    }
}

#[test]
fn la_parses_first_field_in_hundredths() {
    assert_la_parse("3.17 2.23 1.68 3/942 17454", 317);
    assert_la_parse("0.07 0.07 0.09 1/996 25491", 7);
    assert_la_parse("53.99 24.51 14.20 51/9958 41299", 5399);
    assert_la_parse("", 0);
}

fn assert_cpu_parse(raw_1: &str, raw_2: &str, expected: CpuMetrics) {
    let mut metric_plugin = CpuMetricPlugin::new();
    metric_plugin.process_data(raw_1.as_bytes(), 0);
    let metrics = metric_plugin.process_data(raw_2.as_bytes(), 0);
    assert_eq!(metrics, Metrics::Cpu(expected));
}

#[test]
fn cpu_percentages_in_e4_units() {
    // deltas: user 10035, nice 3, system 639, idle 75767, iowait 23,
    // irq 0, softirq 2; total 86469; shares in 10^-4 percent
    assert_cpu_parse(
        "cpu  350732 1048 57727 6753933 12435 0 859 0 0 0",
        "cpu  360767 1051 58366 6829700 12458 0 861 0 0 0",
        CpuMetrics {
            cpu_usage: 123500,
            user: 116053,
            nice: 34,
            system: 7389,
            idle: 876233,
            iowait: 265,
            irq: 0,
            softirq: 23,
        },
    );
    assert_cpu_parse(
        "",
        "",
        CpuMetrics {
            cpu_usage: 0,
            user: 0,
            nice: 0,
            system: 0,
            idle: 0,
            iowait: 0,
            irq: 0,
            softirq: 0,
        },
    );
}

#[test]
fn cpu_bucket_percentages_sum_to_the_whole() {
    // the seven buckets lose less than one 10^-4 percent unit each
    let sum = 116053u64 + 34 + 7389 + 876233 + 265 + 0 + 23;
    assert!(sum <= 1000000);
    assert!(sum > 1000000 - 7);
    // and work complements idle and iowait
    let rest = 1000000u64 - 876233 - 265;
    assert!(123500 <= rest && 123500 > rest - 3);
}

#[test]
fn cpu_identical_samples_read_zero() {
    let line = "cpu  350732 1048 57727 6753933 12435 0 859 0 0 0";
    let mut metric_plugin = CpuMetricPlugin::new();
    metric_plugin.process_data(line.as_bytes(), 0);
    let metrics = metric_plugin.process_data(line.as_bytes(), 0);
    let zero = CpuMetrics {
        cpu_usage: 0,
        user: 0,
        nice: 0,
        system: 0,
        idle: 0,
        iowait: 0,
        irq: 0,
        softirq: 0,
    };
    assert_eq!(metrics, Metrics::Cpu(zero));
}

#[test]
fn cpu_times_reads_ten_counters() {
    let t = CpuTimes::from_string(b"cpu  1 2 3 4 5 6 7 8 9 10");
    assert_eq!(t, CpuTimes::new(1, 2, 3, 4, 5, 6, 7, 8, 9, 10));
    assert_eq!(t.total(), 1 + 2 + 3 + 6 + 7 + 8 + 4 + 5);
    assert_eq!(t.work(), 1 + 2 + 3 + 6 + 7 + 8);
    let zero = CpuTimes::from_string(b"");
    assert_eq!(zero, CpuTimes::new(0, 0, 0, 0, 0, 0, 0, 0, 0, 0));
}

#[test]
fn uptime_and_cpu_count_parse() {
    assert_eq!(clustermon::ssh::parse_uptime_seconds(b"201206.31 1588322.60"), 201206);
    assert_eq!(clustermon::ssh::parse_uptime_seconds(b""), 0);
    assert_eq!(clustermon::ssh::parse_cpu_count(b"8\n"), 8);
    assert_eq!(clustermon::ssh::parse_cpu_count(b"nope"), 0);
    assert_eq!(clustermon::ssh::parse_cpu_count(b"300"), 0);
}
