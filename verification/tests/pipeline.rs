//! The buffers, rollups, hub aggregation and WebSocket routing on
//! concrete runs.

use clustermon::buffer::{MetricBuffer, MetricBufferMap};
use clustermon::hub::MetricHub;
use clustermon::metrics::{MetricPlugin, Plugin, metric_plugin_factory};
use clustermon::node::{NodeMetrics, NodeSpecs};
use clustermon::provider::MetricProvider;
use clustermon::server::{MessageData, Receiver, Timeframe, WsServer};

fn sample(hostname: &str, load_average: u64) -> NodeMetrics {
    let mut m = NodeMetrics::offline(hostname.as_bytes().to_vec());
    m.online = true;
    m.la.load_average = load_average;
    m
}

#[test]
fn rollup_after_fifteen_pushes() {
    let mut buffer = MetricBuffer::new(120);
    for i in 1..=15u64 {
        buffer.push(sample("host1", i * 100));
    }
    let s1 = buffer.storage(Timeframe::OverviewOneSecond);
    assert_eq!(s1.len(), 15);
    let s5 = buffer.storage(Timeframe::OverviewFiveSeconds);
    assert_eq!(s5.len(), 3);
    let values: Vec<u64> = s5.iter().map(|m| m.la.load_average).collect();
    assert_eq!(values, vec![300, 800, 1300]);
    let s15 = buffer.storage(Timeframe::OverviewFifteenSeconds);
    assert_eq!(s15.len(), 1);
    assert_eq!(s15[0].la.load_average, 800);
}

#[test]
fn buffers_never_exceed_the_limit() {
    let mut buffer = MetricBuffer::new(120);
    for i in 0..700u64 {
        buffer.push(sample("host1", i));
    }
    assert_eq!(buffer.storage(Timeframe::OverviewOneSecond).len(), 120);
    assert_eq!(buffer.storage(Timeframe::OverviewFiveSeconds).len(), 120);
    assert_eq!(buffer.storage(Timeframe::OverviewFifteenSeconds).len(), 46);
    // oldest samples were dropped from the head
    let s1 = buffer.storage(Timeframe::OverviewOneSecond);
    assert_eq!(s1[0].la.load_average, 580);
    assert_eq!(s1[119].la.load_average, 699);
}

#[test]
fn lengths_track_the_tick_count() {
    let mut buffer = MetricBuffer::new(120);
    for i in 0..75u64 {
        buffer.push(sample("host1", i));
    }
    assert_eq!(buffer.storage(Timeframe::OverviewOneSecond).len(), 75);
    assert_eq!(buffer.storage(Timeframe::OverviewFiveSeconds).len(), 15);
    assert_eq!(buffer.storage(Timeframe::OverviewFifteenSeconds).len(), 5);
}

#[test]
fn buffer_map_keys_by_hostname() {
    let mut map = MetricBufferMap::new(120);
    map.push(b"a", sample("a", 1));
    map.push(b"b", sample("b", 2));
    map.push(b"a", sample("a", 3));
    let entries = map.storage();
    assert_eq!(entries.len(), 2);
    assert_eq!(entries[0].hostname, b"a".to_vec());
    assert_eq!(entries[0].buffer.storage_1s.len(), 2);
    assert_eq!(entries[1].hostname, b"b".to_vec());
    assert_eq!(entries[1].buffer.storage_1s.len(), 1);
}

#[test]
fn cluster_sample_averages_cpu_and_uptime_and_sums_the_rest() {
    let mut a = sample("a", 100);
    a.cpu.cpu_usage = 400000;
    a.cpu.idle = 600000;
    a.ram.mem_total = 1000;
    a.uptime_seconds = 50;
    let mut b = sample("b", 300);
    b.cpu.cpu_usage = 200000;
    b.cpu.idle = 800000;
    b.ram.mem_total = 3000;
    b.uptime_seconds = 70;
    let cluster = NodeMetrics::aggregate(vec![a, b]);
    assert_eq!(cluster.hostname, b"Cluster".to_vec());
    assert!(!cluster.online);
    // cpu percentages and uptime are the mean over the two nodes
    assert_eq!(cluster.cpu.cpu_usage, 300000);
    assert_eq!(cluster.cpu.idle, 700000);
    assert_eq!(cluster.uptime_seconds, 60);
    // cluster-wide ram and load are the sums
    assert_eq!(cluster.ram.mem_total, 4000);
    assert_eq!(cluster.la.load_average, 400);
}

#[test]
fn rollup_mean_keeps_identity_of_newest() {
    let mut a = sample("h", 100);
    a.uptime_seconds = 10;
    let mut b = sample("h", 200);
    b.uptime_seconds = 30;
    let avg = NodeMetrics::aggregate_avg(vec![a, b]);
    assert_eq!(avg.hostname, b"h".to_vec());
    assert!(avg.online);
    assert_eq!(avg.la.load_average, 150);
    assert_eq!(avg.uptime_seconds, 20);
}

#[test]
fn hub_tick_buffers_latest_and_heartbeats() {
    let mut hub = MetricHub::new();
    hub.handle_node_specs(NodeSpecs::new(1, b"a".to_vec(), 4, b"10.0.0.1".to_vec()));
    hub.handle_node_specs(NodeSpecs::new(2, b"b".to_vec(), 2, b"10.0.0.2".to_vec()));
    hub.handle_node_metrics(sample("a", 500));
    hub.aggregation_tick();

    // node a got its sample, node b an offline heartbeat
    let entries = hub.node_buffers.storage();
    assert_eq!(entries.len(), 2);
    assert_eq!(entries[0].hostname, b"a".to_vec());
    assert!(entries[0].buffer.storage_1s[0].online);
    assert_eq!(entries[0].buffer.storage_1s[0].la.load_average, 500);
    assert_eq!(entries[1].hostname, b"b".to_vec());
    assert!(!entries[1].buffer.storage_1s[0].online);
    assert_eq!(entries[1].buffer.storage_1s[0].hostname, b"b".to_vec());

    // the sample was consumed; cpus were summed into the cluster specs
    assert_eq!(hub.latest_metrics.len(), 0);
    assert_eq!(hub.cluster_specs.get_cpus(), 6);

    // the cluster buffer took one sample combining both nodes
    assert_eq!(hub.cluster_buffer.storage_1s.len(), 1);
    assert_eq!(hub.cluster_buffer.storage_1s[0].la.load_average, 500);
    assert_eq!(hub.cluster_buffer.storage_1s[0].hostname, b"Cluster".to_vec());
}

#[test]
fn backfill_carries_exact_buffer_contents() {
    let mut hub = MetricHub::new();
    hub.handle_node_specs(NodeSpecs::new(1, b"a".to_vec(), 4, b"10.0.0.1".to_vec()));
    for i in 1..=3u64 {
        hub.handle_node_metrics(sample("a", i * 10));
        hub.aggregation_tick();
    }
    let msgs = hub.handle_client_joined(77, Timeframe::OverviewOneSecond);
    // one message for node a, then one for the cluster
    assert_eq!(msgs.len(), 2);
    assert!(matches!(msgs[0].receiver, Receiver::Only(77)));
    match &msgs[0].data {
        MessageData::NodeMetrics(nodes) => {
            let loads: Vec<u64> = nodes.iter().map(|n| n.metrics.la.load_average).collect();
            assert_eq!(loads, vec![10, 20, 30]);
            assert_eq!(nodes[0].specs.hostname(), &b"a".to_vec());
        }
        other => panic!("wrong payload: {:?}", message_kind(other)),
    }
    assert!(matches!(msgs[1].receiver, Receiver::Only(77)));
    match &msgs[1].data {
        MessageData::ClusterMetrics(nodes) => {
            assert_eq!(nodes.len(), 3);
            let loads: Vec<u64> = nodes.iter().map(|n| n.metrics.la.load_average).collect();
            assert_eq!(loads, vec![10, 20, 30]);
        }
        other => panic!("wrong payload: {:?}", message_kind(other)),
    }
}

fn message_kind(data: &MessageData) -> &'static str {
    match data {
        MessageData::NodeMetrics(_) => "NodeMetrics",
        MessageData::ClusterMetrics(_) => "ClusterMetrics",
    }
}

#[test]
fn broadcast_sends_newest_samples_to_subscribers() {
    let mut hub = MetricHub::new();
    hub.handle_node_specs(NodeSpecs::new(1, b"a".to_vec(), 4, b"10.0.0.1".to_vec()));
    hub.handle_node_metrics(sample("a", 11));
    hub.aggregation_tick();
    hub.handle_node_metrics(sample("a", 22));
    hub.aggregation_tick();
    let msgs = hub.send_metrics(Timeframe::OverviewOneSecond);
    assert_eq!(msgs.len(), 2);
    assert!(matches!(
        msgs[0].receiver,
        Receiver::SubscribersOf(Timeframe::OverviewOneSecond)
    ));
    match &msgs[0].data {
        MessageData::NodeMetrics(nodes) => {
            assert_eq!(nodes.len(), 1);
            assert_eq!(nodes[0].metrics.la.load_average, 22);
        }
        other => panic!("wrong payload: {:?}", message_kind(other)),
    }
    // nothing has rolled up yet, so the five-second round is empty
    let empty = hub.send_metrics(Timeframe::OverviewFiveSeconds);
    assert_eq!(empty.len(), 0);
}

#[test]
fn server_routes_by_subscription() {
    let mut server = WsServer::new();
    let a = server.handle_connect();
    let b = server.handle_connect();
    assert_eq!(server.sessions.len(), 2);
    assert!(server.set_subscription(b, Timeframe::OverviewFiveSeconds));
    let mut unknown: u64 = 0;
    while unknown == a || unknown == b {
        unknown += 1;
    }
    assert!(!server.set_subscription(unknown, Timeframe::OverviewFiveSeconds));

    let everyone = server.route(Receiver::Everyone);
    assert_eq!(everyone, vec![a, b]);
    let five = server.route(Receiver::SubscribersOf(Timeframe::OverviewFiveSeconds));
    assert_eq!(five, vec![b]);
    let one = server.route(Receiver::SubscribersOf(Timeframe::OverviewOneSecond));
    assert_eq!(one, vec![a]);
    let only = server.route(Receiver::Only(a));
    assert_eq!(only, vec![a]);

    server.disconnect(a);
    assert_eq!(server.route(Receiver::Only(a)), Vec::<u64>::new());
    assert_eq!(server.route(Receiver::Everyone), vec![b]);
}

#[test]
fn provider_merges_queries_and_splits_fragments() {
    let plugins = metric_plugin_factory(b"sda", b"sda1", b"eth0");
    assert_eq!(plugins.len(), 6);
    let queries: Vec<Vec<u8>> = plugins.iter().map(|p| p.get_query()).collect();
    assert_eq!(queries[0], b"grep 'cpu '  /proc/stat".to_vec());
    assert_eq!(queries[1], b"cat /proc/meminfo".to_vec());
    assert_eq!(queries[2], b"cat /proc/loadavg".to_vec());
    assert_eq!(queries[3], b"cat /sys/block/sda/stat".to_vec());
    assert_eq!(
        queries[4],
        b"cat /sys/class/net/eth0/statistics/rx_bytes /sys/class/net/eth0/statistics/tx_bytes"
            .to_vec()
    );
    assert_eq!(queries[5], b"df /dev/sda1".to_vec());

    let mut provider = MetricProvider::new(plugins);
    let merged = provider.merged_query();
    let expected: Vec<u8> = queries
        .iter()
        .map(|q| String::from_utf8(q.clone()).unwrap())
        .collect::<Vec<String>>()
        .join(" && printf '######' && ")
        .into_bytes();
    assert_eq!(merged, expected);

    // a response with six fragments lands in the six families
    let response = "cpu  1 1 1 1 1 1 1 0 0 0######\
MemTotal: 100 kB\nMemFree: 40 kB######0.50 0.40 0.30 1/2 3######\
1 1 10 1 1 1 20 1 1 1 1######1000\n2000######\
Filesystem 1K-blocks Used Available Use% Mounted on\n/dev/sda1 500 300 200 40% /";
    let metrics = provider.process_raw_data(response.as_bytes(), 1000, b"host1", 42);
    assert!(metrics.online);
    assert_eq!(metrics.hostname, b"host1".to_vec());
    assert_eq!(metrics.uptime_seconds, 42);
    assert_eq!(metrics.ram.mem_total, 100 * 1024);
    assert_eq!(metrics.la.load_average, 50);
    assert_eq!(metrics.space.total, 500);
    assert_eq!(metrics.space.used, 300);

    // a failed poll yields the offline sample under the same identity
    let offline = provider.build_empty_metrics(b"host1", 42);
    assert!(!offline.online);
    assert_eq!(offline.hostname, b"host1".to_vec());
    assert_eq!(offline.la.load_average, 0);
}

#[test]
fn config_address_joins_ip_and_port() {
    let config = clustermon::config::Config {
        ip: b"0.0.0.0".to_vec(),
        port: 8080,
        authentication: clustermon::config::AuthMethod::SshAgent,
        servers: None,
    };
    assert_eq!(config.address(), b"0.0.0.0:8080".to_vec());
}
