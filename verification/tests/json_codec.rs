//! The wire codec on concrete values: exact encodings, full round
//! trips, and a cross-check that the frames are real JSON.

use clustermon::cpu::CpuMetrics;
use clustermon::disk::DiskMetrics;
use clustermon::json::{
    decode_command, decode_node, decode_node_metrics, decode_node_specs, encode_command,
    encode_message, encode_node, encode_node_metrics, encode_node_specs,
};
use clustermon::la::LaMetrics;
use clustermon::network::NetMetrics;
use clustermon::node::{Node, NodeMetrics, NodeSpecs};
use clustermon::ram::RamMetrics;
use clustermon::server::{MessageData, OutboundMessage, Receiver, Timeframe};
use clustermon::space::SpaceMetrics;

fn sample_metrics() -> NodeMetrics {
    NodeMetrics {
        hostname: b"host1".to_vec(),
        online: true,
        uptime_seconds: 201206,
        cpu: CpuMetrics {
            cpu_usage: 123500,
            user: 116053,
            nice: 34,
            system: 7389,
            idle: 876233,
            iowait: 265,
            irq: 0,
            softirq: 23,
        },
        disk: DiskMetrics { write_throughput: 909312, read_throughput: 1593344 },
        la: LaMetrics { load_average: 317 },
        net: NetMetrics { up_bandwidth: 8192, down_bandwidth: 12084 },
        ram: RamMetrics {
            mem_total: 16646483968,
            mem_used: 4896645120,
            mem_buffers: 549203968,
            mem_cached: 4144799744,
        },
        space: SpaceMetrics { total: 475788360, used: 413545760 },
    }
}

fn sample_node() -> Node {
    Node {
        specs: NodeSpecs {
            index: 1,
            hostname: b"host1".to_vec(),
            cpus: 8,
            ip: b"10.0.0.1".to_vec(),
        },
        metrics: sample_metrics(),
    }
}

#[test]
fn node_specs_json_round_trip() {
    let specs = NodeSpecs {
        index: 3,
        hostname: b"db.example".to_vec(),
        cpus: 16,
        ip: b"192.168.0.7".to_vec(),
    };
    let encoded = encode_node_specs(&specs);
    assert_eq!(
        encoded,
        b"{\"index\":3,\"hostname\":\"db.example\",\"cpus\":16,\"ip\":\"192.168.0.7\"}".to_vec()
    );
    let back = decode_node_specs(&encoded).expect("round trip failed");
    assert_eq!(back.index, specs.index);
    assert_eq!(back.hostname, specs.hostname);
    assert_eq!(back.cpus, specs.cpus);
    assert_eq!(back.ip, specs.ip);
}

#[test]
fn node_metrics_json_round_trip() {
    let m = sample_metrics();
    let encoded = encode_node_metrics(&m);
    let back = decode_node_metrics(&encoded).expect("round trip failed");
    assert_eq!(back.hostname, m.hostname);
    assert_eq!(back.online, m.online);
    assert_eq!(back.uptime_seconds, m.uptime_seconds);
    assert_eq!(back.cpu, m.cpu);
    assert_eq!(back.disk, m.disk);
    assert_eq!(back.la, m.la);
    assert_eq!(back.net, m.net);
    assert_eq!(back.ram, m.ram);
    assert_eq!(back.space, m.space);
}

#[test]
fn node_json_round_trip() {
    let n = sample_node();
    let encoded = encode_node(&n);
    let back = decode_node(&encoded).expect("round trip failed");
    assert_eq!(back.specs.index, n.specs.index);
    assert_eq!(back.specs.hostname, n.specs.hostname);
    assert_eq!(back.specs.cpus, n.specs.cpus);
    assert_eq!(back.specs.ip, n.specs.ip);
    assert_eq!(back.metrics.hostname, n.metrics.hostname);
    assert_eq!(back.metrics.online, n.metrics.online);
    assert_eq!(back.metrics.uptime_seconds, n.metrics.uptime_seconds);
    assert_eq!(back.metrics.cpu, n.metrics.cpu);
    assert_eq!(back.metrics.space, n.metrics.space);
    // corrupting the frame is noticed
    let mut bad = encoded.clone();
    bad.pop();
    assert!(decode_node(&bad).is_none());
}

#[test]
fn command_json_round_trip() {
    for tf in [
        Timeframe::OverviewOneSecond,
        Timeframe::OverviewFiveSeconds,
        Timeframe::OverviewFifteenSeconds,
    ] {
        let encoded = encode_command(tf);
        assert_eq!(decode_command(&encoded), Some(tf));
    }
    assert_eq!(
        encode_command(Timeframe::OverviewOneSecond),
        b"{\"subscribe_to\":\"OverviewOneSecond\"}".to_vec()
    );
    assert_eq!(decode_command(b"{\"subscribe_to\":\"Nonsense\"}"), None);
    assert_eq!(decode_command(b""), None);
}

#[test]
fn message_frames_are_valid_json() {
    let msg = OutboundMessage {
        receiver: Receiver::SubscribersOf(Timeframe::OverviewOneSecond),
        data: MessageData::NodeMetrics(vec![sample_node()]),
    };
    let frame = encode_message(&msg);
    let text = String::from_utf8(frame).expect("frame is not UTF-8");
    let value: serde_json::Value = serde_json::from_str(&text).expect("frame is not JSON");
    assert_eq!(value["type"], serde_json::Value::String("NodeMetrics".to_string()));
    let data = value["data"].as_array().expect("data is not an array");
    assert_eq!(data.len(), 1);
    assert_eq!(data[0]["hostname"], serde_json::Value::String("host1".to_string()));
    assert_eq!(data[0]["cpus"], serde_json::Value::from(8u64));
    assert_eq!(data[0]["online"], serde_json::Value::from(true));
    assert_eq!(data[0]["cpu"]["cpu_usage"], serde_json::Value::from(123500u64));
    assert_eq!(data[0]["ram"]["mem_total"], serde_json::Value::from(16646483968u64));
    assert_eq!(data[0]["space"]["used"], serde_json::Value::from(413545760u64));
}

#[test]
fn cluster_frames_carry_their_tag() {
    let msg = OutboundMessage {
        receiver: Receiver::Only(9),
        data: MessageData::ClusterMetrics(vec![]),
    };
    let frame = encode_message(&msg);
    assert_eq!(frame, b"{\"type\":\"ClusterMetrics\",\"data\":[]}".to_vec());
}
