//! Interface byte counters from `/sys/class/net/<iface>/statistics`
//! and the bandwidth derived from consecutive readings: byte deltas
//! over elapsed time. Timestamps are milliseconds since the epoch and
//! must not move backwards between readings.

use vstd::prelude::*;

verus! {

use crate::{abs_diff, abs_diff_u64, cap_u64, lit_bytes};
use crate::text::{Sep, parse_u64, parse_u64_spec, tokenize, tokens};

/// One sample's network bandwidth, in bytes per second.
#[derive(Clone, Copy, Debug, PartialEq, Eq, Structural)]
pub struct NetMetrics {
    pub up_bandwidth: u64,
    pub down_bandwidth: u64,
}

impl NetMetrics {
    pub open spec fn zero_spec() -> NetMetrics {
        NetMetrics { up_bandwidth: 0, down_bandwidth: 0 }
    }

    pub open spec fn divide_spec(self, divisor: int) -> NetMetrics
        recommends
            divisor > 0,
    {
        NetMetrics {
            up_bandwidth: (self.up_bandwidth as int / divisor) as u64,
            down_bandwidth: (self.down_bandwidth as int / divisor) as u64,
        }
    }

    pub fn zero() -> (r: NetMetrics)
        ensures
            r == NetMetrics::zero_spec(),
    {
        NetMetrics { up_bandwidth: 0, down_bandwidth: 0 }
    }

    /// Each rate divided by `divisor`, rounding down.
    pub fn divide(self, divisor: u64) -> (r: NetMetrics)
        requires
            divisor > 0,
        ensures
            r == self.divide_spec(divisor as int),
    {
        NetMetrics {
            up_bandwidth: self.up_bandwidth / divisor,
            down_bandwidth: self.down_bandwidth / divisor,
        }
    }
}

/// Bytes moved over elapsed milliseconds as bytes per second:
/// `bytes * 1000 / dt_ms`, capped into u64; 0 when no time has passed.
pub open spec fn byte_rate(bytes: u64, dt_ms: u64) -> u64 {
    if dt_ms == 0 {
        0 as u64
    } else {
        cap_u64(bytes * 1000 / dt_ms as int)
    }
}

/// Computes `byte_rate` with a wide intermediate.
pub fn byte_rate_of(bytes: u64, dt_ms: u64) -> (r: u64)
    ensures
        r == byte_rate(bytes, dt_ms),
{
    if dt_ms == 0 {
        0
    } else {
        let wide: u128 = (bytes as u128) * 1000 / (dt_ms as u128);
        if wide > u64::MAX as u128 {
            u64::MAX
        } else {
            wide as u64
        }
    }
}

/// One reading of an interface's receive and transmit counters, with
/// the reading's timestamp in milliseconds since the epoch.
#[derive(Clone, Copy, Debug, PartialEq, Eq, Structural)]
pub struct NetworkStats {
    pub rx_bytes: u64,
    pub tx_bytes: u64,
    pub current_time: u64,
}

impl NetworkStats {
    pub open spec fn zero_spec() -> NetworkStats {
        NetworkStats { rx_bytes: 0, tx_bytes: 0, current_time: 0 }
    }

    /// The first line is the receive counter, the second the transmit
    /// counter.
    pub open spec fn from_spec(raw: Seq<u8>, time_ms: u64) -> NetworkStats {
        let t = tokens(Sep::Newline, raw);
        NetworkStats {
            rx_bytes: if t.len() > 0 {
                parse_u64_spec(t[0])
            } else {
                0
            },
            tx_bytes: if t.len() > 1 {
                parse_u64_spec(t[1])
            } else {
                0
            },
            current_time: time_ms,
        }
    }

    pub fn new(rx_bytes: u64, tx_bytes: u64, current_time: u64) -> (r: NetworkStats)
        ensures
            r == (NetworkStats { rx_bytes, tx_bytes, current_time }),
    {
        NetworkStats { rx_bytes, tx_bytes, current_time }
    }

    /// Reads the two counter lines; missing or malformed lines read
    /// as 0. `time_ms` stamps the reading.
    pub fn from_string(raw_data: &[u8], time_ms: u64) -> (r: NetworkStats)
        ensures
            r == NetworkStats::from_spec(raw_data@, time_ms),
    {
        let toks = tokenize(Sep::Newline, raw_data);
        let rx: u64 = if toks.len() > 0 {
            proof {
                assert(toks.deep_view()[0] == toks@[0]@);
            }
            parse_u64(toks[0].as_slice())
        } else {
            0
        };
        let tx: u64 = if toks.len() > 1 {
            proof {
                assert(toks.deep_view()[1] == toks@[1]@);
            }
            parse_u64(toks[1].as_slice())
        } else {
            0
        };
        NetworkStats { rx_bytes: rx, tx_bytes: tx, current_time: time_ms }
    }

    pub fn rx_bytes(&self) -> (r: u64)
        ensures
            r == self.rx_bytes,
    {
        self.rx_bytes
    }

    pub fn tx_bytes(&self) -> (r: u64)
        ensures
            r == self.tx_bytes,
    {
        self.tx_bytes
    }

    /// The reading's timestamp, in milliseconds since the epoch.
    pub fn current_time(&self) -> (r: u64)
        ensures
            r == self.current_time,
    {
        self.current_time
    }
}

/// Rolling network state: the previous reading and the rates derived
/// from the latest difference.
#[derive(Clone, Copy, Debug, PartialEq, Eq, Structural)]
pub struct Network {
    pub previous_network_stats: NetworkStats,
    pub down_bandwidth: u64,
    pub up_bandwidth: u64,
}

impl Network {
    pub open spec fn new_spec() -> Network {
        Network {
            previous_network_stats: NetworkStats::zero_spec(),
            down_bandwidth: 0,
            up_bandwidth: 0,
        }
    }

    /// The state after absorbing a new reading.
    pub open spec fn push_spec(self, stats: NetworkStats) -> Network {
        let dt = (stats.current_time - self.previous_network_stats.current_time) as u64;
        Network {
            previous_network_stats: stats,
            down_bandwidth: byte_rate(
                abs_diff(stats.rx_bytes, self.previous_network_stats.rx_bytes),
                dt,
            ),
            up_bandwidth: byte_rate(
                abs_diff(stats.tx_bytes, self.previous_network_stats.tx_bytes),
                dt,
            ),
        }
    }

    pub fn new() -> (r: Network)
        ensures
            r == Network::new_spec(),
    {
        Network {
            previous_network_stats: NetworkStats::new(0, 0, 0),
            down_bandwidth: 0,
            up_bandwidth: 0,
        }
    }

    /// Absorbs a new reading; time must not move backwards.
    pub fn push(&mut self, network_stats: NetworkStats)
        requires
            network_stats.current_time >= old(self).previous_network_stats.current_time,
        ensures
            *final(self) == old(self).push_spec(network_stats),
    {
        let dt = network_stats.current_time - self.previous_network_stats.current_time;
        self.down_bandwidth = byte_rate_of(
            abs_diff_u64(network_stats.rx_bytes, self.previous_network_stats.rx_bytes),
            dt,
        );
        self.up_bandwidth = byte_rate_of(
            abs_diff_u64(network_stats.tx_bytes, self.previous_network_stats.tx_bytes),
            dt,
        );
        self.previous_network_stats = network_stats;
    }

    pub fn down_bandwidth(&self) -> (r: u64)
        ensures
            r == self.down_bandwidth,
    {
        self.down_bandwidth
    }

    pub fn up_bandwidth(&self) -> (r: u64)
        ensures
            r == self.up_bandwidth,
    {
        self.up_bandwidth
    }
}

/// Rolling network state for one interface; keeps the probe command.
pub struct NetworkMetricPlugin {
    pub network: Network,
    pub command: Vec<u8>,
}

impl NetworkMetricPlugin {
    /// The command reading both counter files of one interface.
    pub open spec fn command_spec(interface: Seq<u8>) -> Seq<u8> {
        lit_bytes("cat /sys/class/net/"@) + interface + lit_bytes(
            "/statistics/rx_bytes /sys/class/net/"@,
        ) + interface + lit_bytes("/statistics/tx_bytes"@)
    }

    pub fn new(interface: &[u8]) -> (r: NetworkMetricPlugin)
        ensures
            r.network == Network::new_spec(),
            r.command@ == NetworkMetricPlugin::command_spec(interface@),
    {
        proof {
            reveal_strlit("cat /sys/class/net/");
            reveal_strlit("/statistics/rx_bytes /sys/class/net/");
            reveal_strlit("/statistics/tx_bytes");
        }
        let mut command = crate::ascii_to_bytes("cat /sys/class/net/");
        append_bytes(&mut command, interface);
        let mid = crate::ascii_to_bytes("/statistics/rx_bytes /sys/class/net/");
        append_bytes(&mut command, mid.as_slice());
        append_bytes(&mut command, interface);
        let tail = crate::ascii_to_bytes("/statistics/tx_bytes");
        append_bytes(&mut command, tail.as_slice());
        proof {
            assert(command@ =~= NetworkMetricPlugin::command_spec(interface@));
        }
        NetworkMetricPlugin { network: Network::new(), command }
    }
}

/// Appends a byte string to a growing command.
pub fn append_bytes(dst: &mut Vec<u8>, src: &[u8])
    ensures
        final(dst)@ == old(dst)@ + src@,
{
    let mut i: usize = 0;
    proof {
        assert(dst@ + src@.take(0) =~= dst@);
    }
    while i < src.len()
        invariant
            i <= src.len(),
            dst@ == old(dst)@ + src@.take(i as int),
        decreases src.len() - i,
    {
        dst.push(src[i]);
        i = i + 1;
        proof {
            assert(old(dst)@ + src@.take(i as int) =~= (old(dst)@ + src@.take(i - 1)).push(
                src@[i - 1],
            ));
        }
    }
    proof {
        assert(src@.take(src@.len() as int) =~= src@);
    }
}

} // verus!
