//! Disk counters from `/sys/block/<device>/stat` and the throughput
//! derived from consecutive readings: sector deltas times the 512-byte
//! sector size over the elapsed time. Timestamps are milliseconds
//! since the epoch and must not move backwards between readings.

use vstd::prelude::*;

verus! {

use crate::{abs_diff, abs_diff_u64, cap_u64, lit_bytes};
use crate::text::{Sep, parse_u64, parse_u64_spec, tokenize, tokens};

/// One sample's disk throughput, in bytes per second.
#[derive(Clone, Copy, Debug, PartialEq, Eq, Structural)]
pub struct DiskMetrics {
    pub write_throughput: u64,
    pub read_throughput: u64,
}

impl DiskMetrics {
    pub open spec fn zero_spec() -> DiskMetrics {
        DiskMetrics { write_throughput: 0, read_throughput: 0 }
    }

    pub open spec fn divide_spec(self, divisor: int) -> DiskMetrics
        recommends
            divisor > 0,
    {
        DiskMetrics {
            write_throughput: (self.write_throughput as int / divisor) as u64,
            read_throughput: (self.read_throughput as int / divisor) as u64,
        }
    }

    pub fn zero() -> (r: DiskMetrics)
        ensures
            r == DiskMetrics::zero_spec(),
    {
        DiskMetrics { write_throughput: 0, read_throughput: 0 }
    }

    /// Each rate divided by `divisor`, rounding down.
    pub fn divide(self, divisor: u64) -> (r: DiskMetrics)
        requires
            divisor > 0,
        ensures
            r == self.divide_spec(divisor as int),
    {
        DiskMetrics {
            write_throughput: self.write_throughput / divisor,
            read_throughput: self.read_throughput / divisor,
        }
    }
}

/// Sector movement over elapsed milliseconds as bytes per second:
/// `sectors * 512 * 1000 / dt_ms`, capped into u64; 0 when no time
/// has passed.
pub open spec fn sector_rate(sectors: u64, dt_ms: u64) -> u64 {
    if dt_ms == 0 {
        0 as u64
    } else {
        cap_u64(sectors * 512 * 1000 / dt_ms as int)
    }
}

/// Computes `sector_rate` with a wide intermediate.
pub fn sector_rate_of(sectors: u64, dt_ms: u64) -> (r: u64)
    ensures
        r == sector_rate(sectors, dt_ms),
{
    if dt_ms == 0 {
        0
    } else {
        let wide: u128 = (sectors as u128) * 512 * 1000 / (dt_ms as u128);
        if wide > u64::MAX as u128 {
            u64::MAX
        } else {
            wide as u64
        }
    }
}

/// The eleven counters of a block device stat line, with the reading's
/// timestamp in milliseconds since the epoch.
#[derive(Clone, Copy, Debug, PartialEq, Eq, Structural)]
pub struct DiskStats {
    pub reads_completed_successfully: u64,
    pub reads_merged: u64,
    pub sectors_read: u64,
    pub time_spend_reading: u64,
    pub writes_completed: u64,
    pub writes_merged: u64,
    pub sectors_written: u64,
    pub time_spent_writing: u64,
    pub ios_currently_in_progress: u64,
    pub time_spent_doing_ios: u64,
    pub weighted_time_spent_doing_ios: u64,
    pub current_time: u64,
}

/// Token `i` of `raw` under whitespace splitting, as a tolerant u64.
pub open spec fn column_at(raw: Seq<u8>, i: int) -> u64 {
    let t = tokens(Sep::Whitespace, raw);
    if 0 <= i < t.len() {
        parse_u64_spec(t[i])
    } else {
        0
    }
}

impl DiskStats {
    pub open spec fn zero_spec() -> DiskStats {
        DiskStats {
            reads_completed_successfully: 0,
            reads_merged: 0,
            sectors_read: 0,
            time_spend_reading: 0,
            writes_completed: 0,
            writes_merged: 0,
            sectors_written: 0,
            time_spent_writing: 0,
            ios_currently_in_progress: 0,
            time_spent_doing_ios: 0,
            weighted_time_spent_doing_ios: 0,
            current_time: 0,
        }
    }

    pub open spec fn from_spec(raw: Seq<u8>, time_ms: u64) -> DiskStats {
        DiskStats {
            reads_completed_successfully: column_at(raw, 0),
            reads_merged: column_at(raw, 1),
            sectors_read: column_at(raw, 2),
            time_spend_reading: column_at(raw, 3),
            writes_completed: column_at(raw, 4),
            writes_merged: column_at(raw, 5),
            sectors_written: column_at(raw, 6),
            time_spent_writing: column_at(raw, 7),
            ios_currently_in_progress: column_at(raw, 8),
            time_spent_doing_ios: column_at(raw, 9),
            weighted_time_spent_doing_ios: column_at(raw, 10),
            current_time: time_ms,
        }
    }

    #[allow(clippy::too_many_arguments)]
    pub fn new(
        reads_completed_successfully: u64,
        reads_merged: u64,
        sectors_read: u64,
        time_spend_reading: u64,
        writes_completed: u64,
        writes_merged: u64,
        sectors_written: u64,
        time_spent_writing: u64,
        ios_currently_in_progress: u64,
        time_spent_doing_ios: u64,
        weighted_time_spent_doing_ios: u64,
        current_time: u64,
    ) -> (r: DiskStats)
        ensures
            r == (DiskStats {
                reads_completed_successfully,
                reads_merged,
                sectors_read,
                time_spend_reading,
                writes_completed,
                writes_merged,
                sectors_written,
                time_spent_writing,
                ios_currently_in_progress,
                time_spent_doing_ios,
                weighted_time_spent_doing_ios,
                current_time,
            }),
    {
        DiskStats {
            reads_completed_successfully,
            reads_merged,
            sectors_read,
            time_spend_reading,
            writes_completed,
            writes_merged,
            sectors_written,
            time_spent_writing,
            ios_currently_in_progress,
            time_spent_doing_ios,
            weighted_time_spent_doing_ios,
            current_time,
        }
    }

    /// Reads the eleven whitespace-separated counters; missing or
    /// malformed ones read as 0. `time_ms` stamps the reading.
    pub fn from_string(raw_data: &[u8], time_ms: u64) -> (r: DiskStats)
        ensures
            r == DiskStats::from_spec(raw_data@, time_ms),
    {
        let toks = tokenize(Sep::Whitespace, raw_data);
        let mut vals: [u64; 11] = [0, 0, 0, 0, 0, 0, 0, 0, 0, 0, 0];
        let mut i: usize = 0;
        while i < 11
            invariant
                i <= 11,
                toks.deep_view() == tokens(Sep::Whitespace, raw_data@),
                forall|j: int| 0 <= j < i ==> vals@[j] == column_at(raw_data@, j),
            decreases 11 - i,
        {
            let v: u64 = if i < toks.len() {
                proof {
                    assert(toks.deep_view()[i as int] == toks@[i as int]@);
                }
                parse_u64(toks[i].as_slice())
            } else {
                0
            };
            vals[i] = v;
            i = i + 1;
        }
        DiskStats {
            reads_completed_successfully: vals[0],
            reads_merged: vals[1],
            sectors_read: vals[2],
            time_spend_reading: vals[3],
            writes_completed: vals[4],
            writes_merged: vals[5],
            sectors_written: vals[6],
            time_spent_writing: vals[7],
            ios_currently_in_progress: vals[8],
            time_spent_doing_ios: vals[9],
            weighted_time_spent_doing_ios: vals[10],
            current_time: time_ms,
        }
    }

    pub fn sectors_read(&self) -> (r: u64)
        ensures
            r == self.sectors_read,
    {
        self.sectors_read
    }

    pub fn sectors_written(&self) -> (r: u64)
        ensures
            r == self.sectors_written,
    {
        self.sectors_written
    }

    /// The reading's timestamp, in milliseconds since the epoch.
    pub fn current_time(&self) -> (r: u64)
        ensures
            r == self.current_time,
    {
        self.current_time
    }
}

/// Rolling disk state: the previous reading and the rates derived from
/// the latest difference.
#[derive(Clone, Copy, Debug, PartialEq, Eq, Structural)]
pub struct Disk {
    pub previous_disk_stats: DiskStats,
    pub read_throughput: u64,
    pub write_throughput: u64,
}

impl Disk {
    pub open spec fn new_spec() -> Disk {
        Disk { previous_disk_stats: DiskStats::zero_spec(), read_throughput: 0, write_throughput: 0 }
    }

    /// The state after absorbing a new reading.
    pub open spec fn push_spec(self, stats: DiskStats) -> Disk {
        let dt = (stats.current_time - self.previous_disk_stats.current_time) as u64;
        Disk {
            previous_disk_stats: stats,
            read_throughput: sector_rate(
                abs_diff(stats.sectors_read, self.previous_disk_stats.sectors_read),
                dt,
            ),
            write_throughput: sector_rate(
                abs_diff(stats.sectors_written, self.previous_disk_stats.sectors_written),
                dt,
            ),
        }
    }

    pub fn new() -> (r: Disk)
        ensures
            r == Disk::new_spec(),
    {
        Disk {
            previous_disk_stats: DiskStats::new(0, 0, 0, 0, 0, 0, 0, 0, 0, 0, 0, 0),
            read_throughput: 0,
            write_throughput: 0,
        }
    }

    /// Absorbs a new reading; time must not move backwards.
    pub fn push(&mut self, disk_stats: DiskStats)
        requires
            disk_stats.current_time >= old(self).previous_disk_stats.current_time,
        ensures
            *final(self) == old(self).push_spec(disk_stats),
    {
        let dt = disk_stats.current_time - self.previous_disk_stats.current_time;
        self.read_throughput = sector_rate_of(
            abs_diff_u64(disk_stats.sectors_read, self.previous_disk_stats.sectors_read),
            dt,
        );
        self.write_throughput = sector_rate_of(
            abs_diff_u64(disk_stats.sectors_written, self.previous_disk_stats.sectors_written),
            dt,
        );
        self.previous_disk_stats = disk_stats;
    }

    pub fn read_throughput(&self) -> (r: u64)
        ensures
            r == self.read_throughput,
    {
        self.read_throughput
    }

    pub fn write_throughput(&self) -> (r: u64)
        ensures
            r == self.write_throughput,
    {
        self.write_throughput
    }
}

/// Rolling disk state for one block device; keeps the probe command.
pub struct DiskMetricPlugin {
    pub disk: Disk,
    pub command: Vec<u8>,
}

impl DiskMetricPlugin {
    /// The command `cat /sys/block/<device>/stat`.
    pub open spec fn command_spec(device: Seq<u8>) -> Seq<u8> {
        lit_bytes("cat /sys/block/"@) + device + lit_bytes("/stat"@)
    }

    pub fn new(device: &[u8]) -> (r: DiskMetricPlugin)
        ensures
            r.disk == Disk::new_spec(),
            r.command@ == DiskMetricPlugin::command_spec(device@),
    {
        proof {
            reveal_strlit("cat /sys/block/");
            reveal_strlit("/stat");
        }
        let mut command = crate::ascii_to_bytes("cat /sys/block/");
        let mut i: usize = 0;
        while i < device.len()
            invariant
                i <= device.len(),
                command@ == lit_bytes("cat /sys/block/"@) + device@.take(i as int),
            decreases device.len() - i,
        {
            command.push(device[i]);
            i = i + 1;
            proof {
                assert(lit_bytes("cat /sys/block/"@) + device@.take(i as int) =~= (lit_bytes(
                    "cat /sys/block/"@,
                ) + device@.take(i - 1)).push(device@[i - 1]));
            }
        }
        proof {
            reveal_strlit("/stat");
            assert(device@.take(device@.len() as int) =~= device@);
        }
        let tail = crate::ascii_to_bytes("/stat");
        let mut j: usize = 0;
        while j < tail.len()
            invariant
                j <= tail.len(),
                tail@ == lit_bytes("/stat"@),
                command@ == lit_bytes("cat /sys/block/"@) + device@ + tail@.take(j as int),
            decreases tail.len() - j,
        {
            command.push(tail[j]);
            j = j + 1;
            proof {
                assert(lit_bytes("cat /sys/block/"@) + device@ + tail@.take(j as int) =~= (lit_bytes(
                    "cat /sys/block/"@,
                ) + device@ + tail@.take(j - 1)).push(tail@[j - 1]));
            }
        }
        proof {
            assert(tail@.take(tail@.len() as int) =~= tail@);
            assert(command@ =~= DiskMetricPlugin::command_spec(device@));
        }
        DiskMetricPlugin { disk: Disk::new(), command }
    }
}

} // verus!
