//! CPU counters from `/proc/stat` and the percentage metrics derived
//! from consecutive readings. Percentages are exact integers in units
//! of 10^-4 percent, so 1000000 stands for 100%.

use vstd::prelude::*;

verus! {

use crate::{abs_diff, abs_diff_u64, cap_u64};
use crate::text::{Sep, parse_u64, parse_u64_spec, tokenize, tokens};

/// The ten counters of the aggregate `cpu ` line of `/proc/stat`.
#[derive(Clone, Copy, Debug, PartialEq, Eq, Structural)]
pub struct CpuTimes {
    pub user: u64,
    pub nice: u64,
    pub system: u64,
    pub idle: u64,
    pub iowait: u64,
    pub irq: u64,
    pub softirq: u64,
    pub steal: u64,
    pub guest: u64,
    pub guest_nice: u64,
}

/// Token `i` of `raw` read as a tolerant u64, or 0 when absent.
pub open spec fn field_at(raw: Seq<u8>, i: int) -> u64 {
    let t = tokens(Sep::Whitespace, raw);
    if 0 <= i < t.len() {
        parse_u64_spec(t[i])
    } else {
        0
    }
}

impl CpuTimes {
    /// Time the CPU spent doing work: everything but idle and iowait.
    /// guest and guest_nice are already included in user and nice.
    pub open spec fn work_int(self) -> int {
        self.user + self.nice + self.system + self.irq + self.softirq + self.steal
    }

    /// All accounted CPU time.
    pub open spec fn total_int(self) -> int {
        self.work_int() + self.idle + self.iowait
    }

    pub open spec fn from_spec(raw: Seq<u8>) -> CpuTimes {
        CpuTimes {
            user: field_at(raw, 1),
            nice: field_at(raw, 2),
            system: field_at(raw, 3),
            idle: field_at(raw, 4),
            iowait: field_at(raw, 5),
            irq: field_at(raw, 6),
            softirq: field_at(raw, 7),
            steal: field_at(raw, 8),
            guest: field_at(raw, 9),
            guest_nice: field_at(raw, 10),
        }
    }

    /// Fieldwise absolute difference of two readings.
    pub open spec fn diff_spec(self, other: CpuTimes) -> CpuTimes {
        CpuTimes {
            user: abs_diff(self.user, other.user),
            nice: abs_diff(self.nice, other.nice),
            system: abs_diff(self.system, other.system),
            idle: abs_diff(self.idle, other.idle),
            iowait: abs_diff(self.iowait, other.iowait),
            irq: abs_diff(self.irq, other.irq),
            softirq: abs_diff(self.softirq, other.softirq),
            steal: abs_diff(self.steal, other.steal),
            guest: abs_diff(self.guest, other.guest),
            guest_nice: abs_diff(self.guest_nice, other.guest_nice),
        }
    }

    pub open spec fn zero_spec() -> CpuTimes {
        CpuTimes {
            user: 0,
            nice: 0,
            system: 0,
            idle: 0,
            iowait: 0,
            irq: 0,
            softirq: 0,
            steal: 0,
            guest: 0,
            guest_nice: 0,
        }
    }

    #[allow(clippy::too_many_arguments)]
    pub fn new(
        user: u64,
        nice: u64,
        system: u64,
        idle: u64,
        iowait: u64,
        irq: u64,
        softirq: u64,
        steal: u64,
        guest: u64,
        guest_nice: u64,
    ) -> (r: CpuTimes)
        ensures
            r == (CpuTimes {
                user,
                nice,
                system,
                idle,
                iowait,
                irq,
                softirq,
                steal,
                guest,
                guest_nice,
            }),
    {
        CpuTimes { user, nice, system, idle, iowait, irq, softirq, steal, guest, guest_nice }
    }

    /// Reads the ten counters after the leading `cpu` token; missing or
    /// malformed tokens read as 0.
    pub fn from_string(raw_data: &[u8]) -> (r: CpuTimes)
        ensures
            r == CpuTimes::from_spec(raw_data@),
    {
        let toks = tokenize(Sep::Whitespace, raw_data);
        let mut vals: [u64; 10] = [0, 0, 0, 0, 0, 0, 0, 0, 0, 0];
        let mut i: usize = 1;
        while i <= 10
            invariant
                1 <= i <= 11,
                toks.deep_view() == tokens(Sep::Whitespace, raw_data@),
                forall|j: int| 1 <= j < i ==> vals@[j - 1] == field_at(raw_data@, j),
            decreases 11 - i,
        {
            let v: u64 = if i < toks.len() {
                let t = &toks[i];
                proof {
                    assert(toks.deep_view()[i as int] == toks@[i as int]@);
                }
                parse_u64(t.as_slice())
            } else {
                0
            };
            vals[i - 1] = v;
            i = i + 1;
        }
        CpuTimes {
            user: vals[0],
            nice: vals[1],
            system: vals[2],
            idle: vals[3],
            iowait: vals[4],
            irq: vals[5],
            softirq: vals[6],
            steal: vals[7],
            guest: vals[8],
            guest_nice: vals[9],
        }
    }

    pub fn user(&self) -> (r: u64)
        ensures
            r == self.user,
    {
        self.user
    }

    pub fn nice(&self) -> (r: u64)
        ensures
            r == self.nice,
    {
        self.nice
    }

    pub fn system(&self) -> (r: u64)
        ensures
            r == self.system,
    {
        self.system
    }

    pub fn idle(&self) -> (r: u64)
        ensures
            r == self.idle,
    {
        self.idle
    }

    pub fn iowait(&self) -> (r: u64)
        ensures
            r == self.iowait,
    {
        self.iowait
    }

    pub fn irq(&self) -> (r: u64)
        ensures
            r == self.irq,
    {
        self.irq
    }

    pub fn softirq(&self) -> (r: u64)
        ensures
            r == self.softirq,
    {
        self.softirq
    }

    /// Work time, capped at u64::MAX.
    pub fn work(&self) -> (r: u64)
        ensures
            r == cap_u64(self.work_int()),
    {
        let wide: u128 = self.user as u128 + self.nice as u128 + self.system as u128
            + self.irq as u128 + self.softirq as u128 + self.steal as u128;
        if wide > u64::MAX as u128 {
            u64::MAX
        } else {
            wide as u64
        }
    }

    /// Total accounted time, capped at u64::MAX.
    pub fn total(&self) -> (r: u64)
        ensures
            r == cap_u64(self.total_int()),
    {
        let wide: u128 = self.user as u128 + self.nice as u128 + self.system as u128
            + self.irq as u128 + self.softirq as u128 + self.steal as u128 + self.idle as u128
            + self.iowait as u128;
        if wide > u64::MAX as u128 {
            u64::MAX
        } else {
            wide as u64
        }
    }

    /// Fieldwise absolute difference of two readings.
    pub fn diff(&self, other: &CpuTimes) -> (r: CpuTimes)
        ensures
            r == self.diff_spec(*other),
    {
        CpuTimes {
            user: abs_diff_u64(self.user, other.user),
            nice: abs_diff_u64(self.nice, other.nice),
            system: abs_diff_u64(self.system, other.system),
            idle: abs_diff_u64(self.idle, other.idle),
            iowait: abs_diff_u64(self.iowait, other.iowait),
            irq: abs_diff_u64(self.irq, other.irq),
            softirq: abs_diff_u64(self.softirq, other.softirq),
            steal: abs_diff_u64(self.steal, other.steal),
            guest: abs_diff_u64(self.guest, other.guest),
            guest_nice: abs_diff_u64(self.guest_nice, other.guest_nice),
        }
    }
}

/// A share of `d` out of `t` in units of 10^-4 percent; 0 when `t` is 0.
pub open spec fn pct_e4(d: int, t: int) -> int {
    if t <= 0 {
        0
    } else {
        d * 1000000 / t
    }
}

/// One sample's CPU percentages, each in units of 10^-4 percent.
#[derive(Clone, Copy, Debug, PartialEq, Eq, Structural)]
pub struct CpuMetrics {
    pub cpu_usage: u64,
    pub user: u64,
    pub nice: u64,
    pub system: u64,
    pub idle: u64,
    pub iowait: u64,
    pub irq: u64,
    pub softirq: u64,
}

impl CpuMetrics {
    pub open spec fn zero_spec() -> CpuMetrics {
        CpuMetrics {
            cpu_usage: 0,
            user: 0,
            nice: 0,
            system: 0,
            idle: 0,
            iowait: 0,
            irq: 0,
            softirq: 0,
        }
    }

    /// The percentages a counter difference denotes, over the capped
    /// total of that difference.
    pub open spec fn of_diff(d: CpuTimes) -> CpuMetrics {
        let t = cap_u64(d.total_int()) as int;
        CpuMetrics {
            cpu_usage: pct_e4(cap_u64(d.work_int()) as int, t) as u64,
            user: pct_e4(d.user as int, t) as u64,
            nice: pct_e4(d.nice as int, t) as u64,
            system: pct_e4(d.system as int, t) as u64,
            idle: pct_e4(d.idle as int, t) as u64,
            iowait: pct_e4(d.iowait as int, t) as u64,
            irq: pct_e4(d.irq as int, t) as u64,
            softirq: pct_e4(d.softirq as int, t) as u64,
        }
    }

    pub fn zero() -> (r: CpuMetrics)
        ensures
            r == CpuMetrics::zero_spec(),
    {
        CpuMetrics {
            cpu_usage: 0,
            user: 0,
            nice: 0,
            system: 0,
            idle: 0,
            iowait: 0,
            irq: 0,
            softirq: 0,
        }
    }
}

/// A numerator no larger than the denominator gives at most 100%.
proof fn lemma_pct_le_million(d: int, t: int)
    requires
        0 <= d <= t,
    ensures
        0 <= pct_e4(d, t) <= 1000000,
{
    if t > 0 {
        assert(d * 1000000 <= t * 1000000) by (nonlinear_arith)
            requires
                d <= t,
        ;
        assert(d * 1000000 / t <= t * 1000000 / t) by (nonlinear_arith)
            requires
                t > 0 && d * 1000000 <= t * 1000000,
        ;
        assert(t * 1000000 / t == 1000000) by (nonlinear_arith)
            requires
                t > 0,
        ;
        assert(d * 1000000 >= 0) by (nonlinear_arith)
            requires
                d >= 0,
        ;
        assert(d * 1000000 / t >= 0) by (nonlinear_arith)
            requires
                t > 0 && d * 1000000 >= 0,
        ;
    }
}

/// Computes a share of `d` out of `t` in units of 10^-4 percent.
fn pct_of(d: u64, t: u64) -> (r: u64)
    requires
        d <= t,
    ensures
        r == pct_e4(d as int, t as int),
{
    proof {
        lemma_pct_le_million(d as int, t as int);
    }
    if t == 0 {
        0
    } else {
        let wide: u128 = (d as u128) * 1000000 / (t as u128);
        wide as u64
    }
}

/// Rolling CPU state: the previous counter reading and the percentages
/// derived from the latest difference.
#[derive(Clone, Copy, Debug, PartialEq, Eq, Structural)]
pub struct Cpu {
    pub last_cpu_times: CpuTimes,
    pub percents: CpuMetrics,
}

impl Cpu {
    pub open spec fn new_spec() -> Cpu {
        Cpu { last_cpu_times: CpuTimes::zero_spec(), percents: CpuMetrics::zero_spec() }
    }

    /// The state after absorbing a new reading.
    pub open spec fn push_spec(self, new_times: CpuTimes) -> Cpu {
        Cpu {
            last_cpu_times: new_times,
            percents: CpuMetrics::of_diff(new_times.diff_spec(self.last_cpu_times)),
        }
    }

    pub fn new() -> (r: Cpu)
        ensures
            r == Cpu::new_spec(),
    {
        Cpu { last_cpu_times: CpuTimes::new(0, 0, 0, 0, 0, 0, 0, 0, 0, 0), percents: CpuMetrics::zero() }
    }

    /// Absorbs a new reading: the percentages become those of the
    /// difference against the previous reading. Two identical readings
    /// in a row yield exactly zero everywhere.
    pub fn push(&mut self, cpu_times: CpuTimes)
        ensures
            *final(self) == old(self).push_spec(cpu_times),
            cpu_times == old(self).last_cpu_times ==> final(self).percents
                == CpuMetrics::zero_spec(),
    {
        let d = cpu_times.diff(&self.last_cpu_times);
        let total = d.total();
        proof {
            assert(d.user <= d.total_int());
            assert(d.nice <= d.total_int());
            assert(d.system <= d.total_int());
            assert(d.idle <= d.total_int());
            assert(d.iowait <= d.total_int());
            assert(d.irq <= d.total_int());
            assert(d.softirq <= d.total_int());
            assert(d.work_int() <= d.total_int());
        }
        let work = d.work();
        self.percents = CpuMetrics {
            cpu_usage: pct_of(work, total),
            user: pct_of(d.user, total),
            nice: pct_of(d.nice, total),
            system: pct_of(d.system, total),
            idle: pct_of(d.idle, total),
            iowait: pct_of(d.iowait, total),
            irq: pct_of(d.irq, total),
            softirq: pct_of(d.softirq, total),
        };
        self.last_cpu_times = cpu_times;
    }

    pub fn work_percent(&self) -> (r: u64)
        ensures
            r == self.percents.cpu_usage,
    {
        self.percents.cpu_usage
    }

    pub fn user_percent(&self) -> (r: u64)
        ensures
            r == self.percents.user,
    {
        self.percents.user
    }

    pub fn nice_percent(&self) -> (r: u64)
        ensures
            r == self.percents.nice,
    {
        self.percents.nice
    }

    pub fn system_percent(&self) -> (r: u64)
        ensures
            r == self.percents.system,
    {
        self.percents.system
    }

    pub fn idle_percent(&self) -> (r: u64)
        ensures
            r == self.percents.idle,
    {
        self.percents.idle
    }

    pub fn iowait_percent(&self) -> (r: u64)
        ensures
            r == self.percents.iowait,
    {
        self.percents.iowait
    }

    pub fn irq_percent(&self) -> (r: u64)
        ensures
            r == self.percents.irq,
    {
        self.percents.irq
    }

    pub fn softirq_percent(&self) -> (r: u64)
        ensures
            r == self.percents.softirq,
    {
        self.percents.softirq
    }
}

/// `d * 1000000 / t` multiplied back by `t` misses `d * 1000000` by
/// less than `t`.
proof fn lemma_pct_remainder(d: int, t: int)
    requires
        t > 0,
        d >= 0,
    ensures
        d * 1000000 - t < t * pct_e4(d, t) <= d * 1000000,
{
    vstd::arithmetic::div_mod::lemma_fundamental_div_mod(d * 1000000, t);
    vstd::arithmetic::div_mod::lemma_mod_bound(d * 1000000, t);
}

/// Over one counter difference with no steal time, the seven reported
/// bucket percentages sum to the whole: their sum lies within 7 units
/// of 10^-4 percent below 100% and never above it.
pub proof fn lemma_cpu_bucket_percent_sum(d: CpuTimes)
    requires
        d.steal == 0,
        0 < d.total_int() <= u64::MAX,
    ensures
        ({
            let m = CpuMetrics::of_diff(d);
            let s = m.user + m.nice + m.system + m.idle + m.iowait + m.irq + m.softirq;
            1000000 - 7 < s <= 1000000
        }),
{
    let t = d.total_int();
    let qu = pct_e4(d.user as int, t);
    let qn = pct_e4(d.nice as int, t);
    let qs = pct_e4(d.system as int, t);
    let qi = pct_e4(d.idle as int, t);
    let qw = pct_e4(d.iowait as int, t);
    let qr = pct_e4(d.irq as int, t);
    let qf = pct_e4(d.softirq as int, t);
    lemma_pct_remainder(d.user as int, t);
    lemma_pct_remainder(d.nice as int, t);
    lemma_pct_remainder(d.system as int, t);
    lemma_pct_remainder(d.idle as int, t);
    lemma_pct_remainder(d.iowait as int, t);
    lemma_pct_remainder(d.irq as int, t);
    lemma_pct_remainder(d.softirq as int, t);
    let sq = qu + qn + qs + qi + qw + qr + qf;
    assert(t * sq == t * qu + t * qn + t * qs + t * qi + t * qw + t * qr + t * qf)
        by (nonlinear_arith)
        requires
            sq == qu + qn + qs + qi + qw + qr + qf,
    ;
    assert(d.user * 1000000 + d.nice * 1000000 + d.system * 1000000 + d.idle * 1000000 + d.iowait
        * 1000000 + d.irq * 1000000 + d.softirq * 1000000 == t * 1000000);
    assert(t * 1000000 - 7 * t < t * sq <= t * 1000000);
    assert(1000000 - 7 < sq <= 1000000) by (nonlinear_arith)
        requires
            t > 0 && t * 1000000 - 7 * t < t * sq <= t * 1000000,
    ;
    lemma_pct_le_million(d.user as int, t);
    lemma_pct_le_million(d.nice as int, t);
    lemma_pct_le_million(d.system as int, t);
    lemma_pct_le_million(d.idle as int, t);
    lemma_pct_le_million(d.iowait as int, t);
    lemma_pct_le_million(d.irq as int, t);
    lemma_pct_le_million(d.softirq as int, t);
}

/// With no steal time, the work percentage is 100% minus the idle and
/// iowait percentages, up to 3 units of 10^-4 percent of truncation.
pub proof fn lemma_cpu_work_percent_complement(d: CpuTimes)
    requires
        d.steal == 0,
        0 < d.total_int() <= u64::MAX,
    ensures
        ({
            let m = CpuMetrics::of_diff(d);
            let rest = 1000000 - m.idle - m.iowait;
            rest - 3 < m.cpu_usage <= rest
        }),
{
    let t = d.total_int();
    let w = d.work_int();
    let qw = pct_e4(w, t);
    let qi = pct_e4(d.idle as int, t);
    let qo = pct_e4(d.iowait as int, t);
    lemma_pct_remainder(w, t);
    lemma_pct_remainder(d.idle as int, t);
    lemma_pct_remainder(d.iowait as int, t);
    let sq = qw + qi + qo;
    assert(t * sq == t * qw + t * qi + t * qo) by (nonlinear_arith)
        requires
            sq == qw + qi + qo,
    ;
    assert(w * 1000000 + d.idle * 1000000 + d.iowait * 1000000 == t * 1000000);
    assert(t * 1000000 - 3 * t < t * sq <= t * 1000000);
    assert(1000000 - 3 < sq <= 1000000) by (nonlinear_arith)
        requires
            t > 0 && t * 1000000 - 3 * t < t * sq <= t * 1000000,
    ;
    lemma_pct_le_million(w, t);
    lemma_pct_le_million(d.idle as int, t);
    lemma_pct_le_million(d.iowait as int, t);
}

/// Keeps the rolling CPU state between polls.
pub struct CpuMetricPlugin {
    pub cpu: Cpu,
}

impl CpuMetricPlugin {
    pub fn new() -> (r: CpuMetricPlugin)
        ensures
            r.cpu == Cpu::new_spec(),
    {
        CpuMetricPlugin { cpu: Cpu::new() }
    }
}

} // verus!
