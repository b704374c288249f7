//! Disk space from `df /dev/<filesystem>`: the last non-empty line's
//! second column is the total and its fourth column the available
//! space, both in 1K blocks; used space is their difference.

use vstd::prelude::*;

verus! {

use crate::{cap_u64, lit_bytes};
use crate::text::{Sep, parse_u64, parse_u64_spec, tokenize, tokens};

/// One sample's filesystem space, in 1K blocks.
#[derive(Clone, Copy, Debug, PartialEq, Eq, Structural)]
pub struct SpaceMetrics {
    pub total: u64,
    pub used: u64,
}

impl SpaceMetrics {
    pub open spec fn zero_spec() -> SpaceMetrics {
        SpaceMetrics { total: 0, used: 0 }
    }

    pub open spec fn divide_spec(self, divisor: int) -> SpaceMetrics
        recommends
            divisor > 0,
    {
        SpaceMetrics {
            total: (self.total as int / divisor) as u64,
            used: (self.used as int / divisor) as u64,
        }
    }

    pub fn zero() -> (r: SpaceMetrics)
        ensures
            r == SpaceMetrics::zero_spec(),
    {
        SpaceMetrics { total: 0, used: 0 }
    }

    /// Each figure divided by `divisor`, rounding down.
    pub fn divide(self, divisor: u64) -> (r: SpaceMetrics)
        requires
            divisor > 0,
        ensures
            r == self.divide_spec(divisor as int),
    {
        SpaceMetrics { total: self.total / divisor, used: self.used / divisor }
    }
}

/// The space metrics the df text denotes: columns 1 and 3 of the last
/// non-empty line, used = total minus available, floored at 0.
pub open spec fn space_of(raw: Seq<u8>) -> SpaceMetrics {
    let lines = tokens(Sep::Newline, raw);
    if lines.len() == 0 {
        SpaceMetrics::zero_spec()
    } else {
        let cols = tokens(Sep::Whitespace, lines.last());
        let total = if cols.len() > 1 {
            parse_u64_spec(cols[1])
        } else {
            0
        };
        let avail = if cols.len() > 3 {
            parse_u64_spec(cols[3])
        } else {
            0
        };
        SpaceMetrics { total, used: cap_u64(total - avail) }
    }
}

/// Stateless df reader for one filesystem; keeps the probe command.
pub struct SpaceMetricPlugin {
    pub command: Vec<u8>,
}

impl SpaceMetricPlugin {
    /// The command `df /dev/<filesystem>`.
    pub open spec fn command_spec(filesystem: Seq<u8>) -> Seq<u8> {
        lit_bytes("df /dev/"@) + filesystem
    }

    pub fn new(filesystem: &[u8]) -> (r: SpaceMetricPlugin)
        ensures
            r.command@ == SpaceMetricPlugin::command_spec(filesystem@),
    {
        proof {
            reveal_strlit("df /dev/");
        }
        let mut command = crate::ascii_to_bytes("df /dev/");
        let mut i: usize = 0;
        while i < filesystem.len()
            invariant
                i <= filesystem.len(),
                command@ == lit_bytes("df /dev/"@) + filesystem@.take(i as int),
            decreases filesystem.len() - i,
        {
            command.push(filesystem[i]);
            i = i + 1;
            proof {
                assert(lit_bytes("df /dev/"@) + filesystem@.take(i as int) =~= (lit_bytes(
                    "df /dev/"@,
                ) + filesystem@.take(i - 1)).push(filesystem@[i - 1]));
            }
        }
        proof {
            assert(filesystem@.take(filesystem@.len() as int) =~= filesystem@);
            assert(command@ =~= SpaceMetricPlugin::command_spec(filesystem@));
        }
        SpaceMetricPlugin { command }
    }
}

/// Reads the df output into space metrics. Missing or malformed
/// columns read as 0; available space above the total reads as 0 used.
pub fn space_from_string(raw_data: &[u8]) -> (r: SpaceMetrics)
    ensures
        r == space_of(raw_data@),
{
    let lines = tokenize(Sep::Newline, raw_data);
    if lines.len() == 0 {
        return SpaceMetrics { total: 0, used: 0 };
    }
    let last = &lines[lines.len() - 1];
    proof {
        assert(lines.deep_view()[lines@.len() - 1] == lines@[lines@.len() - 1]@);
        assert(tokens(Sep::Newline, raw_data@).last() == last@);
    }
    let cols = tokenize(Sep::Whitespace, last.as_slice());
    let total: u64 = if cols.len() > 1 {
        proof {
            assert(cols.deep_view()[1] == cols@[1]@);
        }
        parse_u64(cols[1].as_slice())
    } else {
        0
    };
    let avail: u64 = if cols.len() > 3 {
        proof {
            assert(cols.deep_view()[3] == cols@[3]@);
        }
        parse_u64(cols[3].as_slice())
    } else {
        0
    };
    let used: u64 = if total > avail {
        total - avail
    } else {
        0
    };
    SpaceMetrics { total, used }
}

} // verus!
