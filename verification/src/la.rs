//! Load average from `/proc/loadavg`: the first field, kept in
//! hundredths so that 5399 stands for a one-minute load of 53.99.

use vstd::prelude::*;

verus! {

use crate::text::{Sep, parse_centi, parse_centi_spec, tokenize, tokens};

/// One sample's one-minute load average, in hundredths.
#[derive(Clone, Copy, Debug, PartialEq, Eq, Structural)]
pub struct LaMetrics {
    pub load_average: u64,
}

impl LaMetrics {
    pub open spec fn zero_spec() -> LaMetrics {
        LaMetrics { load_average: 0 }
    }

    pub open spec fn divide_spec(self, divisor: int) -> LaMetrics
        recommends
            divisor > 0,
    {
        LaMetrics { load_average: (self.load_average as int / divisor) as u64 }
    }

    pub fn zero() -> (r: LaMetrics)
        ensures
            r == LaMetrics::zero_spec(),
    {
        LaMetrics { load_average: 0 }
    }

    /// The load divided by `divisor`, rounding down.
    pub fn divide(self, divisor: u64) -> (r: LaMetrics)
        requires
            divisor > 0,
        ensures
            r == self.divide_spec(divisor as int),
    {
        LaMetrics { load_average: self.load_average / divisor }
    }
}

/// The load average the loadavg text denotes: its first whitespace
/// token as a fixed-point decimal, or 0 when absent or malformed.
pub open spec fn la_of(raw: Seq<u8>) -> LaMetrics {
    let t = tokens(Sep::Whitespace, raw);
    LaMetrics {
        load_average: if t.len() > 0 {
            parse_centi_spec(t[0])
        } else {
            0
        },
    }
}

/// Stateless loadavg reader.
pub struct LoadAverageMetricPlugin {}

impl LoadAverageMetricPlugin {
    pub fn new() -> (r: LoadAverageMetricPlugin) {
        LoadAverageMetricPlugin {}
    }
}

/// Reads the one-minute load average, in hundredths.
pub fn la_from_string(raw_data: &[u8]) -> (r: LaMetrics)
    ensures
        r == la_of(raw_data@),
{
    let toks = tokenize(Sep::Whitespace, raw_data);
    if toks.len() > 0 {
        proof {
            assert(toks.deep_view()[0] == toks@[0]@);
        }
        LaMetrics { load_average: parse_centi(toks[0].as_slice()) }
    } else {
        LaMetrics { load_average: 0 }
    }
}

} // verus!
