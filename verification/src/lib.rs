//! Verified core of a cluster observability service.
//!
//! Remote Linux hosts are polled once per second over SSH; the raw counter
//! text they return is parsed here, turned into rate and percentage metrics,
//! buffered at three time resolutions with 5x and 15x rollups, aggregated
//! into cluster-level samples, and framed as JSON for WebSocket clients.
//! All quantities are exact integers: percentages in units of 10^-4 percent,
//! throughput in bytes per second, load averages in hundredths, timestamps
//! in milliseconds. Text is carried as bytes; the I/O shell around the
//! library converts at the boundary.

pub mod buffer;
pub mod config;
pub mod cpu;
pub mod disk;
pub mod hub;
pub mod json;
pub mod la;
pub mod metrics;
pub mod node;
pub mod network;
pub mod provider;
pub mod ram;
pub mod server;
pub mod ssh;
pub mod space;
pub mod text;

use vstd::prelude::*;

verus! {

/// Whether a byte is an ASCII decimal digit.
pub open spec fn ascii_digit(b: u8) -> bool {
    48 <= b <= 57
}

/// An integer clamped into u64 range from above (sums of counters are
/// capped rather than wrapped, so no parser input can fault the crate).
pub open spec fn cap_u64(x: int) -> u64 {
    if x > u64::MAX {
        u64::MAX as u64
    } else if x < 0 {
        0
    } else {
        x as u64
    }
}

/// The absolute difference of two counter readings.
pub open spec fn abs_diff(a: u64, b: u64) -> u64 {
    if a > b {
        (a - b) as u64
    } else {
        (b - a) as u64
    }
}

/// Absolute difference of two counter readings.
pub fn abs_diff_u64(a: u64, b: u64) -> (r: u64)
    ensures
        r == abs_diff(a, b),
{
    if a > b {
        a - b
    } else {
        b - a
    }
}

/// Clamps a wide intermediate into u64 range.
pub fn clamp_to_u64(x: i128) -> (r: u64)
    ensures
        r == cap_u64(x as int),
{
    if x < 0 {
        0
    } else if x > u64::MAX as i128 {
        u64::MAX
    } else {
        x as u64
    }
}

/// ASCII text, seen as the byte string the library works on.
pub open spec fn lit_bytes(s: Seq<char>) -> Seq<u8> {
    Seq::new(s.len(), |i| s[i] as u8)
}

/// ASCII literal text as the byte string the library works on.
pub fn ascii_to_bytes(s: &str) -> (r: Vec<u8>)
    requires
        vstd::string::is_ascii(s),
    ensures
        r@ == lit_bytes(s@),
{
    proof {
        vstd::string::is_ascii_spec_bytes(s);
    }
    let r = s.as_bytes_vec();
    proof {
        assert(r@ =~= lit_bytes(s@));
    }
    r
}

} // verus!
