//! The parsing half of the SSH probe. Opening sessions, running
//! commands and reading channels happen outside the library; the raw
//! text of the bootstrap probes (`nproc`, `cat /proc/uptime`) is
//! interpreted here.

use vstd::prelude::*;

verus! {

use crate::text::{Sep, is_number, digits_val, parse_centi, parse_centi_spec, parse_u64, parse_u64_spec, tokenize, tokens};

/// The uptime a `cat /proc/uptime` response denotes: its first field
/// truncated to whole seconds, or 0 when absent or malformed.
pub open spec fn uptime_of(raw: Seq<u8>) -> u64 {
    let t = tokens(Sep::Whitespace, raw);
    if t.len() > 0 {
        (parse_centi_spec(t[0]) / 100) as u64
    } else {
        0
    }
}

/// Reads an uptime probe's output into whole seconds.
pub fn parse_uptime_seconds(raw: &[u8]) -> (r: u64)
    ensures
        r == uptime_of(raw@),
{
    let toks = tokenize(Sep::Whitespace, raw);
    if toks.len() > 0 {
        proof {
            assert(toks.deep_view()[0] == toks@[0]@);
        }
        parse_centi(toks[0].as_slice()) / 100
    } else {
        0
    }
}

/// The logical cpu count an `nproc` response denotes: its single
/// field as a small integer, or 0 when absent, malformed or too big.
pub open spec fn cpu_count_of(raw: Seq<u8>) -> u8 {
    let t = tokens(Sep::Whitespace, raw);
    if t.len() == 1 && is_number(t[0]) && digits_val(t[0]) <= u8::MAX {
        digits_val(t[0]) as u8
    } else {
        0
    }
}

/// Reads an nproc probe's output into a cpu count.
pub fn parse_cpu_count(raw: &[u8]) -> (r: u8)
    ensures
        r == cpu_count_of(raw@),
{
    let toks = tokenize(Sep::Whitespace, raw);
    if toks.len() != 1 {
        return 0;
    }
    let ghost tok0 = tokens(Sep::Whitespace, raw@)[0];
    proof {
        assert(toks.deep_view()[0] == toks@[0]@);
        assert(tok0 == toks@[0]@);
    }
    let v = parse_u64(toks[0].as_slice());
    let t = &toks[0];
    if t.len() == 0 {
        return 0;
    }
    let mut i: usize = 0;
    while i < t.len()
        invariant
            i <= t@.len(),
            t@ == tok0,
            tok0 == tokens(Sep::Whitespace, raw@)[0],
            tokens(Sep::Whitespace, raw@).len() == 1,
            forall|j: int| 0 <= j < i ==> crate::ascii_digit(#[trigger] t@[j]),
        decreases t@.len() - i,
    {
        if !(48 <= t[i] && t[i] <= 57) {
            return 0;
        }
        i = i + 1;
    }
    proof {
        crate::text::lemma_digits_val_nonneg(tok0);
    }
    if v > 255 {
        return 0;
    }
    v as u8
}

} // verus!
