//! Memory metrics from `/proc/meminfo`. Values arrive in kB and are
//! reported in bytes; the effective cache is Cached + SReclaimable
//! minus Shmem, and used memory is what total leaves after free space,
//! buffers and that cache. Wide intermediates are clamped into u64.

use vstd::prelude::*;

verus! {

use crate::{cap_u64, clamp_to_u64, lit_bytes};
use crate::text::{Sep, bytes_eq, parse_u64, parse_u64_spec, tokenize, tokens};

/// One sample's memory figures, in bytes.
#[derive(Clone, Copy, Debug, PartialEq, Eq, Structural)]
pub struct RamMetrics {
    pub mem_total: u64,
    pub mem_used: u64,
    pub mem_buffers: u64,
    pub mem_cached: u64,
}

impl RamMetrics {
    pub open spec fn zero_spec() -> RamMetrics {
        RamMetrics { mem_total: 0, mem_used: 0, mem_buffers: 0, mem_cached: 0 }
    }

    pub open spec fn divide_spec(self, divisor: int) -> RamMetrics
        recommends
            divisor > 0,
    {
        RamMetrics {
            mem_total: (self.mem_total as int / divisor) as u64,
            mem_used: (self.mem_used as int / divisor) as u64,
            mem_buffers: (self.mem_buffers as int / divisor) as u64,
            mem_cached: (self.mem_cached as int / divisor) as u64,
        }
    }

    pub fn zero() -> (r: RamMetrics)
        ensures
            r == RamMetrics::zero_spec(),
    {
        RamMetrics { mem_total: 0, mem_used: 0, mem_buffers: 0, mem_cached: 0 }
    }

    /// Each figure divided by `divisor`, rounding down.
    pub fn divide(self, divisor: u64) -> (r: RamMetrics)
        requires
            divisor > 0,
        ensures
            r == self.divide_spec(divisor as int),
    {
        RamMetrics {
            mem_total: self.mem_total / divisor,
            mem_used: self.mem_used / divisor,
            mem_buffers: self.mem_buffers / divisor,
            mem_cached: self.mem_cached / divisor,
        }
    }
}

/// The `kB` unit token, dropped before pairing keys with values.
pub open spec fn kb_token() -> Seq<u8> {
    seq![107u8, 66u8]
}

/// The meminfo text as key/value tokens: split on line feeds, colons
/// and spaces, with unit tokens dropped.
pub open spec fn meminfo_tokens(raw: Seq<u8>) -> Seq<Seq<u8>> {
    tokens(Sep::MemInfo, raw).filter(|t: Seq<u8>| t != kb_token())
}

/// Scans token pairs left to right; the last pair whose key matches
/// wins, starting from `acc`.
pub open spec fn scan_pairs(toks: Seq<Seq<u8>>, key: Seq<u8>, acc: u64) -> u64
    decreases toks.len(),
{
    if toks.len() < 2 {
        acc
    } else {
        scan_pairs(
            toks.skip(2),
            key,
            if toks[0] == key {
                parse_u64_spec(toks[1])
            } else {
                acc
            },
        )
    }
}

/// The kB value a meminfo key carries, or 0 when it is absent.
pub open spec fn meminfo_value(raw: Seq<u8>, key: Seq<u8>) -> u64 {
    scan_pairs(meminfo_tokens(raw), key, 0)
}

/// The memory metrics the meminfo text denotes.
pub open spec fn ram_of(raw: Seq<u8>) -> RamMetrics {
    let total = meminfo_value(raw, lit_bytes("MemTotal"@)) as int;
    let free = meminfo_value(raw, lit_bytes("MemFree"@)) as int;
    let buffers = meminfo_value(raw, lit_bytes("Buffers"@)) as int;
    let cached = meminfo_value(raw, lit_bytes("Cached"@)) as int;
    let shmem = meminfo_value(raw, lit_bytes("Shmem"@)) as int;
    let sreclaimable = meminfo_value(raw, lit_bytes("SReclaimable"@)) as int;
    let cached_eff = cap_u64(1024 * cached + 1024 * sreclaimable - 1024 * shmem);
    RamMetrics {
        mem_total: cap_u64(1024 * total),
        mem_used: cap_u64(1024 * total - 1024 * free - 1024 * buffers - cached_eff),
        mem_buffers: cap_u64(1024 * buffers),
        mem_cached: cached_eff,
    }
}

/// Stateless meminfo reader.
pub struct RamMetricPlugin {}

impl RamMetricPlugin {
    pub fn new() -> (r: RamMetricPlugin) {
        RamMetricPlugin {}
    }
}

/// Reads the six meminfo keys this crate reports and combines them.
/// Missing or malformed values read as 0.
pub fn ram_from_string(raw_data: &[u8]) -> (r: RamMetrics)
    ensures
        r == ram_of(raw_data@),
{
    let toks = tokenize(Sep::MemInfo, raw_data);

    // drop the unit tokens
    let mut flt: Vec<Vec<u8>> = Vec::new();
    let ghost all = toks.deep_view();
    let mut n: usize = 0;
    proof {
        assert(all.take(0) =~~= Seq::<Seq<u8>>::empty());
        assert(Seq::<Seq<u8>>::empty().filter(|t: Seq<u8>| t != kb_token()) =~~= Seq::<Seq<
            u8,
        >>::empty());
    }
    while n < toks.len()
        invariant
            n <= toks.len(),
            all == toks.deep_view(),
            flt.deep_view() =~~= all.take(n as int).filter(|t: Seq<u8>| t != kb_token()),
        decreases toks.len() - n,
    {
        let ghost f0 = flt.deep_view();
        let kb: Vec<u8> = vec![107u8, 66u8];
        proof {
            assert(kb@ =~= kb_token());
            assert(all[n as int] =~= toks@[n as int]@);
        }
        if !bytes_eq(toks[n].as_slice(), kb.as_slice()) {
            let piece = toks[n].clone();
            proof {
                assert(piece@ == all[n as int]);
            }
            flt.push(piece);
            proof {
                assert(flt.deep_view() =~~= f0.push(all[n as int]));
            }
        }
        n = n + 1;
        proof {
            assert(all.take(n as int).drop_last() =~~= all.take(n - 1));
            assert(all.take(n as int).last() == all[n - 1]);
            reveal_with_fuel(Seq::filter, 2);
            assert(all.take(n as int).filter(|t: Seq<u8>| t != kb_token()) == all.take(n - 1)
                .filter(|t: Seq<u8>| t != kb_token()) + if all[n - 1] != kb_token() {
                seq![all[n - 1]]
            } else {
                Seq::empty()
            });
            assert(flt.deep_view() =~~= all.take(n as int).filter(|t: Seq<u8>| t != kb_token()));
        }
    }
    proof {
        assert(all.take(toks.len() as int) =~~= all);
        assert(flt.deep_view() == meminfo_tokens(raw_data@));
    }
    let ghost ftoks = flt.deep_view();

    proof {
        reveal_strlit("MemTotal");
        reveal_strlit("MemFree");
        reveal_strlit("Buffers");
        reveal_strlit("Cached");
        reveal_strlit("Shmem");
        reveal_strlit("SReclaimable");
    }
    let key_total = crate::ascii_to_bytes("MemTotal");
    let key_free = crate::ascii_to_bytes("MemFree");
    let key_buffers = crate::ascii_to_bytes("Buffers");
    let key_cached = crate::ascii_to_bytes("Cached");
    let key_shmem = crate::ascii_to_bytes("Shmem");
    let key_sreclaimable = crate::ascii_to_bytes("SReclaimable");

    let mut v_total: u64 = 0;
    let mut v_free: u64 = 0;
    let mut v_buffers: u64 = 0;
    let mut v_cached: u64 = 0;
    let mut v_shmem: u64 = 0;
    let mut v_sreclaimable: u64 = 0;
    let mut i: usize = 0;
    proof {
        assert(ftoks.skip(0) =~~= ftoks);
    }
    while flt.len() - i > 1
        invariant
            i <= flt.len(),
            ftoks == flt.deep_view(),
            key_total@ == lit_bytes("MemTotal"@),
            key_free@ == lit_bytes("MemFree"@),
            key_buffers@ == lit_bytes("Buffers"@),
            key_cached@ == lit_bytes("Cached"@),
            key_shmem@ == lit_bytes("Shmem"@),
            key_sreclaimable@ == lit_bytes("SReclaimable"@),
            scan_pairs(ftoks, key_total@, 0) == scan_pairs(ftoks.skip(i as int), key_total@, v_total),
            scan_pairs(ftoks, key_free@, 0) == scan_pairs(ftoks.skip(i as int), key_free@, v_free),
            scan_pairs(ftoks, key_buffers@, 0) == scan_pairs(
                ftoks.skip(i as int),
                key_buffers@,
                v_buffers,
            ),
            scan_pairs(ftoks, key_cached@, 0) == scan_pairs(
                ftoks.skip(i as int),
                key_cached@,
                v_cached,
            ),
            scan_pairs(ftoks, key_shmem@, 0) == scan_pairs(
                ftoks.skip(i as int),
                key_shmem@,
                v_shmem,
            ),
            scan_pairs(ftoks, key_sreclaimable@, 0) == scan_pairs(
                ftoks.skip(i as int),
                key_sreclaimable@,
                v_sreclaimable,
            ),
        decreases flt.len() - i,
    {
        let ghost rem = ftoks.skip(i as int);
        proof {
            assert(rem.skip(2) =~~= ftoks.skip(i + 2));
            assert(rem[0] == ftoks[i as int]);
            assert(rem[1] == ftoks[i + 1]);
        }
        let key = &flt[i];
        proof {
            assert(key@ == ftoks[i as int]);
            assert(flt@[i + 1]@ == ftoks[i + 1]);
        }
        let value = parse_u64(flt[i + 1].as_slice());
        if bytes_eq(key.as_slice(), key_total.as_slice()) {
            v_total = value;
        }
        if bytes_eq(key.as_slice(), key_free.as_slice()) {
            v_free = value;
        }
        if bytes_eq(key.as_slice(), key_buffers.as_slice()) {
            v_buffers = value;
        }
        if bytes_eq(key.as_slice(), key_cached.as_slice()) {
            v_cached = value;
        }
        if bytes_eq(key.as_slice(), key_shmem.as_slice()) {
            v_shmem = value;
        }
        if bytes_eq(key.as_slice(), key_sreclaimable.as_slice()) {
            v_sreclaimable = value;
        }
        i = i + 2;
    }
    proof {
        assert(ftoks.skip(i as int).len() < 2);
    }

    let cached_eff = clamp_to_u64(
        1024 * (v_cached as i128) + 1024 * (v_sreclaimable as i128) - 1024 * (v_shmem as i128),
    );
    let used = clamp_to_u64(
        1024 * (v_total as i128) - 1024 * (v_free as i128) - 1024 * (v_buffers as i128)
            - (cached_eff as i128),
    );
    RamMetrics {
        mem_total: clamp_to_u64(1024 * (v_total as i128)),
        mem_used: used,
        mem_buffers: clamp_to_u64(1024 * (v_buffers as i128)),
        mem_cached: cached_eff,
    }
}

} // verus!
