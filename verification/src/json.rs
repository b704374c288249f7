//! The JSON frames of the WebSocket protocol: outbound node and
//! cluster samples, and the inbound subscribe command. The encoders
//! produce exactly the byte strings the specifications below denote,
//! and the decoders invert them; the round trips are proved where the
//! embedded text is plain (no quotes, backslashes or control bytes,
//! which no hostname or address carries).

use vstd::prelude::*;

verus! {

use crate::lit_bytes;
use crate::network::append_bytes;
use crate::node::{Node, NodeMetricsV, NodeSpecs, NodeSpecsV, NodeV};
use crate::server::{MessageData, MessageDataV, OutboundMessage, Timeframe};
use crate::text::{dec_digits, render_u64};

/// Text that needs no JSON escaping: printable ASCII without quotes
/// or backslashes.
pub open spec fn plain(s: Seq<u8>) -> bool {
    forall|i: int| 0 <= i < s.len() ==> 32 <= #[trigger] s[i] < 127 && s[i] != 34 && s[i] != 92
}

pub open spec fn enc_bool(b: bool) -> Seq<u8> {
    if b {
        lit_bytes("true"@)
    } else {
        lit_bytes("false"@)
    }
}

/// The cpu object of one sample, from the comma before `cpu`.
pub open spec fn enc_cpu(c: crate::cpu::CpuMetrics) -> Seq<u8> {
    lit_bytes(",\"cpu\":{\"cpu_usage\":"@) + dec_digits(c.cpu_usage as int) + lit_bytes(
        ",\"user\":"@,
    ) + dec_digits(c.user as int) + lit_bytes(",\"nice\":"@) + dec_digits(c.nice as int)
        + lit_bytes(",\"system\":"@) + dec_digits(c.system as int) + lit_bytes(",\"idle\":"@)
        + dec_digits(c.idle as int) + lit_bytes(",\"iowait\":"@) + dec_digits(c.iowait as int)
        + lit_bytes(",\"irq\":"@) + dec_digits(c.irq as int) + lit_bytes(",\"softirq\":"@)
        + dec_digits(c.softirq as int)
}

/// The disk object, closing the cpu object before it.
pub open spec fn enc_disk(d: crate::disk::DiskMetrics) -> Seq<u8> {
    lit_bytes("},\"disk\":{\"write_throughput\":"@) + dec_digits(d.write_throughput as int)
        + lit_bytes(",\"read_throughput\":"@) + dec_digits(d.read_throughput as int)
}

/// The load object, closing the disk object before it.
pub open spec fn enc_la(l: crate::la::LaMetrics) -> Seq<u8> {
    lit_bytes("},\"la\":{\"load_average\":"@) + dec_digits(l.load_average as int)
}

/// The net object, closing the load object before it.
pub open spec fn enc_net(n: crate::network::NetMetrics) -> Seq<u8> {
    lit_bytes("},\"net\":{\"up_bandwidth\":"@) + dec_digits(n.up_bandwidth as int) + lit_bytes(
        ",\"down_bandwidth\":"@,
    ) + dec_digits(n.down_bandwidth as int)
}

/// The ram object, closing the net object before it.
pub open spec fn enc_ram(r: crate::ram::RamMetrics) -> Seq<u8> {
    lit_bytes("},\"ram\":{\"mem_total\":"@) + dec_digits(r.mem_total as int) + lit_bytes(
        ",\"mem_used\":"@,
    ) + dec_digits(r.mem_used as int) + lit_bytes(",\"mem_buffers\":"@) + dec_digits(
        r.mem_buffers as int,
    ) + lit_bytes(",\"mem_cached\":"@) + dec_digits(r.mem_cached as int)
}

/// The space object, closing the ram object before it and then the
/// whole record.
pub open spec fn enc_space(sp: crate::space::SpaceMetrics) -> Seq<u8> {
    lit_bytes("},\"space\":{\"total\":"@) + dec_digits(sp.total as int) + lit_bytes(
        ",\"used\":"@,
    ) + dec_digits(sp.used as int) + lit_bytes("}}"@)
}

/// The metric families of one sample, from the comma before `cpu` to
/// the closing brace of the whole object.
pub open spec fn enc_families(m: NodeMetricsV) -> Seq<u8> {
    enc_cpu(m.cpu) + enc_disk(m.disk) + enc_la(m.la) + enc_net(m.net) + enc_ram(m.ram) + enc_space(
        m.space,
    )
}

/// One node as sent to clients: identity flattened with its sample.
pub open spec fn enc_node(n: NodeV) -> Seq<u8> {
    lit_bytes("{\"index\":"@) + dec_digits(n.specs.index as int) + lit_bytes(",\"hostname\":\""@)
        + n.specs.hostname + lit_bytes("\",\"cpus\":"@) + dec_digits(n.specs.cpus as int)
        + lit_bytes(",\"ip\":\""@) + n.specs.ip + lit_bytes("\",\"online\":"@) + enc_bool(
        n.metrics.online,
    ) + lit_bytes(",\"uptime_seconds\":"@) + dec_digits(n.metrics.uptime_seconds as int)
        + enc_families(n.metrics)
}

/// A standalone identity record.
pub open spec fn enc_node_specs(v: NodeSpecsV) -> Seq<u8> {
    lit_bytes("{\"index\":"@) + dec_digits(v.index as int) + lit_bytes(",\"hostname\":\""@)
        + v.hostname + lit_bytes("\",\"cpus\":"@) + dec_digits(v.cpus as int) + lit_bytes(
        ",\"ip\":\""@,
    ) + v.ip + lit_bytes("\"}"@)
}

/// The nodes of one message, comma-separated.
pub open spec fn enc_node_list(ns: Seq<NodeV>) -> Seq<u8>
    decreases ns.len(),
{
    if ns.len() == 0 {
        Seq::empty()
    } else if ns.len() == 1 {
        enc_node(ns[0])
    } else {
        enc_node_list(ns.drop_last()) + lit_bytes(","@) + enc_node(ns.last())
    }
}

/// One outbound frame: tagged with its kind, carrying its nodes.
pub open spec fn enc_message(data: MessageDataV) -> Seq<u8> {
    match data {
        MessageDataV::NodeMetrics { nodes } => lit_bytes("{\"type\":\"NodeMetrics\",\"data\":["@)
            + enc_node_list(nodes) + lit_bytes("]}"@),
        MessageDataV::ClusterMetrics { nodes } => lit_bytes(
            "{\"type\":\"ClusterMetrics\",\"data\":["@,
        ) + enc_node_list(nodes) + lit_bytes("]}"@),
    }
}

/// The subscribe command a client sends.
pub open spec fn enc_command(tf: Timeframe) -> Seq<u8> {
    match tf {
        Timeframe::OverviewOneSecond => lit_bytes("{\"subscribe_to\":\"OverviewOneSecond\"}"@),
        Timeframe::OverviewFiveSeconds => lit_bytes("{\"subscribe_to\":\"OverviewFiveSeconds\"}"@),
        Timeframe::OverviewFifteenSeconds => lit_bytes(
            "{\"subscribe_to\":\"OverviewFifteenSeconds\"}"@,
        ),
    }
}

/// Appends literal text.
fn push_lit(out: &mut Vec<u8>, s: &str)
    requires
        vstd::string::is_ascii(s),
    ensures
        final(out)@ == old(out)@ + lit_bytes(s@),
{
    let bytes = crate::ascii_to_bytes(s);
    append_bytes(out, bytes.as_slice());
}

/// Appends a number in decimal.
fn push_u64(out: &mut Vec<u8>, n: u64)
    ensures
        final(out)@ == old(out)@ + dec_digits(n as int),
{
    let digits = render_u64(n);
    append_bytes(out, digits.as_slice());
}

/// Appends a bool keyword.
fn push_bool(out: &mut Vec<u8>, b: bool)
    ensures
        final(out)@ == old(out)@ + enc_bool(b),
{
    proof {
        reveal_strlit("true");
        reveal_strlit("false");
    }
    if b {
        push_lit(out, "true");
    } else {
        push_lit(out, "false");
    }
}

fn push_cpu(out: &mut Vec<u8>, c: &crate::cpu::CpuMetrics)
    ensures
        final(out)@ == old(out)@ + enc_cpu(*c),
{
    proof {
        reveal_strlit(",\"cpu\":{\"cpu_usage\":");
        reveal_strlit(",\"user\":");
        reveal_strlit(",\"nice\":");
        reveal_strlit(",\"system\":");
        reveal_strlit(",\"idle\":");
        reveal_strlit(",\"iowait\":");
        reveal_strlit(",\"irq\":");
        reveal_strlit(",\"softirq\":");
    }
    push_lit(out, ",\"cpu\":{\"cpu_usage\":");
    push_u64(out, c.cpu_usage);
    push_lit(out, ",\"user\":");
    push_u64(out, c.user);
    push_lit(out, ",\"nice\":");
    push_u64(out, c.nice);
    push_lit(out, ",\"system\":");
    push_u64(out, c.system);
    push_lit(out, ",\"idle\":");
    push_u64(out, c.idle);
    push_lit(out, ",\"iowait\":");
    push_u64(out, c.iowait);
    push_lit(out, ",\"irq\":");
    push_u64(out, c.irq);
    push_lit(out, ",\"softirq\":");
    push_u64(out, c.softirq);
    proof {
        assert(out@ =~= old(out)@ + enc_cpu(*c));
    }
}

fn push_disk(out: &mut Vec<u8>, d: &crate::disk::DiskMetrics)
    ensures
        final(out)@ == old(out)@ + enc_disk(*d),
{
    proof {
        reveal_strlit("},\"disk\":{\"write_throughput\":");
        reveal_strlit(",\"read_throughput\":");
    }
    push_lit(out, "},\"disk\":{\"write_throughput\":");
    push_u64(out, d.write_throughput);
    push_lit(out, ",\"read_throughput\":");
    push_u64(out, d.read_throughput);
    proof {
        assert(out@ =~= old(out)@ + enc_disk(*d));
    }
}

fn push_la(out: &mut Vec<u8>, l: &crate::la::LaMetrics)
    ensures
        final(out)@ == old(out)@ + enc_la(*l),
{
    proof {
        reveal_strlit("},\"la\":{\"load_average\":");
    }
    push_lit(out, "},\"la\":{\"load_average\":");
    push_u64(out, l.load_average);
    proof {
        assert(out@ =~= old(out)@ + enc_la(*l));
    }
}

fn push_net(out: &mut Vec<u8>, n: &crate::network::NetMetrics)
    ensures
        final(out)@ == old(out)@ + enc_net(*n),
{
    proof {
        reveal_strlit("},\"net\":{\"up_bandwidth\":");
        reveal_strlit(",\"down_bandwidth\":");
    }
    push_lit(out, "},\"net\":{\"up_bandwidth\":");
    push_u64(out, n.up_bandwidth);
    push_lit(out, ",\"down_bandwidth\":");
    push_u64(out, n.down_bandwidth);
    proof {
        assert(out@ =~= old(out)@ + enc_net(*n));
    }
}

fn push_ram(out: &mut Vec<u8>, r: &crate::ram::RamMetrics)
    ensures
        final(out)@ == old(out)@ + enc_ram(*r),
{
    proof {
        reveal_strlit("},\"ram\":{\"mem_total\":");
        reveal_strlit(",\"mem_used\":");
        reveal_strlit(",\"mem_buffers\":");
        reveal_strlit(",\"mem_cached\":");
    }
    push_lit(out, "},\"ram\":{\"mem_total\":");
    push_u64(out, r.mem_total);
    push_lit(out, ",\"mem_used\":");
    push_u64(out, r.mem_used);
    push_lit(out, ",\"mem_buffers\":");
    push_u64(out, r.mem_buffers);
    push_lit(out, ",\"mem_cached\":");
    push_u64(out, r.mem_cached);
    proof {
        assert(out@ =~= old(out)@ + enc_ram(*r));
    }
}

fn push_space(out: &mut Vec<u8>, sp: &crate::space::SpaceMetrics)
    ensures
        final(out)@ == old(out)@ + enc_space(*sp),
{
    proof {
        reveal_strlit("},\"space\":{\"total\":");
        reveal_strlit(",\"used\":");
        reveal_strlit("}}");
    }
    push_lit(out, "},\"space\":{\"total\":");
    push_u64(out, sp.total);
    push_lit(out, ",\"used\":");
    push_u64(out, sp.used);
    push_lit(out, "}}");
    proof {
        assert(out@ =~= old(out)@ + enc_space(*sp));
    }
}

/// Appends the metric families of one sample.
fn push_families(out: &mut Vec<u8>, m: &crate::node::NodeMetrics)
    ensures
        final(out)@ == old(out)@ + enc_families(m@),
{
    push_cpu(out, &m.cpu);
    push_disk(out, &m.disk);
    push_la(out, &m.la);
    push_net(out, &m.net);
    push_ram(out, &m.ram);
    push_space(out, &m.space);
    proof {
        assert(out@ =~= old(out)@ + enc_families(m@));
    }
}

/// Encodes one node for the wire.
pub fn encode_node(n: &Node) -> (r: Vec<u8>)
    ensures
        r@ == enc_node(n@),
{
    proof {
        reveal_strlit("{\"index\":");
        reveal_strlit(",\"hostname\":\"");
        reveal_strlit("\",\"cpus\":");
        reveal_strlit(",\"ip\":\"");
        reveal_strlit("\",\"online\":");
        reveal_strlit(",\"uptime_seconds\":");
    }
    let mut out: Vec<u8> = Vec::new();
    push_lit(&mut out, "{\"index\":");
    push_u64(&mut out, n.specs.index as u64);
    push_lit(&mut out, ",\"hostname\":\"");
    append_bytes(&mut out, n.specs.hostname.as_slice());
    push_lit(&mut out, "\",\"cpus\":");
    push_u64(&mut out, n.specs.cpus as u64);
    push_lit(&mut out, ",\"ip\":\"");
    append_bytes(&mut out, n.specs.ip.as_slice());
    push_lit(&mut out, "\",\"online\":");
    push_bool(&mut out, n.metrics.online);
    push_lit(&mut out, ",\"uptime_seconds\":");
    push_u64(&mut out, n.metrics.uptime_seconds);
    push_families(&mut out, &n.metrics);
    proof {
        assert(out@ =~= enc_node(n@));
    }
    out
}

/// Encodes a standalone identity record.
pub fn encode_node_specs(v: &NodeSpecs) -> (r: Vec<u8>)
    ensures
        r@ == enc_node_specs(v@),
{
    proof {
        reveal_strlit("{\"index\":");
        reveal_strlit(",\"hostname\":\"");
        reveal_strlit("\",\"cpus\":");
        reveal_strlit(",\"ip\":\"");
        reveal_strlit("\"}");
    }
    let mut out: Vec<u8> = Vec::new();
    push_lit(&mut out, "{\"index\":");
    push_u64(&mut out, v.index as u64);
    push_lit(&mut out, ",\"hostname\":\"");
    append_bytes(&mut out, v.hostname.as_slice());
    push_lit(&mut out, "\",\"cpus\":");
    push_u64(&mut out, v.cpus as u64);
    push_lit(&mut out, ",\"ip\":\"");
    append_bytes(&mut out, v.ip.as_slice());
    push_lit(&mut out, "\"}");
    proof {
        assert(out@ =~= enc_node_specs(v@));
    }
    out
}

/// Serializes one outbound frame.
#[verifier::rlimit(60)]
pub fn encode_message(msg: &OutboundMessage) -> (r: Vec<u8>)
    ensures
        r@ == enc_message(msg@.data),
{
    proof {
        reveal_strlit("{\"type\":\"NodeMetrics\",\"data\":[");
        reveal_strlit("{\"type\":\"ClusterMetrics\",\"data\":[");
        reveal_strlit("]}");
        reveal_strlit(",");
    }
    let mut out: Vec<u8> = Vec::new();
    let nodes: &Vec<Node> = match &msg.data {
        MessageData::NodeMetrics(nodes) => {
            push_lit(&mut out, "{\"type\":\"NodeMetrics\",\"data\":[");
            nodes
        },
        MessageData::ClusterMetrics(nodes) => {
            push_lit(&mut out, "{\"type\":\"ClusterMetrics\",\"data\":[");
            nodes
        },
    };
    let ghost head = out@;
    let ghost ns = nodes.deep_view();
    let mut i: usize = 0;
    proof {
        assert(out@ =~= head + enc_node_list(ns.take(0)));
    }
    while i < nodes.len()
        invariant
            i <= nodes@.len(),
            ns == nodes.deep_view(),
            out@ == head + enc_node_list(ns.take(i as int)),
        decreases nodes@.len() - i,
    {
        proof {
            assert(ns.take(i + 1).drop_last() =~= ns.take(i as int));
            assert(ns.take(i + 1).last() == ns[i as int]);
            assert(ns[i as int] == nodes@[i as int]@);
        }
        if i > 0 {
            proof {
                reveal_strlit(",");
            }
            push_lit(&mut out, ",");
        }
        let piece = encode_node(&nodes[i]);
        append_bytes(&mut out, piece.as_slice());
        i = i + 1;
        proof {
            assert(out@ =~= head + enc_node_list(ns.take(i as int)));
        }
    }
    proof {
        assert(ns.take(ns.len() as int) =~= ns);
    }
    push_lit(&mut out, "]}");
    proof {
        assert(out@ =~= enc_message(msg@.data));
    }
    out
}

/// Encodes the subscribe command.
pub fn encode_command(tf: Timeframe) -> (r: Vec<u8>)
    ensures
        r@ == enc_command(tf),
{
    proof {
        reveal_strlit("{\"subscribe_to\":\"OverviewOneSecond\"}");
        reveal_strlit("{\"subscribe_to\":\"OverviewFiveSeconds\"}");
        reveal_strlit("{\"subscribe_to\":\"OverviewFifteenSeconds\"}");
    }
    match tf {
        Timeframe::OverviewOneSecond => crate::ascii_to_bytes(
            "{\"subscribe_to\":\"OverviewOneSecond\"}",
        ),
        Timeframe::OverviewFiveSeconds => crate::ascii_to_bytes(
            "{\"subscribe_to\":\"OverviewFiveSeconds\"}",
        ),
        Timeframe::OverviewFifteenSeconds => crate::ascii_to_bytes(
            "{\"subscribe_to\":\"OverviewFifteenSeconds\"}",
        ),
    }
}

/// What an inbound text frame denotes: one of the three subscribe
/// commands, byte for byte.
pub open spec fn command_of(s: Seq<u8>) -> Option<Timeframe> {
    if s == enc_command(Timeframe::OverviewOneSecond) {
        Some(Timeframe::OverviewOneSecond)
    } else if s == enc_command(Timeframe::OverviewFiveSeconds) {
        Some(Timeframe::OverviewFiveSeconds)
    } else if s == enc_command(Timeframe::OverviewFifteenSeconds) {
        Some(Timeframe::OverviewFifteenSeconds)
    } else {
        None
    }
}

/// Reads an inbound subscribe command; anything else is refused.
pub fn decode_command(s: &[u8]) -> (r: Option<Timeframe>)
    ensures
        r == command_of(s@),
{
    proof {
        reveal_strlit("{\"subscribe_to\":\"OverviewOneSecond\"}");
        reveal_strlit("{\"subscribe_to\":\"OverviewFiveSeconds\"}");
        reveal_strlit("{\"subscribe_to\":\"OverviewFifteenSeconds\"}");
    }
    let one = crate::ascii_to_bytes("{\"subscribe_to\":\"OverviewOneSecond\"}");
    let five = crate::ascii_to_bytes("{\"subscribe_to\":\"OverviewFiveSeconds\"}");
    let fifteen = crate::ascii_to_bytes("{\"subscribe_to\":\"OverviewFifteenSeconds\"}");
    if crate::text::bytes_eq(s, one.as_slice()) {
        Some(Timeframe::OverviewOneSecond)
    } else if crate::text::bytes_eq(s, five.as_slice()) {
        Some(Timeframe::OverviewFiveSeconds)
    } else if crate::text::bytes_eq(s, fifteen.as_slice()) {
        Some(Timeframe::OverviewFifteenSeconds)
    } else {
        None
    }
}

// ---------------------------------------------------------------
// Decoding: a positional parser over the same grammar, stated as
// spec functions, mirrored by executable decoders, and proved to
// invert the encoders on plain text.
// ---------------------------------------------------------------

/// Whether `lit` occurs in `s` at offset `pos`.
pub open spec fn lit_at(s: Seq<u8>, pos: int, lit: Seq<u8>) -> bool {
    0 <= pos && pos + lit.len() <= s.len() && s.subrange(pos, pos + lit.len()) == lit
}

/// Length of the digit run at `pos`.
pub open spec fn num_len_at(s: Seq<u8>, pos: int) -> int {
    crate::text::digit_prefix_len(s.skip(pos))
}

/// Whether a u64 number starts at `pos`.
pub open spec fn num_at(s: Seq<u8>, pos: int) -> bool {
    0 <= pos <= s.len() && num_len_at(s, pos) > 0 && crate::text::digits_val(
        s.subrange(pos, pos + num_len_at(s, pos)),
    ) <= u64::MAX
}

/// The number starting at `pos`.
pub open spec fn num_val_at(s: Seq<u8>, pos: int) -> int {
    crate::text::digits_val(s.subrange(pos, pos + num_len_at(s, pos)))
}

/// Length of the leading run without a double quote.
pub open spec fn nonquote_prefix_len(t: Seq<u8>) -> int
    decreases t.len(),
{
    if t.len() == 0 || t[0] == 34 {
        0
    } else {
        1 + nonquote_prefix_len(t.drop_first())
    }
}

/// Length of the quoteless text at `pos`.
pub open spec fn text_len_at(s: Seq<u8>, pos: int) -> int {
    nonquote_prefix_len(s.skip(pos))
}

/// Consuming a literal that is there.
proof fn lemma_lit_step(s: Seq<u8>, pos: int, lit: Seq<u8>, rest: Seq<u8>)
    requires
        0 <= pos <= s.len(),
        s.skip(pos) == lit + rest,
    ensures
        lit_at(s, pos, lit),
        pos + lit.len() <= s.len(),
        s.skip(pos + lit.len()) == rest,
{
    assert(s.skip(pos).len() == s.len() - pos);
    assert(pos + lit.len() + rest.len() == s.len());
    assert forall|i: int| 0 <= i < lit.len() implies s.subrange(pos, pos + lit.len())[i]
        == lit[i] by {
        assert(s.skip(pos)[i] == (lit + rest)[i]);
        assert(s.skip(pos)[i] == s[pos + i]);
        assert(s.subrange(pos, pos + lit.len())[i] == s[pos + i]);
    }
    assert(s.subrange(pos, pos + lit.len()) =~= lit);
    assert forall|i: int| 0 <= i < rest.len() implies s.skip(pos + lit.len())[i] == rest[i] by {
        assert(s.skip(pos)[lit.len() + i] == (lit + rest)[lit.len() + i]);
        assert(s.skip(pos)[lit.len() + i] == s[pos + lit.len() + i]);
        assert(s.skip(pos + lit.len())[i] == s[pos + lit.len() + i]);
    }
    assert(s.skip(pos + lit.len()) =~= rest);
}

/// Consuming a rendered number followed by a non-digit.
proof fn lemma_num_step(s: Seq<u8>, pos: int, n: u64, rest: Seq<u8>)
    requires
        0 <= pos <= s.len(),
        s.skip(pos) == dec_digits(n as int) + rest,
        rest.len() > 0,
        !crate::ascii_digit(rest[0]),
    ensures
        num_at(s, pos),
        num_len_at(s, pos) == dec_digits(n as int).len(),
        num_val_at(s, pos) == n,
        pos + dec_digits(n as int).len() <= s.len(),
        s.skip(pos + dec_digits(n as int).len()) == rest,
{
    let d = dec_digits(n as int);
    crate::text::lemma_dec_digits_round_trip(n as int);
    crate::text::lemma_digit_prefix_concat(d, rest);
    lemma_lit_step(s, pos, d, rest);
    assert(s.subrange(pos, pos + num_len_at(s, pos)) == d);
}

/// A quote-free run followed by a quote scans to exactly its end.
proof fn lemma_nonquote_concat(c: Seq<u8>, rest: Seq<u8>)
    requires
        plain(c),
        rest.len() > 0,
        rest[0] == 34,
    ensures
        nonquote_prefix_len(c + rest) == c.len(),
    decreases c.len(),
{
    if c.len() == 0 {
        assert(c + rest =~= rest);
    } else {
        assert((c + rest)[0] == c[0]);
        assert((c + rest).drop_first() =~= c.drop_first() + rest);
        assert(plain(c.drop_first()));
        lemma_nonquote_concat(c.drop_first(), rest);
    }
}

/// Consuming quoteless text up to the closing quote.
proof fn lemma_text_step(s: Seq<u8>, pos: int, content: Seq<u8>, rest: Seq<u8>)
    requires
        0 <= pos <= s.len(),
        s.skip(pos) == content + rest,
        plain(content),
        rest.len() > 0,
        rest[0] == 34,
    ensures
        text_len_at(s, pos) == content.len(),
        s.subrange(pos, pos + content.len()) == content,
        pos + content.len() <= s.len(),
        s.skip(pos + content.len()) == rest,
{
    lemma_nonquote_concat(content, rest);
    lemma_lit_step(s, pos, content, rest);
}

/// The text at `pos`, up to the next quote.
pub open spec fn text_val_at(s: Seq<u8>, pos: int) -> Seq<u8> {
    s.subrange(pos, pos + text_len_at(s, pos))
}

/// Whether a bool keyword starts at `pos`, and which.
pub open spec fn bool_at(s: Seq<u8>, pos: int) -> Option<bool> {
    if lit_at(s, pos, lit_bytes("true"@)) {
        Some(true)
    } else if lit_at(s, pos, lit_bytes("false"@)) {
        Some(false)
    } else {
        None
    }
}

/// Consuming a rendered bool.
proof fn lemma_bool_step(s: Seq<u8>, pos: int, b: bool, rest: Seq<u8>)
    requires
        0 <= pos <= s.len(),
        s.skip(pos) == enc_bool(b) + rest,
    ensures
        bool_at(s, pos) == Some(b),
        pos + enc_bool(b).len() <= s.len(),
        s.skip(pos + enc_bool(b).len()) == rest,
{
    reveal_strlit("true");
    reveal_strlit("false");
    lemma_lit_step(s, pos, enc_bool(b), rest);
    if b {
        assert(lit_at(s, pos, lit_bytes("true"@)));
    } else {
        assert(!lit_at(s, pos, lit_bytes("true"@))) by {
            if lit_at(s, pos, lit_bytes("true"@)) {
                assert(s.subrange(pos, pos + 4)[0] == s[pos]);
                assert(s.skip(pos)[0] == s[pos]);
            }
        }
        assert(lit_at(s, pos, lit_bytes("false"@)));
    }
}

/// One literal-then-number field; the workhorse of every record.
pub open spec fn field_after(s: Seq<u8>, pos: int, key: Seq<u8>) -> Option<(u64, int)> {
    if lit_at(s, pos, key) && num_at(s, pos + key.len()) {
        Some(
            (
                num_val_at(s, pos + key.len()) as u64,
                pos + key.len() + num_len_at(s, pos + key.len()),
            ),
        )
    } else {
        None
    }
}

/// Consuming a whole key-and-number field of the encodings.
proof fn lemma_field_step(s: Seq<u8>, pos: int, key: Seq<u8>, n: u64, rest: Seq<u8>)
    requires
        0 <= pos <= s.len(),
        s.skip(pos) == key + dec_digits(n as int) + rest,
        rest.len() > 0,
        !crate::ascii_digit(rest[0]),
    ensures
        field_after(s, pos, key) == Some((n, pos + key.len() + dec_digits(n as int).len())),
        pos + key.len() + dec_digits(n as int).len() <= s.len(),
        s.skip(pos + key.len() + dec_digits(n as int).len()) == rest,
{
    assert(s.skip(pos) =~= key + (dec_digits(n as int) + rest));
    lemma_lit_step(s, pos, key, dec_digits(n as int) + rest);
    lemma_num_step(s, pos + key.len(), n, rest);
}

/// Reads back the cpu object written by `enc_cpu`.
pub open spec fn dec_cpu(s: Seq<u8>, pos: int) -> Option<(crate::cpu::CpuMetrics, int)> {
    match field_after(s, pos, lit_bytes(",\"cpu\":{\"cpu_usage\":"@)) {
        None => None,
        Some((cpu_usage, p1)) => match field_after(s, p1, lit_bytes(",\"user\":"@)) {
            None => None,
            Some((user, p2)) => match field_after(s, p2, lit_bytes(",\"nice\":"@)) {
                None => None,
                Some((nice, p3)) => match field_after(s, p3, lit_bytes(",\"system\":"@)) {
                    None => None,
                    Some((system, p4)) => match field_after(s, p4, lit_bytes(",\"idle\":"@)) {
                        None => None,
                        Some((idle, p5)) => match field_after(s, p5, lit_bytes(",\"iowait\":"@)) {
                            None => None,
                            Some((iowait, p6)) => match field_after(
                                s,
                                p6,
                                lit_bytes(",\"irq\":"@),
                            ) {
                                None => None,
                                Some((irq, p7)) => match field_after(
                                    s,
                                    p7,
                                    lit_bytes(",\"softirq\":"@),
                                ) {
                                    None => None,
                                    Some((softirq, p8)) => Some(
                                        (
                                            crate::cpu::CpuMetrics {
                                                cpu_usage,
                                                user,
                                                nice,
                                                system,
                                                idle,
                                                iowait,
                                                irq,
                                                softirq,
                                            },
                                            p8,
                                        ),
                                    ),
                                },
                            },
                        },
                    },
                },
            },
        },
    }
}

/// `dec_cpu` inverts `enc_cpu` whenever a non-digit follows.
#[verifier::rlimit(100)]
proof fn lemma_dec_cpu(s: Seq<u8>, pos: int, c: crate::cpu::CpuMetrics, rest: Seq<u8>)
    requires
        0 <= pos <= s.len(),
        s.skip(pos) == enc_cpu(c) + rest,
        rest.len() > 0,
        !crate::ascii_digit(rest[0]),
    ensures
        dec_cpu(s, pos) == Some((c, pos + enc_cpu(c).len())),
        pos + enc_cpu(c).len() <= s.len(),
        s.skip(pos + enc_cpu(c).len()) == rest,
{
    reveal_strlit(",\"cpu\":{\"cpu_usage\":");
    reveal_strlit(",\"user\":");
    reveal_strlit(",\"nice\":");
    reveal_strlit(",\"system\":");
    reveal_strlit(",\"idle\":");
    reveal_strlit(",\"iowait\":");
    reveal_strlit(",\"irq\":");
    reveal_strlit(",\"softirq\":");
    let k1 = lit_bytes(",\"cpu\":{\"cpu_usage\":"@);
    let k2 = lit_bytes(",\"user\":"@);
    let k3 = lit_bytes(",\"nice\":"@);
    let k4 = lit_bytes(",\"system\":"@);
    let k5 = lit_bytes(",\"idle\":"@);
    let k6 = lit_bytes(",\"iowait\":"@);
    let k7 = lit_bytes(",\"irq\":"@);
    let k8 = lit_bytes(",\"softirq\":"@);
    let d1 = dec_digits(c.cpu_usage as int);
    let d2 = dec_digits(c.user as int);
    let d3 = dec_digits(c.nice as int);
    let d4 = dec_digits(c.system as int);
    let d5 = dec_digits(c.idle as int);
    let d6 = dec_digits(c.irq as int);
    let d7 = dec_digits(c.softirq as int);
    let r8 = rest;
    let r7 = k8 + dec_digits(c.softirq as int) + r8;
    let r6 = k7 + dec_digits(c.irq as int) + r7;
    let r5 = k6 + dec_digits(c.iowait as int) + r6;
    let r4 = k5 + dec_digits(c.idle as int) + r5;
    let r3 = k4 + dec_digits(c.system as int) + r4;
    let r2 = k3 + dec_digits(c.nice as int) + r3;
    let r1 = k2 + dec_digits(c.user as int) + r2;
    assert(s.skip(pos) =~= k1 + dec_digits(c.cpu_usage as int) + r1);
    lemma_field_step(s, pos, k1, c.cpu_usage, r1);
    let p1: int = pos + k1.len() + dec_digits(c.cpu_usage as int).len();
    lemma_field_step(s, p1, k2, c.user, r2);
    let p2: int = p1 + k2.len() + dec_digits(c.user as int).len();
    lemma_field_step(s, p2, k3, c.nice, r3);
    let p3: int = p2 + k3.len() + dec_digits(c.nice as int).len();
    lemma_field_step(s, p3, k4, c.system, r4);
    let p4: int = p3 + k4.len() + dec_digits(c.system as int).len();
    lemma_field_step(s, p4, k5, c.idle, r5);
    let p5: int = p4 + k5.len() + dec_digits(c.idle as int).len();
    lemma_field_step(s, p5, k6, c.iowait, r6);
    let p6: int = p5 + k6.len() + dec_digits(c.iowait as int).len();
    lemma_field_step(s, p6, k7, c.irq, r7);
    let p7: int = p6 + k7.len() + dec_digits(c.irq as int).len();
    lemma_field_step(s, p7, k8, c.softirq, r8);
}

/// Reads back the disk object written by `enc_disk`.
pub open spec fn dec_disk(s: Seq<u8>, pos: int) -> Option<(crate::disk::DiskMetrics, int)> {
    match field_after(s, pos, lit_bytes("},\"disk\":{\"write_throughput\":"@)) {
        None => None,
        Some((write_throughput, p1)) => 
        match field_after(s, p1, lit_bytes(",\"read_throughput\":"@)) {
            None => None,
            Some((read_throughput, p2)) => 
            Some((crate::disk::DiskMetrics { write_throughput, read_throughput }, p2))
            ,}
        ,}
}

/// `dec_disk` inverts `enc_disk` whenever a non-digit follows.
#[verifier::rlimit(100)]
proof fn lemma_dec_disk(s: Seq<u8>, pos: int, c: crate::disk::DiskMetrics, rest: Seq<u8>)
    requires
        0 <= pos <= s.len(),
        s.skip(pos) == enc_disk(c) + rest,
        rest.len() > 0,
        !crate::ascii_digit(rest[0]),
    ensures
        dec_disk(s, pos) == Some((c, pos + enc_disk(c).len())),
        pos + enc_disk(c).len() <= s.len(),
        s.skip(pos + enc_disk(c).len()) == rest,
{
    reveal_strlit("},\"disk\":{\"write_throughput\":");
    reveal_strlit(",\"read_throughput\":");
    let k1 = lit_bytes("},\"disk\":{\"write_throughput\":"@);
    let k2 = lit_bytes(",\"read_throughput\":"@);
    let r2 = rest;
    let r1 = k2 + dec_digits(c.read_throughput as int) + r2;
    assert(s.skip(pos) =~= k1 + dec_digits(c.write_throughput as int) + r1);
    lemma_field_step(s, pos, k1, c.write_throughput, r1);
    let p1: int = pos + k1.len() + dec_digits(c.write_throughput as int).len();
    lemma_field_step(s, p1, k2, c.read_throughput, r2);
    let p2: int = p1 + k2.len() + dec_digits(c.read_throughput as int).len();
}

/// Reads back the la object written by `enc_la`.
pub open spec fn dec_la(s: Seq<u8>, pos: int) -> Option<(crate::la::LaMetrics, int)> {
    match field_after(s, pos, lit_bytes("},\"la\":{\"load_average\":"@)) {
        None => None,
        Some((load_average, p1)) => 
        Some((crate::la::LaMetrics { load_average }, p1))
        ,}
}

/// `dec_la` inverts `enc_la` whenever a non-digit follows.
#[verifier::rlimit(100)]
proof fn lemma_dec_la(s: Seq<u8>, pos: int, c: crate::la::LaMetrics, rest: Seq<u8>)
    requires
        0 <= pos <= s.len(),
        s.skip(pos) == enc_la(c) + rest,
        rest.len() > 0,
        !crate::ascii_digit(rest[0]),
    ensures
        dec_la(s, pos) == Some((c, pos + enc_la(c).len())),
        pos + enc_la(c).len() <= s.len(),
        s.skip(pos + enc_la(c).len()) == rest,
{
    reveal_strlit("},\"la\":{\"load_average\":");
    let k1 = lit_bytes("},\"la\":{\"load_average\":"@);
    let r1 = rest;
    assert(s.skip(pos) =~= k1 + dec_digits(c.load_average as int) + r1);
    lemma_field_step(s, pos, k1, c.load_average, r1);
    let p1: int = pos + k1.len() + dec_digits(c.load_average as int).len();
}

/// Reads back the net object written by `enc_net`.
pub open spec fn dec_net(s: Seq<u8>, pos: int) -> Option<(crate::network::NetMetrics, int)> {
    match field_after(s, pos, lit_bytes("},\"net\":{\"up_bandwidth\":"@)) {
        None => None,
        Some((up_bandwidth, p1)) => 
        match field_after(s, p1, lit_bytes(",\"down_bandwidth\":"@)) {
            None => None,
            Some((down_bandwidth, p2)) => 
            Some((crate::network::NetMetrics { up_bandwidth, down_bandwidth }, p2))
            ,}
        ,}
}

/// `dec_net` inverts `enc_net` whenever a non-digit follows.
#[verifier::rlimit(100)]
proof fn lemma_dec_net(s: Seq<u8>, pos: int, c: crate::network::NetMetrics, rest: Seq<u8>)
    requires
        0 <= pos <= s.len(),
        s.skip(pos) == enc_net(c) + rest,
        rest.len() > 0,
        !crate::ascii_digit(rest[0]),
    ensures
        dec_net(s, pos) == Some((c, pos + enc_net(c).len())),
        pos + enc_net(c).len() <= s.len(),
        s.skip(pos + enc_net(c).len()) == rest,
{
    reveal_strlit("},\"net\":{\"up_bandwidth\":");
    reveal_strlit(",\"down_bandwidth\":");
    let k1 = lit_bytes("},\"net\":{\"up_bandwidth\":"@);
    let k2 = lit_bytes(",\"down_bandwidth\":"@);
    let r2 = rest;
    let r1 = k2 + dec_digits(c.down_bandwidth as int) + r2;
    assert(s.skip(pos) =~= k1 + dec_digits(c.up_bandwidth as int) + r1);
    lemma_field_step(s, pos, k1, c.up_bandwidth, r1);
    let p1: int = pos + k1.len() + dec_digits(c.up_bandwidth as int).len();
    lemma_field_step(s, p1, k2, c.down_bandwidth, r2);
    let p2: int = p1 + k2.len() + dec_digits(c.down_bandwidth as int).len();
}

/// Reads back the ram object written by `enc_ram`.
pub open spec fn dec_ram(s: Seq<u8>, pos: int) -> Option<(crate::ram::RamMetrics, int)> {
    match field_after(s, pos, lit_bytes("},\"ram\":{\"mem_total\":"@)) {
        None => None,
        Some((mem_total, p1)) => 
        match field_after(s, p1, lit_bytes(",\"mem_used\":"@)) {
            None => None,
            Some((mem_used, p2)) => 
            match field_after(s, p2, lit_bytes(",\"mem_buffers\":"@)) {
                None => None,
                Some((mem_buffers, p3)) => 
                match field_after(s, p3, lit_bytes(",\"mem_cached\":"@)) {
                    None => None,
                    Some((mem_cached, p4)) => 
                    Some((crate::ram::RamMetrics { mem_total, mem_used, mem_buffers, mem_cached }, p4))
                    ,}
                ,}
            ,}
        ,}
}

/// `dec_ram` inverts `enc_ram` whenever a non-digit follows.
#[verifier::rlimit(100)]
proof fn lemma_dec_ram(s: Seq<u8>, pos: int, c: crate::ram::RamMetrics, rest: Seq<u8>)
    requires
        0 <= pos <= s.len(),
        s.skip(pos) == enc_ram(c) + rest,
        rest.len() > 0,
        !crate::ascii_digit(rest[0]),
    ensures
        dec_ram(s, pos) == Some((c, pos + enc_ram(c).len())),
        pos + enc_ram(c).len() <= s.len(),
        s.skip(pos + enc_ram(c).len()) == rest,
{
    reveal_strlit("},\"ram\":{\"mem_total\":");
    reveal_strlit(",\"mem_used\":");
    reveal_strlit(",\"mem_buffers\":");
    reveal_strlit(",\"mem_cached\":");
    let k1 = lit_bytes("},\"ram\":{\"mem_total\":"@);
    let k2 = lit_bytes(",\"mem_used\":"@);
    let k3 = lit_bytes(",\"mem_buffers\":"@);
    let k4 = lit_bytes(",\"mem_cached\":"@);
    let r4 = rest;
    let r3 = k4 + dec_digits(c.mem_cached as int) + r4;
    let r2 = k3 + dec_digits(c.mem_buffers as int) + r3;
    let r1 = k2 + dec_digits(c.mem_used as int) + r2;
    assert(s.skip(pos) =~= k1 + dec_digits(c.mem_total as int) + r1);
    lemma_field_step(s, pos, k1, c.mem_total, r1);
    let p1: int = pos + k1.len() + dec_digits(c.mem_total as int).len();
    lemma_field_step(s, p1, k2, c.mem_used, r2);
    let p2: int = p1 + k2.len() + dec_digits(c.mem_used as int).len();
    lemma_field_step(s, p2, k3, c.mem_buffers, r3);
    let p3: int = p2 + k3.len() + dec_digits(c.mem_buffers as int).len();
    lemma_field_step(s, p3, k4, c.mem_cached, r4);
    let p4: int = p3 + k4.len() + dec_digits(c.mem_cached as int).len();
}

/// Reads back the space object written by `enc_space`.
pub open spec fn dec_space(s: Seq<u8>, pos: int) -> Option<(crate::space::SpaceMetrics, int)> {
    match field_after(s, pos, lit_bytes("},\"space\":{\"total\":"@)) {
        None => None,
        Some((total, p1)) => 
        match field_after(s, p1, lit_bytes(",\"used\":"@)) {
            None => None,
            Some((used, p2)) => 
            if lit_at(s, p2, lit_bytes("}}"@)) {
                Some((crate::space::SpaceMetrics { total, used }, p2 + lit_bytes("}}"@).len()))
            } else {
                None
            }
            ,}
        ,}
}

/// `dec_space` inverts `enc_space`.
#[verifier::rlimit(100)]
proof fn lemma_dec_space(s: Seq<u8>, pos: int, c: crate::space::SpaceMetrics, rest: Seq<u8>)
    requires
        0 <= pos <= s.len(),
        s.skip(pos) == enc_space(c) + rest,
    ensures
        dec_space(s, pos) == Some((c, pos + enc_space(c).len())),
        pos + enc_space(c).len() <= s.len(),
        s.skip(pos + enc_space(c).len()) == rest,
{
    reveal_strlit("},\"space\":{\"total\":");
    reveal_strlit(",\"used\":");
    reveal_strlit("}}");
    let k1 = lit_bytes("},\"space\":{\"total\":"@);
    let k2 = lit_bytes(",\"used\":"@);
    let r2 = lit_bytes("}}"@) + rest;
    let r1 = k2 + dec_digits(c.used as int) + r2;
    assert(s.skip(pos) =~= k1 + dec_digits(c.total as int) + r1);
    lemma_field_step(s, pos, k1, c.total, r1);
    let p1: int = pos + k1.len() + dec_digits(c.total as int).len();
    lemma_field_step(s, p1, k2, c.used, r2);
    let p2: int = p1 + k2.len() + dec_digits(c.used as int).len();
    lemma_lit_step(s, p2, lit_bytes("}}"@), rest);
}

/// Reads back all six metric family objects in order.
pub open spec fn dec_families(s: Seq<u8>, pos: int) -> Option<
    (
        crate::cpu::CpuMetrics,
        crate::disk::DiskMetrics,
        crate::la::LaMetrics,
        crate::network::NetMetrics,
        crate::ram::RamMetrics,
        crate::space::SpaceMetrics,
        int,
    ),
> {
    match dec_cpu(s, pos) {
        None => None,
        Some((cpu, p1)) => match dec_disk(s, p1) {
            None => None,
            Some((disk, p2)) => match dec_la(s, p2) {
                None => None,
                Some((la, p3)) => match dec_net(s, p3) {
                    None => None,
                    Some((net, p4)) => match dec_ram(s, p4) {
                        None => None,
                        Some((ram, p5)) => match dec_space(s, p5) {
                            None => None,
                            Some((space, p6)) => Some((cpu, disk, la, net, ram, space, p6)),
                        },
                    },
                },
            },
        },
    }
}

/// `dec_families` inverts `enc_families`.
#[verifier::rlimit(100)]
proof fn lemma_dec_families(s: Seq<u8>, pos: int, m: NodeMetricsV, rest: Seq<u8>)
    requires
        0 <= pos <= s.len(),
        s.skip(pos) == enc_families(m) + rest,
    ensures
        dec_families(s, pos) == Some(
            (m.cpu, m.disk, m.la, m.net, m.ram, m.space, pos + enc_families(m).len()),
        ),
        pos + enc_families(m).len() <= s.len(),
        s.skip(pos + enc_families(m).len()) == rest,
{
    reveal_strlit("},\"disk\":{\"write_throughput\":");
    reveal_strlit("},\"la\":{\"load_average\":");
    reveal_strlit("},\"net\":{\"up_bandwidth\":");
    reveal_strlit("},\"ram\":{\"mem_total\":");
    reveal_strlit("},\"space\":{\"total\":");
    let r5 = rest;
    let r4 = enc_space(m.space) + r5;
    let r3 = enc_ram(m.ram) + r4;
    let r2 = enc_net(m.net) + r3;
    let r1 = enc_la(m.la) + r2;
    let r0 = enc_disk(m.disk) + r1;
    assert(s.skip(pos) =~= enc_cpu(m.cpu) + r0);
    assert(r0[0] == 125);
    lemma_dec_cpu(s, pos, m.cpu, r0);
    let p1: int = pos + enc_cpu(m.cpu).len();
    assert(r1[0] == 125);
    lemma_dec_disk(s, p1, m.disk, r1);
    let p2: int = p1 + enc_disk(m.disk).len();
    assert(r2[0] == 125);
    lemma_dec_la(s, p2, m.la, r2);
    let p3: int = p2 + enc_la(m.la).len();
    assert(r3[0] == 125);
    lemma_dec_net(s, p3, m.net, r3);
    let p4: int = p3 + enc_net(m.net).len();
    assert(r4[0] == 125);
    lemma_dec_ram(s, p4, m.ram, r4);
    let p5: int = p4 + enc_ram(m.ram).len();
    lemma_dec_space(s, p5, m.space, r5);
}

/// Reads back an identity record written by `enc_node_specs`.
pub open spec fn dec_node_specs(s: Seq<u8>) -> Option<NodeSpecsV> {
    match field_after(s, 0, lit_bytes("{\"index\":"@)) {
        None => None,
        Some((index, p1)) => if index > 255 || !lit_at(s, p1, lit_bytes(",\"hostname\":\""@)) {
            None
        } else {
            let p2: int = p1 + lit_bytes(",\"hostname\":\""@).len();
            let hostname = text_val_at(s, p2);
            let p3: int = p2 + text_len_at(s, p2);
            match field_after(s, p3, lit_bytes("\",\"cpus\":"@)) {
                None => None,
                Some((cpus, p4)) => if cpus > 65535 || !lit_at(s, p4, lit_bytes(",\"ip\":\""@)) {
                    None
                } else {
                    let p5: int = p4 + lit_bytes(",\"ip\":\""@).len();
                    let ip = text_val_at(s, p5);
                    let p6: int = p5 + text_len_at(s, p5);
                    if lit_at(s, p6, lit_bytes("\"}"@)) && p6 + lit_bytes("\"}"@).len() == s.len() {
                        Some(NodeSpecsV { index: index as u8, hostname, cpus: cpus as u16, ip })
                    } else {
                        None
                    }
                },
            }
        },
    }
}

/// An identity record survives its round trip whenever its hostname
/// and address are plain text.
#[verifier::rlimit(100)]
pub proof fn lemma_node_specs_round_trip(v: NodeSpecsV)
    requires
        plain(v.hostname),
        plain(v.ip),
    ensures
        dec_node_specs(enc_node_specs(v)) == Some(v),
{
    reveal_strlit("{\"index\":");
    reveal_strlit(",\"hostname\":\"");
    reveal_strlit("\",\"cpus\":");
    reveal_strlit(",\"ip\":\"");
    reveal_strlit("\"}");
    let s = enc_node_specs(v);
    let k1 = lit_bytes("{\"index\":"@);
    let k2 = lit_bytes(",\"hostname\":\""@);
    let k3 = lit_bytes("\",\"cpus\":"@);
    let k4 = lit_bytes(",\"ip\":\""@);
    let k5 = lit_bytes("\"}"@);
    let r4 = k5 + Seq::<u8>::empty();
    let r3 = k4 + v.ip + r4;
    let r2 = k3 + dec_digits(v.cpus as int) + r3;
    let r1 = k2 + v.hostname + r2;
    assert(s.skip(0) =~= k1 + dec_digits(v.index as int) + r1);
    lemma_field_step(s, 0, k1, v.index as u64, r1);
    let p1: int = 0int + k1.len() + dec_digits(v.index as int).len();
    assert(s.skip(p1) =~= k2 + (v.hostname + r2));
    lemma_lit_step(s, p1, k2, v.hostname + r2);
    let p2: int = p1 + k2.len();
    lemma_text_step(s, p2, v.hostname, r2);
    let p3: int = p2 + v.hostname.len();
    lemma_field_step(s, p3, k3, v.cpus as u64, r3);
    let p4: int = p3 + k3.len() + dec_digits(v.cpus as int).len();
    assert(s.skip(p4) =~= k4 + (v.ip + r4));
    lemma_lit_step(s, p4, k4, v.ip + r4);
    let p5: int = p4 + k4.len();
    lemma_text_step(s, p5, v.ip, r4);
    let p6: int = p5 + v.ip.len();
    assert(s.skip(p6) =~= k5 + Seq::<u8>::empty());
    lemma_lit_step(s, p6, k5, Seq::<u8>::empty());
    assert(s.skip(p6 + k5.len()).len() == 0);
    assert(p6 + k5.len() == s.len());
}

/// A standalone sample record, hostname and all.
pub open spec fn enc_metrics(m: NodeMetricsV) -> Seq<u8> {
    lit_bytes("{\"hostname\":\""@) + m.hostname + lit_bytes("\",\"online\":"@) + enc_bool(m.online)
        + lit_bytes(",\"uptime_seconds\":"@) + dec_digits(m.uptime_seconds as int) + enc_families(
        m,
    )
}

/// Encodes a standalone sample record.
pub fn encode_node_metrics(m: &crate::node::NodeMetrics) -> (r: Vec<u8>)
    ensures
        r@ == enc_metrics(m@),
{
    proof {
        reveal_strlit("{\"hostname\":\"");
        reveal_strlit("\",\"online\":");
        reveal_strlit(",\"uptime_seconds\":");
    }
    let mut out: Vec<u8> = Vec::new();
    push_lit(&mut out, "{\"hostname\":\"");
    append_bytes(&mut out, m.hostname.as_slice());
    push_lit(&mut out, "\",\"online\":");
    push_bool(&mut out, m.online);
    push_lit(&mut out, ",\"uptime_seconds\":");
    push_u64(&mut out, m.uptime_seconds);
    push_families(&mut out, m);
    proof {
        assert(out@ =~= enc_metrics(m@));
    }
    out
}

/// Reads back a sample record written by `enc_metrics`.
pub open spec fn dec_metrics(s: Seq<u8>) -> Option<NodeMetricsV> {
    if !lit_at(s, 0, lit_bytes("{\"hostname\":\""@)) {
        None
    } else {
        let p1: int = lit_bytes("{\"hostname\":\""@).len() as int;
        let hostname = text_val_at(s, p1);
        let p2: int = p1 + text_len_at(s, p1);
        if !lit_at(s, p2, lit_bytes("\",\"online\":"@)) {
            None
        } else {
            let p3: int = p2 + lit_bytes("\",\"online\":"@).len();
            match bool_at(s, p3) {
                None => None,
                Some(online) => {
                    let p4: int = p3 + enc_bool(online).len();
                    match field_after(s, p4, lit_bytes(",\"uptime_seconds\":"@)) {
                        None => None,
                        Some((uptime_seconds, p5)) => match dec_families(s, p5) {
                            None => None,
                            Some((cpu, disk, la, net, ram, space, p6)) => if p6 == s.len() {
                                Some(
                                    NodeMetricsV {
                                        hostname,
                                        online,
                                        uptime_seconds,
                                        cpu,
                                        disk,
                                        la,
                                        net,
                                        ram,
                                        space,
                                    },
                                )
                            } else {
                                None
                            },
                        },
                    }
                },
            }
        }
    }
}

/// A sample record survives its round trip whenever its hostname is
/// plain text.
#[verifier::rlimit(100)]
pub proof fn lemma_metrics_round_trip(m: NodeMetricsV)
    requires
        plain(m.hostname),
    ensures
        dec_metrics(enc_metrics(m)) == Some(m),
{
    reveal_strlit("{\"hostname\":\"");
    reveal_strlit("\",\"online\":");
    reveal_strlit(",\"uptime_seconds\":");
    reveal_strlit(",\"cpu\":{\"cpu_usage\":");
    let s = enc_metrics(m);
    let k1 = lit_bytes("{\"hostname\":\""@);
    let k2 = lit_bytes("\",\"online\":"@);
    let k3 = lit_bytes(",\"uptime_seconds\":"@);
    let r3 = enc_families(m) + Seq::<u8>::empty();
    let r2 = k3 + dec_digits(m.uptime_seconds as int) + r3;
    let r1 = k2 + enc_bool(m.online) + r2;
    assert(s.skip(0) =~= k1 + (m.hostname + r1));
    lemma_lit_step(s, 0, k1, m.hostname + r1);
    let p1: int = 0int + k1.len();
    lemma_text_step(s, p1, m.hostname, r1);
    let p2: int = p1 + m.hostname.len();
    assert(s.skip(p2) =~= k2 + (enc_bool(m.online) + r2));
    lemma_lit_step(s, p2, k2, enc_bool(m.online) + r2);
    let p3: int = p2 + k2.len();
    lemma_bool_step(s, p3, m.online, r2);
    let p4: int = p3 + enc_bool(m.online).len();
    assert(r3[0] == 44);
    lemma_field_step(s, p4, k3, m.uptime_seconds, r3);
    let p5: int = p4 + k3.len() + dec_digits(m.uptime_seconds as int).len();
    assert(s.skip(p5) =~= enc_families(m) + Seq::<u8>::empty());
    lemma_dec_families(s, p5, m, Seq::<u8>::empty());
    assert(p5 + enc_families(m).len() == s.len());
}

/// Reads back one node written by `enc_node`; the shared hostname
/// fills both the identity and the sample.
pub open spec fn dec_node(s: Seq<u8>) -> Option<NodeV> {
    match field_after(s, 0, lit_bytes("{\"index\":"@)) {
        None => None,
        Some((index, p1)) => if index > 255 || !lit_at(s, p1, lit_bytes(",\"hostname\":\""@)) {
            None
        } else {
            let p2: int = p1 + lit_bytes(",\"hostname\":\""@).len();
            let hostname = text_val_at(s, p2);
            let p3: int = p2 + text_len_at(s, p2);
            match field_after(s, p3, lit_bytes("\",\"cpus\":"@)) {
                None => None,
                Some((cpus, p4)) => if cpus > 65535 || !lit_at(s, p4, lit_bytes(",\"ip\":\""@)) {
                    None
                } else {
                    let p5: int = p4 + lit_bytes(",\"ip\":\""@).len();
                    let ip = text_val_at(s, p5);
                    let p6: int = p5 + text_len_at(s, p5);
                    if !lit_at(s, p6, lit_bytes("\",\"online\":"@)) {
                        None
                    } else {
                        let p7: int = p6 + lit_bytes("\",\"online\":"@).len();
                        match bool_at(s, p7) {
                            None => None,
                            Some(online) => {
                                let p8: int = p7 + enc_bool(online).len();
                                match field_after(s, p8, lit_bytes(",\"uptime_seconds\":"@)) {
                                    None => None,
                                    Some((uptime_seconds, p9)) => match dec_families(s, p9) {
                                        None => None,
                                        Some((cpu, disk, la, net, ram, space, p10)) => if p10
                                            == s.len() {
                                            Some(
                                                NodeV {
                                                    specs: NodeSpecsV {
                                                        index: index as u8,
                                                        hostname,
                                                        cpus: cpus as u16,
                                                        ip,
                                                    },
                                                    metrics: NodeMetricsV {
                                                        hostname,
                                                        online,
                                                        uptime_seconds,
                                                        cpu,
                                                        disk,
                                                        la,
                                                        net,
                                                        ram,
                                                        space,
                                                    },
                                                },
                                            )
                                        } else {
                                            None
                                        },
                                    },
                                }
                            },
                        }
                    }
                },
            }
        },
    }
}

/// The identity prefix of an encoded node parses back to its fields.
#[verifier::rlimit(100)]
proof fn lemma_node_head(n: NodeV)
    requires
        plain(n.specs.hostname),
        plain(n.specs.ip),
    ensures
        ({
            let s = enc_node(n);
            let k1 = lit_bytes("{\"index\":"@);
            let k2 = lit_bytes(",\"hostname\":\""@);
            let k3 = lit_bytes("\",\"cpus\":"@);
            let k4 = lit_bytes(",\"ip\":\""@);
            let k5 = lit_bytes("\",\"online\":"@);
            let k6 = lit_bytes(",\"uptime_seconds\":"@);
            let p1 = k1.len() + dec_digits(n.specs.index as int).len();
            let p2 = p1 + k2.len();
            let p3 = p2 + n.specs.hostname.len();
            let p4 = p3 + k3.len() + dec_digits(n.specs.cpus as int).len();
            let p5 = p4 + k4.len();
            let p6 = p5 + n.specs.ip.len();
            let p7 = p6 + k5.len();
            let p8 = p7 + enc_bool(n.metrics.online).len();
            let p9 = p8 + k6.len() + dec_digits(n.metrics.uptime_seconds as int).len();
            &&& field_after(s, 0, k1) == Some((n.specs.index as u64, p1 as int))
            &&& lit_at(s, p1 as int, k2)
            &&& text_len_at(s, p2 as int) == n.specs.hostname.len()
            &&& text_val_at(s, p2 as int) == n.specs.hostname
            &&& field_after(s, p3 as int, k3) == Some((n.specs.cpus as u64, p4 as int))
            &&& lit_at(s, p4 as int, k4)
            &&& text_len_at(s, p5 as int) == n.specs.ip.len()
            &&& text_val_at(s, p5 as int) == n.specs.ip
            &&& lit_at(s, p6 as int, k5)
            &&& bool_at(s, p7 as int) == Some(n.metrics.online)
            &&& field_after(s, p8 as int, k6) == Some(
                (n.metrics.uptime_seconds, p9 as int),
            )
            &&& s.skip(p9 as int) == enc_families(n.metrics) + Seq::<u8>::empty()
            &&& p9 + enc_families(n.metrics).len() == s.len()
        }),
{
    reveal_strlit("{\"index\":");
    reveal_strlit(",\"hostname\":\"");
    reveal_strlit("\",\"cpus\":");
    reveal_strlit(",\"ip\":\"");
    reveal_strlit("\",\"online\":");
    reveal_strlit(",\"uptime_seconds\":");
    reveal_strlit(",\"cpu\":{\"cpu_usage\":");
    let s = enc_node(n);
    let k1 = lit_bytes("{\"index\":"@);
    let k2 = lit_bytes(",\"hostname\":\""@);
    let k3 = lit_bytes("\",\"cpus\":"@);
    let k4 = lit_bytes(",\"ip\":\""@);
    let k5 = lit_bytes("\",\"online\":"@);
    let k6 = lit_bytes(",\"uptime_seconds\":"@);
    let r6 = enc_families(n.metrics) + Seq::<u8>::empty();
    let r5 = k6 + dec_digits(n.metrics.uptime_seconds as int) + r6;
    let r4 = k5 + enc_bool(n.metrics.online) + r5;
    let r3 = k4 + n.specs.ip + r4;
    let r2 = k3 + dec_digits(n.specs.cpus as int) + r3;
    let r1 = k2 + n.specs.hostname + r2;
    assert(s.skip(0) =~= k1 + dec_digits(n.specs.index as int) + r1);
    lemma_field_step(s, 0, k1, n.specs.index as u64, r1);
    let p1: int = 0int + k1.len() + dec_digits(n.specs.index as int).len();
    assert(s.skip(p1) =~= k2 + (n.specs.hostname + r2));
    lemma_lit_step(s, p1, k2, n.specs.hostname + r2);
    let p2: int = p1 + k2.len();
    lemma_text_step(s, p2, n.specs.hostname, r2);
    let p3: int = p2 + n.specs.hostname.len();
    lemma_field_step(s, p3, k3, n.specs.cpus as u64, r3);
    let p4: int = p3 + k3.len() + dec_digits(n.specs.cpus as int).len();
    assert(s.skip(p4) =~= k4 + (n.specs.ip + r4));
    lemma_lit_step(s, p4, k4, n.specs.ip + r4);
    let p5: int = p4 + k4.len();
    lemma_text_step(s, p5, n.specs.ip, r4);
    let p6: int = p5 + n.specs.ip.len();
    assert(s.skip(p6) =~= k5 + (enc_bool(n.metrics.online) + r5));
    lemma_lit_step(s, p6, k5, enc_bool(n.metrics.online) + r5);
    let p7: int = p6 + k5.len();
    lemma_bool_step(s, p7, n.metrics.online, r5);
    let p8: int = p7 + enc_bool(n.metrics.online).len();
    assert(r6[0] == 44);
    lemma_field_step(s, p8, k6, n.metrics.uptime_seconds, r6);
    let p9: int = p8 + k6.len() + dec_digits(n.metrics.uptime_seconds as int).len();
    assert(s.skip(p9) == r6);
    assert(s.skip(p9).len() == r6.len());
}

/// A node survives its round trip whenever its hostname and address
/// are plain text; the wire carries the hostname once, so identity
/// and sample must agree on it.
#[verifier::rlimit(100)]
pub proof fn lemma_node_round_trip(n: NodeV)
    requires
        plain(n.specs.hostname),
        plain(n.specs.ip),
        n.metrics.hostname == n.specs.hostname,
    ensures
        dec_node(enc_node(n)) == Some(n),
{
    lemma_node_head(n);
    let s = enc_node(n);
    let k1 = lit_bytes("{\"index\":"@);
    let k2 = lit_bytes(",\"hostname\":\""@);
    let k3 = lit_bytes("\",\"cpus\":"@);
    let k4 = lit_bytes(",\"ip\":\""@);
    let k5 = lit_bytes("\",\"online\":"@);
    let k6 = lit_bytes(",\"uptime_seconds\":"@);
    let p1: int = 0int + k1.len() + dec_digits(n.specs.index as int).len();
    let p2: int = p1 + k2.len();
    let p3: int = p2 + n.specs.hostname.len();
    let p4: int = p3 + k3.len() + dec_digits(n.specs.cpus as int).len();
    let p5: int = p4 + k4.len();
    let p6: int = p5 + n.specs.ip.len();
    let p7: int = p6 + k5.len();
    let p8: int = p7 + enc_bool(n.metrics.online).len();
    let p9: int = p8 + k6.len() + dec_digits(n.metrics.uptime_seconds as int).len();
    lemma_dec_families(s, p9, n.metrics, Seq::<u8>::empty());
    assert(p9 + enc_families(n.metrics).len() == s.len());
}

/// Consumes one expected literal.
fn eat_lit(s: &[u8], pos: usize, lit: &str) -> (r: Option<usize>)
    requires
        vstd::string::is_ascii(lit),
    ensures
        match r {
            Some(p) => lit_at(s@, pos as int, lit_bytes(lit@)) && p == pos + lit_bytes(
                lit@,
            ).len() && p <= s@.len(),
            None => !lit_at(s@, pos as int, lit_bytes(lit@)),
        },
{
    let lb = crate::ascii_to_bytes(lit);
    let slen = s.len();
    if pos > slen || slen - pos < lb.len() {
        return None;
    }
    let mut j: usize = 0;
    while j < lb.len()
        invariant
            j <= lb@.len(),
            lb@ == lit_bytes(lit@),
            pos + lb@.len() <= s@.len(),
            s@.len() == slen,
            forall|x: int| 0 <= x < j ==> s@[pos + x] == lb@[x],
        decreases lb@.len() - j,
    {
        if s[pos + j] != lb[j] {
            proof {
                assert(s@.subrange(pos as int, pos + lb@.len())[j as int] == s@[pos + j]);
            }
            return None;
        }
        j = j + 1;
    }
    proof {
        assert(s@.subrange(pos as int, pos + lb@.len()) =~= lb@);
    }
    Some(pos + lb.len())
}

/// Consumes the number at `pos`, if one fits in u64.
fn eat_num(s: &[u8], pos: usize) -> (r: Option<(u64, usize)>)
    requires
        pos <= s@.len(),
    ensures
        match r {
            Some((v, p)) => num_at(s@, pos as int) && v == num_val_at(s@, pos as int) && p == pos
                + num_len_at(s@, pos as int) && p <= s@.len(),
            None => !num_at(s@, pos as int),
        },
{
    let ghost t = s@.skip(pos as int);
    let slen = s.len();
    let mut i: usize = pos;
    let mut val: u64 = 0;
    let mut big: bool = false;
    while i < slen && 48 <= s[i] && s[i] <= 57
        invariant
            pos <= i <= slen,
            slen == s@.len(),
            t == s@.skip(pos as int),
            crate::text::all_digits(t.take(i - pos)),
            !big ==> val == crate::text::digits_val(t.take(i - pos)),
            big ==> crate::text::digits_val(t.take(i - pos)) > u64::MAX,
        decreases slen - i,
    {
        proof {
            assert(t.take(i - pos + 1).drop_last() =~= t.take(i - pos));
            assert(t.take(i - pos + 1).last() == t[i - pos]);
            assert(t[i - pos] == s@[i as int]);
        }
        if !big {
            let wide: u128 = (val as u128) * 10 + ((s[i] - 48) as u128);
            if wide > u64::MAX as u128 {
                big = true;
            } else {
                val = wide as u64;
            }
        } else {
            proof {
                crate::text::lemma_digits_val_nonneg(t.take(i - pos));
            }
        }
        i = i + 1;
    }
    proof {
        if i < slen {
            assert(t[i - pos] == s@[i as int]);
        }
        crate::text::lemma_digit_prefix_unique(t, i - pos);
        assert(num_len_at(s@, pos as int) == i - pos);
        assert(s@.subrange(pos as int, pos as int + (i - pos)) =~= t.take(i - pos));
    }
    if i == pos {
        return None;
    }
    if big {
        return None;
    }
    Some((val, i))
}

/// The leading quote-free run stops exactly at the first quote.
proof fn lemma_nonquote_unique(t: Seq<u8>, k: int)
    requires
        0 <= k <= t.len(),
        forall|j: int| 0 <= j < k ==> t[j] != 34,
        k == t.len() || t[k] == 34,
    ensures
        nonquote_prefix_len(t) == k,
    decreases t.len(),
{
    if k == 0 {
    } else {
        assert(t[0] != 34);
        let u = t.drop_first();
        assert(forall|j: int| 0 <= j < k - 1 ==> u[j] == t[j + 1]);
        if k - 1 < u.len() {
            assert(u[k - 1] == t[k]);
        }
        lemma_nonquote_unique(u, k - 1);
    }
}

/// Scans to the end of the quote-free text at `pos`.
fn eat_text(s: &[u8], pos: usize) -> (r: usize)
    requires
        pos <= s@.len(),
    ensures
        r == pos + text_len_at(s@, pos as int),
        pos <= r <= s@.len(),
{
    let ghost t = s@.skip(pos as int);
    let slen = s.len();
    let mut i: usize = pos;
    while i < slen && s[i] != 34
        invariant
            pos <= i <= slen,
            slen == s@.len(),
            t == s@.skip(pos as int),
            forall|j: int| 0 <= j < i - pos ==> t[j] != 34,
        decreases slen - i,
    {
        proof {
            assert(t[i - pos] == s@[i as int]);
        }
        i = i + 1;
    }
    proof {
        if i < slen {
            assert(t[i - pos] == s@[i as int]);
        }
        lemma_nonquote_unique(t, i - pos);
    }
    i
}

/// Copies a range of the input out as owned bytes.
fn copy_range(s: &[u8], a: usize, b: usize) -> (r: Vec<u8>)
    requires
        a <= b <= s@.len(),
    ensures
        r@ == s@.subrange(a as int, b as int),
{
    let mut r: Vec<u8> = Vec::new();
    let mut i: usize = a;
    while i < b
        invariant
            a <= i <= b <= s@.len(),
            r@ =~= s@.subrange(a as int, i as int),
        decreases b - i,
    {
        r.push(s[i]);
        i = i + 1;
        proof {
            assert(s@.subrange(a as int, i as int) =~= s@.subrange(a as int, i - 1).push(
                s@[i - 1],
            ));
        }
    }
    proof {
        assert(r@ =~= s@.subrange(a as int, b as int));
    }
    r
}

/// Consumes a bool keyword.
fn eat_bool(s: &[u8], pos: usize) -> (r: Option<(bool, usize)>)
    ensures
        match r {
            Some((b, p)) => bool_at(s@, pos as int) == Some(b) && p == pos + enc_bool(b).len() && p
                <= s@.len(),
            None => bool_at(s@, pos as int) is None,
        },
{
    proof {
        reveal_strlit("true");
        reveal_strlit("false");
    }
    match eat_lit(s, pos, "true") {
        Some(p) => Some((true, p)),
        None => match eat_lit(s, pos, "false") {
            Some(p) => Some((false, p)),
            None => None,
        },
    }
}

/// Consumes one key-and-number field.
fn eat_field(s: &[u8], pos: usize, key: &str) -> (r: Option<(u64, usize)>)
    requires
        vstd::string::is_ascii(key),
    ensures
        match r {
            Some((v, p)) => field_after(s@, pos as int, lit_bytes(key@)) == Some((v, p as int)) && p
                <= s@.len(),
            None => field_after(s@, pos as int, lit_bytes(key@)) is None,
        },
{
    match eat_lit(s, pos, key) {
        Some(p) => match eat_num(s, p) {
            Some((v, p2)) => Some((v, p2)),
            None => None,
        },
        None => None,
    }
}

/// Runs `dec_cpu` on real input.
fn eat_cpu(s: &[u8], pos: usize) -> (r: Option<(crate::cpu::CpuMetrics, usize)>)
    requires
        pos <= s@.len(),
    ensures
        match r {
            Some((c, p)) => dec_cpu(s@, pos as int) == Some((c, p as int)) && p <= s@.len(),
            None => dec_cpu(s@, pos as int) is None,
        },
{
    proof {
        reveal_strlit(",\"cpu\":{\"cpu_usage\":");
        reveal_strlit(",\"user\":");
        reveal_strlit(",\"nice\":");
        reveal_strlit(",\"system\":");
        reveal_strlit(",\"idle\":");
        reveal_strlit(",\"iowait\":");
        reveal_strlit(",\"irq\":");
        reveal_strlit(",\"softirq\":");
    }
    let (cpu_usage, p1) = match eat_field(s, pos, ",\"cpu\":{\"cpu_usage\":") {
        Some(x) => x,
        None => { return None },
    };
    let (user, p2) = match eat_field(s, p1, ",\"user\":") {
        Some(x) => x,
        None => { return None },
    };
    let (nice, p3) = match eat_field(s, p2, ",\"nice\":") {
        Some(x) => x,
        None => { return None },
    };
    let (system, p4) = match eat_field(s, p3, ",\"system\":") {
        Some(x) => x,
        None => { return None },
    };
    let (idle, p5) = match eat_field(s, p4, ",\"idle\":") {
        Some(x) => x,
        None => { return None },
    };
    let (iowait, p6) = match eat_field(s, p5, ",\"iowait\":") {
        Some(x) => x,
        None => { return None },
    };
    let (irq, p7) = match eat_field(s, p6, ",\"irq\":") {
        Some(x) => x,
        None => { return None },
    };
    let (softirq, p8) = match eat_field(s, p7, ",\"softirq\":") {
        Some(x) => x,
        None => { return None },
    };
    Some((crate::cpu::CpuMetrics { cpu_usage, user, nice, system, idle, iowait, irq, softirq }, p8))
}

/// Runs `dec_disk` on real input.
fn eat_disk(s: &[u8], pos: usize) -> (r: Option<(crate::disk::DiskMetrics, usize)>)
    requires
        pos <= s@.len(),
    ensures
        match r {
            Some((c, p)) => dec_disk(s@, pos as int) == Some((c, p as int)) && p <= s@.len(),
            None => dec_disk(s@, pos as int) is None,
        },
{
    proof {
        reveal_strlit("},\"disk\":{\"write_throughput\":");
        reveal_strlit(",\"read_throughput\":");
    }
    let (write_throughput, p1) = match eat_field(s, pos, "},\"disk\":{\"write_throughput\":") {
        Some(x) => x,
        None => { return None },
    };
    let (read_throughput, p2) = match eat_field(s, p1, ",\"read_throughput\":") {
        Some(x) => x,
        None => { return None },
    };
    Some((crate::disk::DiskMetrics { write_throughput, read_throughput }, p2))
}

/// Runs `dec_la` on real input.
fn eat_la(s: &[u8], pos: usize) -> (r: Option<(crate::la::LaMetrics, usize)>)
    requires
        pos <= s@.len(),
    ensures
        match r {
            Some((c, p)) => dec_la(s@, pos as int) == Some((c, p as int)) && p <= s@.len(),
            None => dec_la(s@, pos as int) is None,
        },
{
    proof {
        reveal_strlit("},\"la\":{\"load_average\":");
    }
    let (load_average, p1) = match eat_field(s, pos, "},\"la\":{\"load_average\":") {
        Some(x) => x,
        None => { return None },
    };
    Some((crate::la::LaMetrics { load_average }, p1))
}

/// Runs `dec_net` on real input.
fn eat_net(s: &[u8], pos: usize) -> (r: Option<(crate::network::NetMetrics, usize)>)
    requires
        pos <= s@.len(),
    ensures
        match r {
            Some((c, p)) => dec_net(s@, pos as int) == Some((c, p as int)) && p <= s@.len(),
            None => dec_net(s@, pos as int) is None,
        },
{
    proof {
        reveal_strlit("},\"net\":{\"up_bandwidth\":");
        reveal_strlit(",\"down_bandwidth\":");
    }
    let (up_bandwidth, p1) = match eat_field(s, pos, "},\"net\":{\"up_bandwidth\":") {
        Some(x) => x,
        None => { return None },
    };
    let (down_bandwidth, p2) = match eat_field(s, p1, ",\"down_bandwidth\":") {
        Some(x) => x,
        None => { return None },
    };
    Some((crate::network::NetMetrics { up_bandwidth, down_bandwidth }, p2))
}

/// Runs `dec_ram` on real input.
fn eat_ram(s: &[u8], pos: usize) -> (r: Option<(crate::ram::RamMetrics, usize)>)
    requires
        pos <= s@.len(),
    ensures
        match r {
            Some((c, p)) => dec_ram(s@, pos as int) == Some((c, p as int)) && p <= s@.len(),
            None => dec_ram(s@, pos as int) is None,
        },
{
    proof {
        reveal_strlit("},\"ram\":{\"mem_total\":");
        reveal_strlit(",\"mem_used\":");
        reveal_strlit(",\"mem_buffers\":");
        reveal_strlit(",\"mem_cached\":");
    }
    let (mem_total, p1) = match eat_field(s, pos, "},\"ram\":{\"mem_total\":") {
        Some(x) => x,
        None => { return None },
    };
    let (mem_used, p2) = match eat_field(s, p1, ",\"mem_used\":") {
        Some(x) => x,
        None => { return None },
    };
    let (mem_buffers, p3) = match eat_field(s, p2, ",\"mem_buffers\":") {
        Some(x) => x,
        None => { return None },
    };
    let (mem_cached, p4) = match eat_field(s, p3, ",\"mem_cached\":") {
        Some(x) => x,
        None => { return None },
    };
    Some((crate::ram::RamMetrics { mem_total, mem_used, mem_buffers, mem_cached }, p4))
}

/// Runs `dec_space` on real input.
fn eat_space(s: &[u8], pos: usize) -> (r: Option<(crate::space::SpaceMetrics, usize)>)
    requires
        pos <= s@.len(),
    ensures
        match r {
            Some((c, p)) => dec_space(s@, pos as int) == Some((c, p as int)) && p <= s@.len(),
            None => dec_space(s@, pos as int) is None,
        },
{
    proof {
        reveal_strlit("},\"space\":{\"total\":");
        reveal_strlit(",\"used\":");
        reveal_strlit("}}");
    }
    let (total, p1) = match eat_field(s, pos, "},\"space\":{\"total\":") {
        Some(x) => x,
        None => { return None },
    };
    let (used, p2) = match eat_field(s, p1, ",\"used\":") {
        Some(x) => x,
        None => { return None },
    };
    let p_end = match eat_lit(s, p2, "}}") {
        Some(x) => x,
        None => { return None },
    };
    Some((crate::space::SpaceMetrics { total, used }, p_end))
}

/// Runs `dec_families` on real input.
fn eat_families(s: &[u8], pos: usize) -> (r: Option<
    (
        crate::cpu::CpuMetrics,
        crate::disk::DiskMetrics,
        crate::la::LaMetrics,
        crate::network::NetMetrics,
        crate::ram::RamMetrics,
        crate::space::SpaceMetrics,
        usize,
    ),
>)
    requires
        pos <= s@.len(),
    ensures
        match r {
            Some((cpu, disk, la, net, ram, space, p)) => dec_families(s@, pos as int) == Some(
                (cpu, disk, la, net, ram, space, p as int),
            ) && p <= s@.len(),
            None => dec_families(s@, pos as int) is None,
        },
{
    let (cpu, p1) = match eat_cpu(s, pos) {
        Some(x) => x,
        None => { return None },
    };
    let (disk, p2) = match eat_disk(s, p1) {
        Some(x) => x,
        None => { return None },
    };
    let (la, p3) = match eat_la(s, p2) {
        Some(x) => x,
        None => { return None },
    };
    let (net, p4) = match eat_net(s, p3) {
        Some(x) => x,
        None => { return None },
    };
    let (ram, p5) = match eat_ram(s, p4) {
        Some(x) => x,
        None => { return None },
    };
    let (space, p6) = match eat_space(s, p5) {
        Some(x) => x,
        None => { return None },
    };
    Some((cpu, disk, la, net, ram, space, p6))
}


/// Reads an identity record off the wire.
pub fn decode_node_specs(s: &[u8]) -> (r: Option<NodeSpecs>)
    ensures
        match r {
            Some(v) => dec_node_specs(s@) == Some(v@),
            None => dec_node_specs(s@) is None,
        },
{
    proof {
        reveal_strlit("{\"index\":");
        reveal_strlit(",\"hostname\":\"");
        reveal_strlit("\",\"cpus\":");
        reveal_strlit(",\"ip\":\"");
        reveal_strlit("\"}");
    }
    let (index, p1) = match eat_field(s, 0, "{\"index\":") {
        Some(x) => x,
        None => { return None },
    };
    if index > 255 {
        return None;
    }
    let p2 = match eat_lit(s, p1, ",\"hostname\":\"") {
        Some(x) => x,
        None => { return None },
    };
    let p3 = eat_text(s, p2);
    let hostname = copy_range(s, p2, p3);
    let (cpus, p4) = match eat_field(s, p3, "\",\"cpus\":") {
        Some(x) => x,
        None => { return None },
    };
    if cpus > 65535 {
        return None;
    }
    let p5 = match eat_lit(s, p4, ",\"ip\":\"") {
        Some(x) => x,
        None => { return None },
    };
    let p6 = eat_text(s, p5);
    let ip = copy_range(s, p5, p6);
    let p7 = match eat_lit(s, p6, "\"}") {
        Some(x) => x,
        None => { return None },
    };
    if p7 != s.len() {
        return None;
    }
    Some(NodeSpecs { index: index as u8, hostname, cpus: cpus as u16, ip })
}

/// Reads a sample record off the wire.
pub fn decode_node_metrics(s: &[u8]) -> (r: Option<crate::node::NodeMetrics>)
    ensures
        match r {
            Some(v) => dec_metrics(s@) == Some(v@),
            None => dec_metrics(s@) is None,
        },
{
    proof {
        reveal_strlit("{\"hostname\":\"");
        reveal_strlit("\",\"online\":");
        reveal_strlit(",\"uptime_seconds\":");
    }
    let p1 = match eat_lit(s, 0, "{\"hostname\":\"") {
        Some(x) => x,
        None => { return None },
    };
    let p2 = eat_text(s, p1);
    let hostname = copy_range(s, p1, p2);
    let p3 = match eat_lit(s, p2, "\",\"online\":") {
        Some(x) => x,
        None => { return None },
    };
    let (online, p4) = match eat_bool(s, p3) {
        Some(x) => x,
        None => { return None },
    };
    let (uptime_seconds, p5) = match eat_field(s, p4, ",\"uptime_seconds\":") {
        Some(x) => x,
        None => { return None },
    };
    let (cpu, disk, la, net, ram, space, p6) = match eat_families(s, p5) {
        Some(x) => x,
        None => { return None },
    };
    if p6 != s.len() {
        return None;
    }
    Some(
        crate::node::NodeMetrics {
            hostname,
            online,
            uptime_seconds,
            cpu,
            disk,
            la,
            net,
            ram,
            space,
        },
    )
}

/// Reads one node off the wire; the hostname fills both the identity
/// and the sample.
pub fn decode_node(s: &[u8]) -> (r: Option<Node>)
    ensures
        match r {
            Some(v) => dec_node(s@) == Some(v@),
            None => dec_node(s@) is None,
        },
{
    proof {
        reveal_strlit("{\"index\":");
        reveal_strlit(",\"hostname\":\"");
        reveal_strlit("\",\"cpus\":");
        reveal_strlit(",\"ip\":\"");
        reveal_strlit("\",\"online\":");
        reveal_strlit(",\"uptime_seconds\":");
    }
    let (index, p1) = match eat_field(s, 0, "{\"index\":") {
        Some(x) => x,
        None => { return None },
    };
    if index > 255 {
        return None;
    }
    let p2 = match eat_lit(s, p1, ",\"hostname\":\"") {
        Some(x) => x,
        None => { return None },
    };
    let p3 = eat_text(s, p2);
    let hostname = copy_range(s, p2, p3);
    let (cpus, p4) = match eat_field(s, p3, "\",\"cpus\":") {
        Some(x) => x,
        None => { return None },
    };
    if cpus > 65535 {
        return None;
    }
    let p5 = match eat_lit(s, p4, ",\"ip\":\"") {
        Some(x) => x,
        None => { return None },
    };
    let p6 = eat_text(s, p5);
    let ip = copy_range(s, p5, p6);
    let p7 = match eat_lit(s, p6, "\",\"online\":") {
        Some(x) => x,
        None => { return None },
    };
    let (online, p8) = match eat_bool(s, p7) {
        Some(x) => x,
        None => { return None },
    };
    let (uptime_seconds, p9) = match eat_field(s, p8, ",\"uptime_seconds\":") {
        Some(x) => x,
        None => { return None },
    };
    let (cpu, disk, la, net, ram, space, p10) = match eat_families(s, p9) {
        Some(x) => x,
        None => { return None },
    };
    if p10 != s.len() {
        return None;
    }
    let metrics_hostname = copy_range(s, p2, p3);
    Some(
        Node {
            specs: NodeSpecs { index: index as u8, hostname, cpus: cpus as u16, ip },
            metrics: crate::node::NodeMetrics {
                hostname: metrics_hostname,
                online,
                uptime_seconds,
                cpu,
                disk,
                la,
                net,
                ram,
                space,
            },
        },
    )
}

/// The subscribe command survives its round trip for every timeframe.
pub proof fn lemma_command_round_trip(tf: Timeframe)
    ensures
        command_of(enc_command(tf)) == Some(tf),
{
    reveal_strlit("{\"subscribe_to\":\"OverviewOneSecond\"}");
    reveal_strlit("{\"subscribe_to\":\"OverviewFiveSeconds\"}");
    reveal_strlit("{\"subscribe_to\":\"OverviewFifteenSeconds\"}");
    let one = enc_command(Timeframe::OverviewOneSecond);
    let five = enc_command(Timeframe::OverviewFiveSeconds);
    let fifteen = enc_command(Timeframe::OverviewFifteenSeconds);
    assert(one.len() != five.len());
    assert(one.len() != fifteen.len());
    assert(five.len() != fifteen.len());
}

} // verus!
