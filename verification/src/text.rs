//! Tolerant byte-level text utilities shared by every counter parser:
//! whitespace tokenizing, decimal numbers, and delimiter splitting.
//! Malformed numbers read as 0, so no probe output can fault a parser.

use vstd::prelude::*;

verus! {

use crate::ascii_digit;

/// Which separator set a tokenizer run uses.
#[derive(Clone, Copy, PartialEq, Eq, Structural)]
pub enum Sep {
    /// ASCII whitespace: space, tab, line feed, carriage return.
    Whitespace,
    /// The separators of /proc/meminfo: line feed, colon, space.
    MemInfo,
    /// Line feed alone, for line-oriented probes.
    Newline,
}

pub open spec fn is_sep(sep: Sep, b: u8) -> bool {
    match sep {
        Sep::Whitespace => b == 32 || b == 9 || b == 10 || b == 13,
        Sep::MemInfo => b == 10 || b == 58 || b == 32,
        Sep::Newline => b == 10,
    }
}

fn is_sep_byte(sep: Sep, b: u8) -> (r: bool)
    ensures
        r == is_sep(sep, b),
{
    match sep {
        Sep::Whitespace => b == 32 || b == 9 || b == 10 || b == 13,
        Sep::MemInfo => b == 10 || b == 58 || b == 32,
        Sep::Newline => b == 10,
    }
}

/// The tokens of `s` under separator set `sep`, given that the bytes of
/// `cur` (a partial token) directly precede `s`.
pub open spec fn tokens_from(sep: Sep, s: Seq<u8>, cur: Seq<u8>) -> Seq<Seq<u8>>
    decreases s.len(),
{
    if s.len() == 0 {
        if cur.len() == 0 {
            Seq::empty()
        } else {
            seq![cur]
        }
    } else if is_sep(sep, s[0]) {
        if cur.len() == 0 {
            tokens_from(sep, s.drop_first(), Seq::empty())
        } else {
            seq![cur] + tokens_from(sep, s.drop_first(), Seq::empty())
        }
    } else {
        tokens_from(sep, s.drop_first(), cur.push(s[0]))
    }
}

/// The maximal separator-free runs of `s`, in order.
pub open spec fn tokens(sep: Sep, s: Seq<u8>) -> Seq<Seq<u8>> {
    tokens_from(sep, s, Seq::empty())
}

/// Splits `s` into its maximal separator-free runs.
pub fn tokenize(sep: Sep, s: &[u8]) -> (r: Vec<Vec<u8>>)
    ensures
        r.deep_view() == tokens(sep, s@),
{
    let mut out: Vec<Vec<u8>> = Vec::new();
    let mut cur: Vec<u8> = Vec::new();
    let mut i: usize = 0;
    proof {
        assert(s@.skip(0) =~= s@);
        assert(out.deep_view() + tokens_from(sep, s@, cur@) =~~= tokens(sep, s@));
    }
    while i < s.len()
        invariant
            i <= s.len(),
            tokens(sep, s@) =~~= out.deep_view() + tokens_from(sep, s@.skip(i as int), cur@),
        decreases s.len() - i,
    {
        let ghost rem = s@.skip(i as int);
        let ghost out0 = out.deep_view();
        let ghost cur0 = cur@;
        proof {
            assert(rem.drop_first() =~= s@.skip(i + 1));
            assert(rem[0] == s@[i as int]);
        }
        let b = s[i];
        if is_sep_byte(sep, b) {
            if cur.len() > 0 {
                out.push(cur);
                cur = Vec::new();
                proof {
                    assert(out.deep_view() =~~= out0.push(cur0));
                    assert(tokens_from(sep, rem, cur0) == seq![cur0] + tokens_from(
                        sep,
                        rem.drop_first(),
                        Seq::empty(),
                    ));
                    assert(out0 + (seq![cur0] + tokens_from(sep, rem.drop_first(), Seq::empty()))
                        =~~= out0.push(cur0) + tokens_from(sep, rem.drop_first(), Seq::empty()));
                }
            }
            proof {
                assert(cur@ =~= Seq::<u8>::empty());
            }
        } else {
            cur.push(b);
            proof {
                assert(cur@ == cur0.push(rem[0]));
            }
        }
        i = i + 1;
    }
    proof {
        assert(s@.skip(s@.len() as int) =~= Seq::<u8>::empty());
    }
    let ghost out1 = out.deep_view();
    let ghost cur1 = cur@;
    if cur.len() > 0 {
        out.push(cur);
        proof {
            assert(out.deep_view() =~~= out1.push(cur1));
            assert(out1 + seq![cur1] =~~= out1.push(cur1));
        }
    } else {
        proof {
            assert(out1 + Seq::<Seq<u8>>::empty() =~~= out1);
        }
    }
    proof {
        assert(out.deep_view() =~~= tokens(sep, s@));
    }
    out
}

/// Whether `s` is one or more ASCII decimal digits.
pub open spec fn all_digits(s: Seq<u8>) -> bool {
    forall|i: int| 0 <= i < s.len() ==> ascii_digit(#[trigger] s[i])
}

pub open spec fn is_number(s: Seq<u8>) -> bool {
    s.len() > 0 && all_digits(s)
}

/// The integer a digit string denotes.
pub open spec fn digits_val(s: Seq<u8>) -> int
    decreases s.len(),
{
    if s.len() == 0 {
        0
    } else {
        digits_val(s.drop_last()) * 10 + (s.last() - 48)
    }
}

/// What a tolerant u64 parse yields: the denoted value when `s` is a
/// digit string that fits in u64, and 0 otherwise.
pub open spec fn parse_u64_spec(s: Seq<u8>) -> u64 {
    if is_number(s) && digits_val(s) <= u64::MAX {
        digits_val(s) as u64
    } else {
        0
    }
}

pub proof fn lemma_digits_val_nonneg(s: Seq<u8>)
    requires
        all_digits(s),
    ensures
        digits_val(s) >= 0,
    decreases s.len(),
{
    if s.len() > 0 {
        assert(all_digits(s.drop_last()));
        lemma_digits_val_nonneg(s.drop_last());
        assert(ascii_digit(s[s.len() - 1]));
    }
}

/// Tolerant decimal parse: the denoted value for a digit string that
/// fits in u64, and 0 for everything else.
pub fn parse_u64(s: &[u8]) -> (r: u64)
    ensures
        r == parse_u64_spec(s@),
{
    if s.len() == 0 {
        return 0;
    }
    let mut val: u64 = 0;
    let mut i: usize = 0;
    while i < s.len()
        invariant
            0 < s@.len(),
            i <= s.len(),
            all_digits(s@.take(i as int)),
            val == digits_val(s@.take(i as int)),
            digits_val(s@.take(i as int)) <= u64::MAX,
        decreases s.len() - i,
    {
        let b = s[i];
        if !(48 <= b && b <= 57) {
            proof {
                assert(!ascii_digit(s@[i as int]));
                assert(!all_digits(s@));
            }
            return 0;
        }
        let wide: u128 = (val as u128) * 10 + ((b - 48) as u128);
        proof {
            assert(s@.take(i + 1).drop_last() == s@.take(i as int));
            assert(s@.take(i + 1).last() == s@[i as int]);
        }
        if wide > u64::MAX as u128 {
            proof {
                if all_digits(s@) {
                    lemma_digits_prefix_monotone(s@, i + 1);
                }
            }
            return 0;
        }
        val = wide as u64;
        i = i + 1;
    }
    proof {
        assert(s@.take(s@.len() as int) == s@);
    }
    val
}

/// A digit string's value only grows as digits are appended.
proof fn lemma_digits_prefix_monotone(s: Seq<u8>, j: int)
    requires
        0 <= j <= s.len(),
        all_digits(s),
    ensures
        digits_val(s.take(j)) <= digits_val(s),
    decreases s.len() - j,
{
    if j < s.len() {
        lemma_digits_prefix_monotone(s, j + 1);
        assert(s.take(j + 1).drop_last() == s.take(j));
        assert(all_digits(s.take(j)));
        lemma_digits_val_nonneg(s.take(j));
        assert(ascii_digit(s.take(j + 1).last()));
        assert(digits_val(s.take(j + 1)) >= digits_val(s.take(j)) * 10);
    } else {
        assert(s.take(j) == s);
    }
}

/// Length of the leading run of decimal digits.
pub open spec fn digit_prefix_len(s: Seq<u8>) -> int
    decreases s.len(),
{
    if s.len() == 0 || !ascii_digit(s[0]) {
        0
    } else {
        1 + digit_prefix_len(s.drop_first())
    }
}

/// `digit_prefix_len` is the unique cut with digits before and a
/// non-digit (or the end) after.
pub proof fn lemma_digit_prefix_unique(s: Seq<u8>, k: int)
    requires
        0 <= k <= s.len(),
        all_digits(s.take(k)),
        k == s.len() || !ascii_digit(s[k]),
    ensures
        digit_prefix_len(s) == k,
    decreases s.len(),
{
    if k == 0 {
        if s.len() > 0 {
            assert(!ascii_digit(s[0]));
        }
    } else {
        assert(ascii_digit(s.take(k)[0]));
        let t = s.drop_first();
        assert(t.take(k - 1) =~= s.take(k).drop_first());
        assert(forall|i: int|
            0 <= i < k - 1 ==> #[trigger] t.take(k - 1)[i] == s.take(k)[i + 1]);
        assert(all_digits(t.take(k - 1)));
        if k - 1 < t.len() {
            assert(t[k - 1] == s[k]);
        }
        lemma_digit_prefix_unique(t, k - 1);
    }
}

/// A digit string followed by a non-digit has itself as digit prefix.
pub proof fn lemma_digit_prefix_concat(d: Seq<u8>, r: Seq<u8>)
    requires
        all_digits(d),
        r.len() > 0,
        !ascii_digit(r[0]),
    ensures
        digit_prefix_len(d + r) == d.len(),
    decreases d.len(),
{
    if d.len() == 0 {
        assert(d + r =~= r);
    } else {
        assert((d + r)[0] == d[0]);
        assert(ascii_digit(d[0]));
        assert((d + r).drop_first() =~= d.drop_first() + r);
        assert(all_digits(d.drop_first()));
        lemma_digit_prefix_concat(d.drop_first(), r);
    }
}

/// The value, in hundredths, of up to the first two fractional digits.
pub open spec fn frac_centi(f: Seq<u8>) -> int {
    if f.len() == 0 {
        0
    } else if f.len() == 1 {
        (f[0] - 48) * 10
    } else {
        (f[0] - 48) * 10 + (f[1] - 48)
    }
}

/// A tolerant fixed-point parse in hundredths: accepts `D+` and
/// `D+.D*` (extra fractional digits truncated); anything else, or a
/// value over u64::MAX hundredths, reads as 0.
pub open spec fn parse_centi_spec(s: Seq<u8>) -> u64 {
    let k = digit_prefix_len(s);
    if k == 0 {
        0
    } else if k == s.len() {
        if digits_val(s) * 100 <= u64::MAX {
            (digits_val(s) * 100) as u64
        } else {
            0
        }
    } else if s[k] == 46 && all_digits(s.skip(k + 1)) {
        if digits_val(s.take(k)) * 100 + frac_centi(s.skip(k + 1)) <= u64::MAX {
            (digits_val(s.take(k)) * 100 + frac_centi(s.skip(k + 1))) as u64
        } else {
            0
        }
    } else {
        0
    }
}

/// Parses a decimal such as `53.99` into hundredths (5399).
pub fn parse_centi(s: &[u8]) -> (r: u64)
    ensures
        r == parse_centi_spec(s@),
{
    let mut k: usize = 0;
    let mut val: u64 = 0;
    let mut big: bool = false;
    while k < s.len() && 48 <= s[k] && s[k] <= 57
        invariant
            0 <= k <= s.len(),
            all_digits(s@.take(k as int)),
            !big ==> val == digits_val(s@.take(k as int)),
            big ==> digits_val(s@.take(k as int)) > u64::MAX,
        decreases s.len() - k,
    {
        proof {
            assert(s@.take(k + 1).drop_last() =~= s@.take(k as int));
            assert(s@.take(k + 1).last() == s@[k as int]);
        }
        if !big {
            let wide: u128 = (val as u128) * 10 + ((s[k] - 48) as u128);
            if wide > u64::MAX as u128 {
                big = true;
            } else {
                val = wide as u64;
            }
        } else {
            proof {
                lemma_digits_val_nonneg(s@.take(k as int));
            }
        }
        k = k + 1;
    }
    proof {
        lemma_digit_prefix_unique(s@, k as int);
        if k == s.len() {
            assert(s@.take(k as int) =~= s@);
        }
    }
    if k == 0 {
        return 0;
    }
    if k == s.len() {
        if big || val > u64::MAX / 100 {
            return 0;
        }
        return val * 100;
    }
    if s[k] != 46 {
        return 0;
    }
    // fractional part: all digits required, first two carry value
    let mut j: usize = k + 1;
    while j < s.len()
        invariant
            k + 1 <= j <= s.len(),
            digit_prefix_len(s@) == k as int,
            0 < k < s@.len(),
            s@[k as int] == 46,
            forall|i: int| k + 1 <= i < j ==> ascii_digit(#[trigger] s@[i]),
        decreases s.len() - j,
    {
        if !(48 <= s[j] && s[j] <= 57) {
            proof {
                assert(s@.skip(k + 1)[j - k - 1] == s@[j as int]);
                assert(!all_digits(s@.skip(k + 1)));
            }
            return 0;
        }
        j = j + 1;
    }
    let ghost frac = s@.skip(k + 1);
    proof {
        assert(forall|i: int| 0 <= i < frac.len() ==> frac[i] == s@[i + k + 1]);
        assert(all_digits(frac));
    }
    let f0: u64 = if k + 1 < s.len() {
        (s[k + 1] - 48) as u64
    } else {
        0
    };
    let f1: u64 = if s.len() - k > 2 {
        (s[k + 2] - 48) as u64
    } else {
        0
    };
    let fr: u64 = f0 * 10 + f1;
    proof {
        assert(fr == frac_centi(frac));
    }
    if big {
        return 0;
    }
    let wide: u128 = (val as u128) * 100 + (fr as u128);
    if wide > u64::MAX as u128 {
        return 0;
    }
    wide as u64
}

/// Whether two byte strings are equal.
pub fn bytes_eq(a: &[u8], b: &[u8]) -> (r: bool)
    ensures
        r == (a@ == b@),
{
    if a.len() != b.len() {
        return false;
    }
    let mut i: usize = 0;
    while i < a.len()
        invariant
            i <= a.len(),
            a@.len() == b@.len(),
            forall|j: int| 0 <= j < i ==> a@[j] == b@[j],
        decreases a.len() - i,
    {
        if a[i] != b[i] {
            return false;
        }
        i = i + 1;
    }
    proof {
        assert(a@ =~= b@);
    }
    true
}

/// The pieces of `s` between non-overlapping occurrences of `d`, given
/// that the bytes of `cur` directly precede `s`.
pub open spec fn split_from(s: Seq<u8>, d: Seq<u8>, cur: Seq<u8>) -> Seq<Seq<u8>>
    recommends
        d.len() > 0,
    decreases s.len(),
        when d.len() > 0
{
    if s.len() < d.len() {
        seq![cur + s]
    } else if s.take(d.len() as int) == d {
        seq![cur] + split_from(s.skip(d.len() as int), d, Seq::empty())
    } else {
        split_from(s.drop_first(), d, cur.push(s[0]))
    }
}

/// The pieces of `s` between occurrences of the delimiter `d`, with
/// empty pieces dropped (the shape of a tolerant response splitter).
pub open spec fn split_parts(s: Seq<u8>, d: Seq<u8>) -> Seq<Seq<u8>> {
    split_from(s, d, Seq::empty()).filter(|t: Seq<u8>| t.len() != 0)
}

/// Whether `d` occurs in `s` at offset `i`.
pub open spec fn matches_at(s: Seq<u8>, d: Seq<u8>, i: int) -> bool {
    0 <= i && i + d.len() <= s.len() && s.subrange(i, i + d.len()) == d
}

fn slice_matches_at(s: &[u8], d: &[u8], i: usize) -> (r: bool)
    requires
        i + d@.len() <= s@.len(),
    ensures
        r == matches_at(s@, d@, i as int),
{
    let slen = s.len();
    let mut j: usize = 0;
    while j < d.len()
        invariant
            j <= d.len(),
            i + d@.len() <= s@.len(),
            s@.len() == slen,
            forall|x: int| 0 <= x < j ==> s@[i + x] == d@[x],
        decreases d.len() - j,
    {
        proof {
            assert(i + j < s@.len());
        }
        if s[i + j] != d[j] {
            proof {
                assert(s@.subrange(i as int, i + d@.len())[j as int] == s@[i + j]);
            }
            return false;
        }
        j = j + 1;
    }
    proof {
        assert(s@.subrange(i as int, i + d@.len()) =~= d@);
    }
    true
}

/// Splits `s` on the delimiter `d` and drops empty pieces.
pub fn split_delim(s: &[u8], d: &[u8]) -> (r: Vec<Vec<u8>>)
    requires
        d@.len() > 0,
    ensures
        r.deep_view() == split_parts(s@, d@),
{
    let mut raw: Vec<Vec<u8>> = Vec::new();
    let mut cur: Vec<u8> = Vec::new();
    let mut i: usize = 0;
    proof {
        assert(s@.skip(0) =~= s@);
        assert(raw.deep_view() + split_from(s@, d@, cur@) =~~= split_from(s@, d@, Seq::empty()));
    }
    while i < s.len()
        invariant
            i <= s.len(),
            d@.len() > 0,
            split_from(s@, d@, Seq::empty()) =~~= raw.deep_view() + split_from(
                s@.skip(i as int),
                d@,
                cur@,
            ),
        decreases s.len() - i,
    {
        let ghost rem = s@.skip(i as int);
        let ghost raw0 = raw.deep_view();
        let ghost cur0 = cur@;
        if d.len() <= s.len() - i && slice_matches_at(s, d, i) {
            proof {
                assert(rem.take(d@.len() as int) =~= s@.subrange(i as int, i + d@.len()));
                assert(rem.skip(d@.len() as int) =~= s@.skip(i + d@.len()));
            }
            raw.push(cur);
            cur = Vec::new();
            i = i + d.len();
            proof {
                assert(raw.deep_view() =~~= raw0.push(cur0));
                assert(raw0 + (seq![cur0] + split_from(s@.skip(i as int), d@, Seq::empty()))
                    =~~= raw0.push(cur0) + split_from(s@.skip(i as int), d@, Seq::empty()));
                assert(cur@ =~= Seq::<u8>::empty());
            }
        } else {
            proof {
                assert(rem.len() >= d@.len() ==> rem.take(d@.len() as int) != d@) by {
                    if rem.len() >= d@.len() {
                        assert(rem.take(d@.len() as int) =~= s@.subrange(i as int, i + d@.len()));
                    }
                }
                assert(rem.drop_first() =~= s@.skip(i + 1));
                assert(rem[0] == s@[i as int]);
            }
            let b = s[i];
            cur.push(b);
            i = i + 1;
            proof {
                assert(cur@ == cur0.push(rem[0]));
            }
        }
    }
    proof {
        assert(s@.skip(s@.len() as int) =~= Seq::<u8>::empty());
        assert(cur@ + Seq::<u8>::empty() =~= cur@);
    }
    raw.push(cur);
    let ghost rawall = raw.deep_view();
    proof {
        assert(rawall =~~= split_from(s@, d@, Seq::empty()));
    }
    // drop the empty pieces
    let mut out: Vec<Vec<u8>> = Vec::new();
    let mut n: usize = 0;
    proof {
        assert(rawall.take(0) =~~= Seq::<Seq<u8>>::empty());
        assert(Seq::<Seq<u8>>::empty().filter(|t: Seq<u8>| t.len() != 0) =~~= Seq::<Seq<
            u8,
        >>::empty());
    }
    while n < raw.len()
        invariant
            n <= raw.len(),
            rawall == raw.deep_view(),
            out.deep_view() =~~= rawall.take(n as int).filter(|t: Seq<u8>| t.len() != 0),
        decreases raw.len() - n,
    {
        let ghost out0 = out.deep_view();
        if raw[n].len() > 0 {
            let piece = raw[n].clone();
            proof {
                assert(piece@ == rawall[n as int]);
            }
            out.push(piece);
            proof {
                assert(out.deep_view() =~~= out0.push(rawall[n as int]));
            }
        }
        n = n + 1;
        proof {
            assert(rawall.take(n as int).drop_last() =~~= rawall.take(n - 1));
            assert(rawall.take(n as int).last() == rawall[n - 1]);
            reveal_with_fuel(Seq::filter, 2);
            assert(rawall.take(n as int).filter(|t: Seq<u8>| t.len() != 0) == rawall.take(n - 1)
                .filter(|t: Seq<u8>| t.len() != 0) + if rawall[n - 1].len() != 0 {
                seq![rawall[n - 1]]
            } else {
                Seq::empty()
            });
            assert(out.deep_view() =~~= rawall.take(n as int).filter(|t: Seq<u8>| t.len() != 0));
        }
    }
    proof {
        assert(rawall.take(raw.len() as int) =~~= rawall);
    }
    out
}

/// The canonical decimal rendering of `n`: no sign, no leading zero
/// except for 0 itself.
pub open spec fn dec_digits(n: int) -> Seq<u8>
    decreases n,
{
    if n < 10 {
        seq![(48 + if n >= 0 { n } else { 0 }) as u8]
    } else {
        dec_digits(n / 10).push((48 + n % 10) as u8)
    }
}

/// Renders `n` in decimal.
pub fn render_u64(n: u64) -> (r: Vec<u8>)
    ensures
        r@ == dec_digits(n as int),
    decreases n,
{
    if n < 10 {
        let mut v: Vec<u8> = Vec::new();
        v.push(48 + n as u8);
        proof {
            assert(v@ =~= dec_digits(n as int));
        }
        v
    } else {
        let mut v = render_u64(n / 10);
        v.push(48 + (n % 10) as u8);
        v
    }
}

/// Rendering then parsing a u64 gives it back.
pub proof fn lemma_dec_digits_round_trip(n: int)
    requires
        0 <= n <= u64::MAX,
    ensures
        is_number(dec_digits(n)),
        digits_val(dec_digits(n)) == n,
        parse_u64_spec(dec_digits(n)) == n,
    decreases n,
{
    if n < 10 {
        let d = dec_digits(n);
        assert(d =~= seq![(48 + n) as u8]);
        assert(d.drop_last() =~= Seq::<u8>::empty());
        assert(digits_val(d) == digits_val(Seq::<u8>::empty()) * 10 + (d.last() - 48));
    } else {
        lemma_dec_digits_round_trip(n / 10);
        let d = dec_digits(n / 10);
        let whole = dec_digits(n);
        assert(whole == d.push((48 + n % 10) as u8));
        assert(whole.drop_last() =~= d);
        assert(whole.last() == (48 + n % 10) as u8);
        assert(digits_val(whole) == digits_val(d) * 10 + n % 10);
        assert(all_digits(whole)) by {
            assert(forall|i: int|
                0 <= i < whole.len() ==> #[trigger] whole[i] == if i < d.len() {
                    d[i]
                } else {
                    (48 + n % 10) as u8
                });
        }
    }
}

} // verus!
