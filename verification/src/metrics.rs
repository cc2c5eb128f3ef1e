//! Metrics parser: turns the load generator's fixed human-readable
//! report into a structured metrics record. Numeric fields are located
//! by label, independent of exact column spacing; decimal figures are
//! held in fixed-point integers (hundredths), latencies in nanoseconds,
//! transfer sizes in bytes. Malformed text yields `None`, never a panic.
//!
//! The expected layout is a versioned contract of this library and any
//! upstream change to it must fail loudly here. In order, anywhere in
//! the text and under any whitespace:
//!
//! ```text
//! Latencies:
//!     Avg      Stdev    Min      Max
//!     3.27ms   1.51ms   0.10ms   19.93ms
//! ...  Req/Sec: 457963.14
//! Transfer:
//!     Total: 567.13 MB ...
//! ```
//!
//! A figure has at most two fraction digits; latencies carry a `us`,
//! `ms` or `s` suffix; the transfer unit is one of `B`, `KB`, `MB`,
//! `GB` (decimal multiples). Anything else is malformed.

use vstd::prelude::*;

verus! {

/// Structured decomposition of one load-generator report.
#[derive(Clone, Copy, Debug, PartialEq, Eq, Structural)]
pub struct Metrics {
    /// Requests per second, in hundredths (value x 100).
    pub requests_per_sec_centi: u64,
    /// Average latency, nanoseconds.
    pub latency_avg_ns: u64,
    /// Latency standard deviation, nanoseconds.
    pub latency_stdev_ns: u64,
    /// Minimum latency, nanoseconds.
    pub latency_min_ns: u64,
    /// Maximum latency, nanoseconds.
    pub latency_max_ns: u64,
    /// Total bytes transferred.
    pub transfer_total_bytes: u64,
}

pub open spec fn is_ws(b: u8) -> bool {
    b == 32 || b == 9 || b == 10 || b == 13
}

pub open spec fn is_digit(b: u8) -> bool {
    48 <= b <= 57
}

/// The pattern occurs in `s` at position `i`.
pub open spec fn match_at(s: Seq<u8>, pat: Seq<u8>, i: int) -> bool {
    0 <= i && i + pat.len() <= s.len() && s.subrange(i, i + pat.len() as int) == pat
}

/// First position at or after `from` where the (non-empty) pattern occurs.
pub open spec fn spec_find(s: Seq<u8>, pat: Seq<u8>, from: int) -> Option<int>
    decreases s.len() - from,
{
    if pat.len() == 0 || from < 0 || from + pat.len() > s.len() {
        None
    } else if match_at(s, pat, from) {
        Some(from)
    } else {
        spec_find(s, pat, from + 1)
    }
}

/// First position at or after `i` that is not whitespace (or the end).
pub open spec fn spec_skip_ws(s: Seq<u8>, i: int) -> int
    decreases s.len() - i,
{
    if 0 <= i < s.len() && is_ws(s[i]) {
        spec_skip_ws(s, i + 1)
    } else {
        i
    }
}

/// First position at or after `i` that is whitespace (or the end).
pub open spec fn spec_token_end(s: Seq<u8>, i: int) -> int
    decreases s.len() - i,
{
    if 0 <= i < s.len() && !is_ws(s[i]) {
        spec_token_end(s, i + 1)
    } else {
        i
    }
}

/// Every byte of `d` is a decimal digit.
pub open spec fn all_digits(d: Seq<u8>) -> bool {
    forall|j: int| 0 <= j < d.len() ==> is_digit(d[j])
}

/// Value of a run of decimal digits.
pub open spec fn digits_val(d: Seq<u8>) -> int
    decreases d.len(),
{
    if d.len() == 0 {
        0
    } else {
        digits_val(d.drop_last()) * 10 + (d.last() - 48)
    }
}

pub open spec fn pow10(n: nat) -> int
    decreases n,
{
    if n == 0 {
        1
    } else {
        10 * pow10((n - 1) as nat)
    }
}

pub proof fn lemma_pow10_mono(a: nat, b: nat)
    requires
        a <= b,
    ensures
        pow10(a) <= pow10(b),
    decreases b,
{
    if a < b {
        lemma_pow10_mono(a, (b - 1) as nat);
        lemma_pow10_pos((b - 1) as nat);
    }
}

pub proof fn lemma_pow10_pos(n: nat)
    ensures
        pow10(n) >= 1,
    decreases n,
{
    if n > 0 {
        lemma_pow10_pos((n - 1) as nat);
    }
}

/// Concrete powers of ten that the digit-run bounds lean on.
pub proof fn lemma_pow10_concrete()
    ensures
        pow10(2) == 100,
        pow10(6) == 1_000_000,
        pow10(12) == 1_000_000_000_000,
        pow10(13) == 10_000_000_000_000,
{
    reveal_with_fuel(pow10, 14);
}

/// A digit run's value is non-negative and below ten to its length.
pub proof fn lemma_digits_val_bound(d: Seq<u8>)
    requires
        all_digits(d),
    ensures
        0 <= digits_val(d) < pow10(d.len()),
    decreases d.len(),
{
    if d.len() > 0 {
        assert(all_digits(d.drop_last()));
        lemma_digits_val_bound(d.drop_last());
    }
}

/// Find the first occurrence of `pat` in `s` at or after `from`.
fn find(s: &Vec<u8>, pat: &Vec<u8>, from: usize) -> (r: Option<usize>)
    ensures
        r matches Some(i) ==> spec_find(s@, pat@, from as int) == Some(i as int),
        r is None ==> spec_find(s@, pat@, from as int) is None,
{
    let n = s.len();
    let m = pat.len();
    if m == 0 || from > n || m > n - from {
        return None;
    }
    let mut i: usize = from;
    while i <= n - m
        invariant
            from <= i,
            1 <= m == pat@.len() <= n == s@.len(),
            spec_find(s@, pat@, from as int) == spec_find(s@, pat@, i as int),
            i <= n,
        decreases n - i,
    {
        if match_at_exec(s, pat, i) {
            assert(spec_find(s@, pat@, i as int) == Some(i as int));
            return Some(i);
        }
        assert(spec_find(s@, pat@, i as int) == spec_find(s@, pat@, i + 1));
        i = i + 1;
    }
    assert(spec_find(s@, pat@, i as int) is None);
    None
}

/// Compare `pat` against `s` at position `i`.
fn match_at_exec(s: &Vec<u8>, pat: &Vec<u8>, i: usize) -> (r: bool)
    requires
        i + pat@.len() <= s@.len(),
    ensures
        r == match_at(s@, pat@, i as int),
{
    let n = s.len();
    let mut j: usize = 0;
    while j < pat.len()
        invariant
            j <= pat@.len(),
            i + pat@.len() <= s@.len(),
            n == s@.len(),
            forall|k: int| 0 <= k < j ==> s@[i + k] == pat@[k],
        decreases pat.len() - j,
    {
        if s[i + j] != pat[j] {
            assert(s@.subrange(i as int, i + pat@.len()) != pat@) by {
                assert(s@.subrange(i as int, i + pat@.len())[j as int] != pat@[j as int]);
            }
            return false;
        }
        j = j + 1;
    }
    assert(s@.subrange(i as int, i + pat@.len()) =~= pat@);
    true
}

/// Skip whitespace from `p`.
fn skip_ws(s: &Vec<u8>, p: usize) -> (r: usize)
    requires
        p <= s@.len(),
    ensures
        r == spec_skip_ws(s@, p as int),
        p <= r <= s@.len(),
{
    let mut i: usize = p;
    while i < s.len() && is_ws_exec(s[i])
        invariant
            p <= i <= s@.len(),
            spec_skip_ws(s@, p as int) == spec_skip_ws(s@, i as int),
        decreases s.len() - i,
    {
        i = i + 1;
    }
    i
}

/// End of the token that starts at `p`.
fn token_end(s: &Vec<u8>, p: usize) -> (r: usize)
    requires
        p <= s@.len(),
    ensures
        r == spec_token_end(s@, p as int),
        p <= r <= s@.len(),
{
    let mut i: usize = p;
    while i < s.len() && !is_ws_exec(s[i])
        invariant
            p <= i <= s@.len(),
            spec_token_end(s@, p as int) == spec_token_end(s@, i as int),
        decreases s.len() - i,
    {
        i = i + 1;
    }
    i
}

fn is_ws_exec(b: u8) -> (r: bool)
    ensures
        r == is_ws(b),
{
    b == 32 || b == 9 || b == 10 || b == 13
}

fn is_digit_exec(b: u8) -> (r: bool)
    ensures
        r == is_digit(b),
{
    48 <= b && b <= 57
}

/// Copy `s[i..e]` out as its own vector.
pub fn copy_range(s: &Vec<u8>, i: usize, e: usize) -> (v: Vec<u8>)
    requires
        i <= e <= s@.len(),
    ensures
        v@ == s@.subrange(i as int, e as int),
{
    let mut v: Vec<u8> = Vec::new();
    let mut j: usize = i;
    while j < e
        invariant
            i <= j <= e <= s@.len(),
            v@ == s@.subrange(i as int, j as int),
        decreases e - j,
    {
        v.push(s[j]);
        assert(s@.subrange(i as int, j + 1) =~= s@.subrange(i as int, j as int).push(s@[j as int]));
        j = j + 1;
    }
    v
}

/// Do all bytes of `t[from..to]` hold decimal digits?
fn all_digits_range(t: &Vec<u8>, from: usize, to: usize) -> (r: bool)
    requires
        from <= to <= t@.len(),
    ensures
        r == all_digits(t@.subrange(from as int, to as int)),
{
    let ghost sub = t@.subrange(from as int, to as int);
    let mut j: usize = from;
    while j < to
        invariant
            from <= j <= to <= t@.len(),
            sub == t@.subrange(from as int, to as int),
            forall|k: int| from <= k < j ==> is_digit(t@[k]),
        decreases to - j,
    {
        if !is_digit_exec(t[j]) {
            assert(!is_digit(sub[j - from]));
            return false;
        }
        j = j + 1;
    }
    assert forall|k: int| 0 <= k < sub.len() implies is_digit(sub[k]) by {
        assert(sub[k] == t@[from + k]);
    }
    true
}

/// Value of the digit run `t[from..to]`, which has at most 13 digits.
fn digits_value(t: &Vec<u8>, from: usize, to: usize) -> (r: u64)
    requires
        from <= to <= t@.len(),
        to - from <= 13,
        all_digits(t@.subrange(from as int, to as int)),
    ensures
        r == digits_val(t@.subrange(from as int, to as int)),
        r < pow10((to - from) as nat),
{
    let ghost sub = t@.subrange(from as int, to as int);
    proof {
        lemma_pow10_concrete();
    }
    let mut acc: u64 = 0;
    let mut j: usize = from;
    while j < to
        invariant
            from <= j <= to <= t@.len(),
            to - from <= 13,
            sub == t@.subrange(from as int, to as int),
            all_digits(sub),
            acc == digits_val(t@.subrange(from as int, j as int)),
            acc < pow10((j - from) as nat),
            pow10(13) == 10_000_000_000_000,
        decreases to - j,
    {
        let d = t[j];
        proof {
            assert(is_digit(sub[j - from]));
            assert(sub[j - from] == t@[j as int]);
            lemma_pow10_mono((j - from) as nat, 12);
            lemma_pow10_concrete();
            assert(t@.subrange(from as int, j + 1).drop_last() =~= t@.subrange(
                from as int,
                j as int,
            ));
            assert(t@.subrange(from as int, j + 1).last() == t@[j as int]);
        }
        acc = acc * 10 + ((d - 48) as u64);
        j = j + 1;
    }
    proof {
        lemma_pow10_mono((to - from) as nat, 13);
    }
    acc
}

/// First position at or after `from` holding byte `b`.
pub open spec fn spec_find_byte(t: Seq<u8>, b: u8, from: int) -> Option<int>
    decreases t.len() - from,
{
    if from < 0 || from >= t.len() {
        None
    } else if t[from] == b {
        Some(from)
    } else {
        spec_find_byte(t, b, from + 1)
    }
}

fn find_byte(t: &Vec<u8>, b: u8) -> (r: Option<usize>)
    ensures
        r matches Some(i) ==> spec_find_byte(t@, b, 0) == Some(i as int) && i < t@.len(),
        r is None ==> spec_find_byte(t@, b, 0) is None,
{
    let mut i: usize = 0;
    while i < t.len()
        invariant
            i <= t@.len(),
            spec_find_byte(t@, b, 0) == spec_find_byte(t@, b, i as int),
        decreases t.len() - i,
    {
        if t[i] == b {
            return Some(i);
        }
        i = i + 1;
    }
    None
}

/// Fixed-point value of integer and fraction digit runs, in hundredths.
pub open spec fn spec_centi_of_parts(ip: Seq<u8>, fp: Seq<u8>) -> int {
    digits_val(ip) * 100 + digits_val(fp) * (if fp.len() == 1 {
        10int
    } else {
        1int
    })
}

/// A decimal token ("123" or "123.45", fraction of one or two digits,
/// at most `max_int` integer digits), read into hundredths.
pub open spec fn spec_parse_centi(t: Seq<u8>, max_int: int) -> Option<u64> {
    match spec_find_byte(t, 46, 0) {
        None => if all_digits(t) && 1 <= t.len() <= max_int {
            Some((digits_val(t) * 100) as u64)
        } else {
            None
        },
        Some(k) => {
            let ip = t.take(k);
            let fp = t.skip(k + 1);
            if all_digits(ip) && all_digits(fp) && 1 <= ip.len() <= max_int && 1 <= fp.len() <= 2 {
                Some(spec_centi_of_parts(ip, fp) as u64)
            } else {
                None
            }
        },
    }
}

/// A parsed decimal stays below `pow10(max_int) * 100`.
pub proof fn lemma_parse_centi_bound(t: Seq<u8>, max_int: int)
    requires
        1 <= max_int <= 13,
        spec_parse_centi(t, max_int) is Some,
    ensures
        spec_parse_centi(t, max_int)->Some_0 < pow10(max_int as nat) * 100,
        spec_parse_centi(t, max_int)->Some_0 < 10_000_000_000_000 * 100,
{
    lemma_pow10_concrete();
    lemma_pow10_mono(max_int as nat, 13);
    lemma_pow10_pos(max_int as nat);
    match spec_find_byte(t, 46, 0) {
        None => {
            lemma_digits_val_bound(t);
            lemma_pow10_mono(t.len(), max_int as nat);
        },
        Some(k) => {
            let ip = t.take(k);
            let fp = t.skip(k + 1);
            lemma_digits_val_bound(ip);
            lemma_digits_val_bound(fp);
            lemma_pow10_mono(ip.len(), max_int as nat);
            lemma_pow10_mono(fp.len(), 2);
        },
    }
}

fn parse_centi(t: &Vec<u8>, max_int: usize) -> (r: Option<u64>)
    requires
        1 <= max_int <= 13,
    ensures
        r == spec_parse_centi(t@, max_int as int),
{
    proof {
        lemma_pow10_concrete();
    }
    match find_byte(t, 46) {
        None => {
            proof {
                assert(t@.subrange(0, t@.len() as int) =~= t@);
            }
            if 1 <= t.len() && t.len() <= max_int {
                if all_digits_range(t, 0, t.len()) {
                    let v = digits_value(t, 0, t.len());
                    proof {
                        lemma_pow10_mono((t@.len()) as nat, 13);
                    }
                    Some(v * 100)
                } else {
                    None
                }
            } else {
                None
            }
        },
        Some(k) => {
            proof {
                assert(t@.subrange(0, k as int) =~= t@.take(k as int));
                assert(t@.subrange(k + 1, t@.len() as int) =~= t@.skip(k + 1));
            }
            let flen = t.len() - (k + 1);
            if 1 <= k && k <= max_int && 1 <= flen && flen <= 2 {
                if all_digits_range(t, 0, k) && all_digits_range(t, k + 1, t.len()) {
                    let iv = digits_value(t, 0, k);
                    let fv = digits_value(t, k + 1, t.len());
                    proof {
                        lemma_pow10_mono(k as nat, 13);
                        lemma_pow10_mono(flen as nat, 2);
                    }
                    let scale: u64 = if flen == 1 {
                        10
                    } else {
                        1
                    };
                    Some(iv * 100 + fv * scale)
                } else {
                    None
                }
            } else {
                None
            }
        },
    }
}

/// A duration token: decimal figure (at most six integer digits)
/// followed by "us", "ms" or "s", read into nanoseconds.
pub open spec fn spec_parse_duration(t: Seq<u8>) -> Option<u64> {
    if t.len() >= 3 && t[t.len() - 2] == 117 && t[t.len() - 1] == 115 {
        match spec_parse_centi(t.take(t.len() - 2), 6) {
            None => None,
            Some(c) => Some((c * 10) as u64),
        }
    } else if t.len() >= 3 && t[t.len() - 2] == 109 && t[t.len() - 1] == 115 {
        match spec_parse_centi(t.take(t.len() - 2), 6) {
            None => None,
            Some(c) => Some((c * 10_000) as u64),
        }
    } else if t.len() >= 2 && t[t.len() - 1] == 115 {
        match spec_parse_centi(t.take(t.len() - 1), 6) {
            None => None,
            Some(c) => Some((c * 10_000_000) as u64),
        }
    } else {
        None
    }
}

fn parse_duration(t: &Vec<u8>) -> (r: Option<u64>)
    ensures
        r == spec_parse_duration(t@),
{
    proof {
        lemma_pow10_concrete();
    }
    let n = t.len();
    if n >= 3 && t[n - 2] == 117 && t[n - 1] == 115 {
        let num = copy_range(t, 0, n - 2);
        proof {
            assert(num@ =~= t@.take(n - 2));
        }
        match parse_centi(&num, 6) {
            None => None,
            Some(c) => {
                proof {
                    lemma_parse_centi_bound(t@.take(n - 2), 6);
                }
                Some(c * 10)
            },
        }
    } else if n >= 3 && t[n - 2] == 109 && t[n - 1] == 115 {
        let num = copy_range(t, 0, n - 2);
        proof {
            assert(num@ =~= t@.take(n - 2));
        }
        match parse_centi(&num, 6) {
            None => None,
            Some(c) => {
                proof {
                    lemma_parse_centi_bound(t@.take(n - 2), 6);
                }
                Some(c * 10_000)
            },
        }
    } else if n >= 2 && t[n - 1] == 115 {
        let num = copy_range(t, 0, n - 1);
        proof {
            assert(num@ =~= t@.take(n - 1));
        }
        match parse_centi(&num, 6) {
            None => None,
            Some(c) => {
                proof {
                    lemma_parse_centi_bound(t@.take(n - 1), 6);
                }
                Some(c * 10_000_000)
            },
        }
    } else {
        None
    }
}

/// Size-unit token ("B", "KB", "MB", "GB") as a multiplier of one
/// hundredth of the unit, so that `centi * mult / 100` gives bytes.
pub open spec fn spec_size_mult100(t: Seq<u8>) -> Option<u64> {
    if t == seq![66u8] {
        Some(1u64)
    } else if t == seq![75u8, 66u8] {
        Some(1000u64)
    } else if t == seq![77u8, 66u8] {
        Some(1000000u64)
    } else if t == seq![71u8, 66u8] {
        Some(1000000000u64)
    } else {
        None
    }
}

fn size_mult100(t: &Vec<u8>) -> (r: Option<u64>)
    ensures
        r == spec_size_mult100(t@),
{
    proof {
        assert(seq![66u8].len() == 1);
        assert(seq![75u8, 66u8].len() == 2);
        assert(seq![77u8, 66u8].len() == 2);
        assert(seq![71u8, 66u8].len() == 2);
    }
    if t.len() == 1 && t[0] == 66 {
        proof {
            assert(t@ =~= seq![66u8]);
        }
        Some(1)
    } else if t.len() == 2 && t[0] == 75 && t[1] == 66 {
        proof {
            assert(t@ =~= seq![75u8, 66u8]);
        }
        Some(1000)
    } else if t.len() == 2 && t[0] == 77 && t[1] == 66 {
        proof {
            assert(t@ =~= seq![77u8, 66u8]);
        }
        Some(1000000)
    } else if t.len() == 2 && t[0] == 71 && t[1] == 66 {
        proof {
            assert(t@ =~= seq![71u8, 66u8]);
        }
        Some(1000000000)
    } else {
        proof {
            if t@ == seq![66u8] {
                assert(t@[0] == 66u8);
            }
            if t@ == seq![75u8, 66u8] {
                assert(t@[0] == 75u8 && t@[1] == 66u8);
            }
            if t@ == seq![77u8, 66u8] {
                assert(t@[0] == 77u8 && t@[1] == 66u8);
            }
            if t@ == seq![71u8, 66u8] {
                assert(t@[0] == 71u8 && t@[1] == 66u8);
            }
        }
        None
    }
}

/// "Latencies:"
pub open spec fn label_latencies() -> Seq<u8> {
    seq![76u8, 97u8, 116u8, 101u8, 110u8, 99u8, 105u8, 101u8, 115u8, 58u8]
}

/// "Avg"
pub open spec fn label_avg() -> Seq<u8> {
    seq![65u8, 118u8, 103u8]
}

/// "Stdev"
pub open spec fn label_stdev() -> Seq<u8> {
    seq![83u8, 116u8, 100u8, 101u8, 118u8]
}

/// "Min"
pub open spec fn label_min() -> Seq<u8> {
    seq![77u8, 105u8, 110u8]
}

/// "Max"
pub open spec fn label_max() -> Seq<u8> {
    seq![77u8, 97u8, 120u8]
}

/// "Req/Sec:"
pub open spec fn label_req_sec() -> Seq<u8> {
    seq![82u8, 101u8, 113u8, 47u8, 83u8, 101u8, 99u8, 58u8]
}

/// "Transfer:"
pub open spec fn label_transfer() -> Seq<u8> {
    seq![84u8, 114u8, 97u8, 110u8, 115u8, 102u8, 101u8, 114u8, 58u8]
}

/// "Total:"
pub open spec fn label_total() -> Seq<u8> {
    seq![84u8, 111u8, 116u8, 97u8, 108u8, 58u8]
}

/// The next token after `p` (whitespace skipped) is exactly `tok`;
/// yields the position just past it.
pub open spec fn spec_expect_token(s: Seq<u8>, p: int, tok: Seq<u8>) -> Option<int> {
    let st = spec_skip_ws(s, p);
    let en = spec_token_end(s, st);
    if tok.len() > 0 && en - st == tok.len() && s.subrange(st, en) == tok {
        Some(en)
    } else {
        None
    }
}

fn expect_token(s: &Vec<u8>, p: usize, tok: &Vec<u8>) -> (r: Option<usize>)
    requires
        p <= s@.len(),
    ensures
        r matches Some(e) ==> spec_expect_token(s@, p as int, tok@) == Some(e as int) && p <= e
            <= s@.len(),
        r is None ==> spec_expect_token(s@, p as int, tok@) is None,
{
    let st = skip_ws(s, p);
    let en = token_end(s, st);
    if tok.len() > 0 && en - st == tok.len() {
        if match_at_exec(s, tok, st) {
            proof {
                assert(s@.subrange(st as int, st + tok@.len()) =~= s@.subrange(
                    st as int,
                    en as int,
                ));
            }
            Some(en)
        } else {
            proof {
                assert(s@.subrange(st as int, st + tok@.len()) =~= s@.subrange(
                    st as int,
                    en as int,
                ));
            }
            None
        }
    } else {
        None
    }
}

/// The next token after `p`, read as a duration; yields nanoseconds and
/// the position just past the token.
pub open spec fn spec_duration_at(s: Seq<u8>, p: int) -> Option<(u64, int)> {
    let st = spec_skip_ws(s, p);
    let en = spec_token_end(s, st);
    match spec_parse_duration(s.subrange(st, en)) {
        None => None,
        Some(v) => Some((v, en)),
    }
}

fn duration_at(s: &Vec<u8>, p: usize) -> (r: Option<(u64, usize)>)
    requires
        p <= s@.len(),
    ensures
        r matches Some(ve) ==> spec_duration_at(s@, p as int) == Some((ve.0, ve.1 as int)) && p
            <= ve.1 <= s@.len(),
        r is None ==> spec_duration_at(s@, p as int) is None,
{
    let st = skip_ws(s, p);
    let en = token_end(s, st);
    let t = copy_range(s, st, en);
    match parse_duration(&t) {
        None => None,
        Some(v) => Some((v, en)),
    }
}

/// The next token after `p`, read as a plain decimal in hundredths;
/// yields the value and the position just past the token.
pub open spec fn spec_centi_at(s: Seq<u8>, p: int) -> Option<(u64, int)> {
    let st = spec_skip_ws(s, p);
    let en = spec_token_end(s, st);
    match spec_parse_centi(s.subrange(st, en), 13) {
        None => None,
        Some(v) => Some((v, en)),
    }
}

fn centi_at(s: &Vec<u8>, p: usize) -> (r: Option<(u64, usize)>)
    requires
        p <= s@.len(),
    ensures
        r matches Some(ve) ==> spec_centi_at(s@, p as int) == Some((ve.0, ve.1 as int)) && p
            <= ve.1 <= s@.len(),
        r is None ==> spec_centi_at(s@, p as int) is None,
{
    let st = skip_ws(s, p);
    let en = token_end(s, st);
    let t = copy_range(s, st, en);
    match parse_centi(&t, 13) {
        None => None,
        Some(v) => Some((v, en)),
    }
}

/// The latency section: the "Latencies:" label, its four column
/// headers, then the four duration figures, in order.
pub open spec fn spec_parse_latency_section(s: Seq<u8>) -> Option<(u64, u64, u64, u64, int)> {
    match spec_find(s, label_latencies(), 0) {
        None => None,
        Some(i) => {
            let p0 = i + label_latencies().len() as int;
            match spec_expect_token(s, p0, label_avg()) {
                None => None,
                Some(p1) => match spec_expect_token(s, p1, label_stdev()) {
                    None => None,
                    Some(p2) => match spec_expect_token(s, p2, label_min()) {
                        None => None,
                        Some(p3) => match spec_expect_token(s, p3, label_max()) {
                            None => None,
                            Some(p4) => match spec_duration_at(s, p4) {
                                None => None,
                                Some((avg, p5)) => match spec_duration_at(s, p5) {
                                    None => None,
                                    Some((sd, p6)) => match spec_duration_at(s, p6) {
                                        None => None,
                                        Some((mn, p7)) => match spec_duration_at(s, p7) {
                                            None => None,
                                            Some((mx, p8)) => Some((avg, sd, mn, mx, p8)),
                                        },
                                    },
                                },
                            },
                        },
                    },
                },
            }
        },
    }
}

/// The requests figure: the "Req/Sec:" label found at or after `from`,
/// then its decimal value.
pub open spec fn spec_parse_rps(s: Seq<u8>, from: int) -> Option<(u64, int)> {
    match spec_find(s, label_req_sec(), from) {
        None => None,
        Some(i) => spec_centi_at(s, i + label_req_sec().len() as int),
    }
}

/// The transfer figure: the "Transfer:" label found at or after `from`,
/// its "Total:" field, a decimal figure and a size unit, read as bytes.
pub open spec fn spec_parse_transfer(s: Seq<u8>, from: int) -> Option<u64> {
    match spec_find(s, label_transfer(), from) {
        None => None,
        Some(i) => match spec_expect_token(s, i + label_transfer().len() as int, label_total()) {
            None => None,
            Some(p) => {
                let st = spec_skip_ws(s, p);
                let en = spec_token_end(s, st);
                match spec_parse_centi(s.subrange(st, en), 6) {
                    None => None,
                    Some(c) => {
                        let st2 = spec_skip_ws(s, en);
                        let en2 = spec_token_end(s, st2);
                        match spec_size_mult100(s.subrange(st2, en2)) {
                            None => None,
                            Some(m) => Some(((c * m) / 100) as u64),
                        }
                    },
                }
            },
        },
    }
}

/// The whole report: latency section, then the requests figure, then
/// the transfer figure, in that order.
pub open spec fn spec_parse_metrics(s: Seq<u8>) -> Option<Metrics> {
    match spec_parse_latency_section(s) {
        None => None,
        Some((avg, sd, mn, mx, p)) => match spec_parse_rps(s, p) {
            None => None,
            Some((rps, q)) => match spec_parse_transfer(s, q) {
                None => None,
                Some(bytes) => Some(
                    Metrics {
                        requests_per_sec_centi: rps,
                        latency_avg_ns: avg,
                        latency_stdev_ns: sd,
                        latency_min_ns: mn,
                        latency_max_ns: mx,
                        transfer_total_bytes: bytes,
                    },
                ),
            },
        },
    }
}

fn parse_latency_section(s: &Vec<u8>) -> (r: Option<(u64, u64, u64, u64, usize)>)
    ensures
        r matches Some(v) ==> spec_parse_latency_section(s@) == Some(
            (v.0, v.1, v.2, v.3, v.4 as int),
        ) && v.4 <= s@.len(),
        r is None ==> spec_parse_latency_section(s@) is None,
{
    let lab = vec![76u8, 97u8, 116u8, 101u8, 110u8, 99u8, 105u8, 101u8, 115u8, 58u8];
    proof {
        assert(lab@ =~= label_latencies());
    }
    let i = match find(s, &lab, 0) {
        None => {
            return None;
        },
        Some(i) => i,
    };
    let n = s.len();
    proof {
        lemma_find_in_range(s@, lab@, 0, i as int);
        assert(i + lab@.len() <= n);
    }
    let avg_lab = vec![65u8, 118u8, 103u8];
    let stdev_lab = vec![83u8, 116u8, 100u8, 101u8, 118u8];
    let min_lab = vec![77u8, 105u8, 110u8];
    let max_lab = vec![77u8, 97u8, 120u8];
    proof {
        assert(avg_lab@ =~= label_avg());
        assert(stdev_lab@ =~= label_stdev());
        assert(min_lab@ =~= label_min());
        assert(max_lab@ =~= label_max());
    }
    let p0 = i + lab.len();
    let p1 = match expect_token(s, p0, &avg_lab) {
        None => {
            return None;
        },
        Some(p) => p,
    };
    let p2 = match expect_token(s, p1, &stdev_lab) {
        None => {
            return None;
        },
        Some(p) => p,
    };
    let p3 = match expect_token(s, p2, &min_lab) {
        None => {
            return None;
        },
        Some(p) => p,
    };
    let p4 = match expect_token(s, p3, &max_lab) {
        None => {
            return None;
        },
        Some(p) => p,
    };
    let (avg, p5) = match duration_at(s, p4) {
        None => {
            return None;
        },
        Some(v) => v,
    };
    let (sd, p6) = match duration_at(s, p5) {
        None => {
            return None;
        },
        Some(v) => v,
    };
    let (mn, p7) = match duration_at(s, p6) {
        None => {
            return None;
        },
        Some(v) => v,
    };
    let (mx, p8) = match duration_at(s, p7) {
        None => {
            return None;
        },
        Some(v) => v,
    };
    Some((avg, sd, mn, mx, p8))
}

/// A found pattern lies inside the text.
proof fn lemma_find_in_range(s: Seq<u8>, pat: Seq<u8>, from: int, i: int)
    requires
        spec_find(s, pat, from) == Some(i),
        0 <= from,
    ensures
        from <= i,
        i + pat.len() <= s.len(),
    decreases s.len() - from,
{
    if pat.len() == 0 || from < 0 || from + pat.len() > s.len() {
    } else if match_at(s, pat, from) {
    } else {
        lemma_find_in_range(s, pat, from + 1, i);
    }
}

fn parse_rps(s: &Vec<u8>, from: usize) -> (r: Option<(u64, usize)>)
    requires
        from <= s@.len(),
    ensures
        r matches Some(v) ==> spec_parse_rps(s@, from as int) == Some((v.0, v.1 as int)) && v.1
            <= s@.len(),
        r is None ==> spec_parse_rps(s@, from as int) is None,
{
    let lab = vec![82u8, 101u8, 113u8, 47u8, 83u8, 101u8, 99u8, 58u8];
    proof {
        assert(lab@ =~= label_req_sec());
    }
    let i = match find(s, &lab, from) {
        None => {
            return None;
        },
        Some(i) => i,
    };
    let n = s.len();
    proof {
        lemma_find_in_range(s@, lab@, from as int, i as int);
        assert(i + lab@.len() <= n);
    }
    centi_at(s, i + lab.len())
}

fn parse_transfer(s: &Vec<u8>, from: usize) -> (r: Option<u64>)
    requires
        from <= s@.len(),
    ensures
        r == spec_parse_transfer(s@, from as int),
{
    let lab = vec![84u8, 114u8, 97u8, 110u8, 115u8, 102u8, 101u8, 114u8, 58u8];
    let total_lab = vec![84u8, 111u8, 116u8, 97u8, 108u8, 58u8];
    proof {
        assert(lab@ =~= label_transfer());
        assert(total_lab@ =~= label_total());
    }
    let i = match find(s, &lab, from) {
        None => {
            return None;
        },
        Some(i) => i,
    };
    let n = s.len();
    proof {
        lemma_find_in_range(s@, lab@, from as int, i as int);
        assert(i + lab@.len() <= n);
    }
    let p = match expect_token(s, i + lab.len(), &total_lab) {
        None => {
            return None;
        },
        Some(p) => p,
    };
    let st = skip_ws(s, p);
    let en = token_end(s, st);
    let num = copy_range(s, st, en);
    let c = match parse_centi(&num, 6) {
        None => {
            return None;
        },
        Some(c) => c,
    };
    let st2 = skip_ws(s, en);
    let en2 = token_end(s, st2);
    let unit = copy_range(s, st2, en2);
    match size_mult100(&unit) {
        None => None,
        Some(m) => {
            proof {
                lemma_parse_centi_bound(s@.subrange(st as int, en as int), 6);
                lemma_pow10_concrete();
                assert(c < 100_000_000);
                assert(m <= 1_000_000_000);
                assert(c * m <= 100_000_000 * 1_000_000_000) by (nonlinear_arith)
                    requires
                        c < 100_000_000,
                        m <= 1_000_000_000,
                ;
            }
            Some((c * m) / 100)
        },
    }
}

/// Parse one complete load-generator report. The result is exactly
/// what the layout specification says of the text: the same text always
/// parses the same way, well-formed text parses, and malformed text is
/// answered with `None` rather than a panic.
pub fn parse_metrics(s: &Vec<u8>) -> (r: Option<Metrics>)
    ensures
        r == spec_parse_metrics(s@),
{
    let (avg, sd, mn, mx, p) = match parse_latency_section(s) {
        None => {
            return None;
        },
        Some(v) => v,
    };
    let (rps, q) = match parse_rps(s, p) {
        None => {
            return None;
        },
        Some(v) => v,
    };
    match parse_transfer(s, q) {
        None => None,
        Some(bytes) => Some(
            Metrics {
                requests_per_sec_centi: rps,
                latency_avg_ns: avg,
                latency_stdev_ns: sd,
                latency_min_ns: mn,
                latency_max_ns: mx,
                transfer_total_bytes: bytes,
            },
        ),
    }
}

} // verus!
