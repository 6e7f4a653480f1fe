//! Tuning-configuration parser.
//!
//! The tuning file is line-oriented text: one directive per line, of the
//! form `<name>: (<kp>, <ki>, <kd>)`, where `<name>` is one of the six
//! controller names (`x_pid`, `z_pid`, `h_pid`, `pitch_pid`, `roll_pid`,
//! `yaw_pid`, case-sensitive, surrounding whitespace trimmed) and the three
//! parameters are decimal literals, whitespace-trimmed, in the fixed order
//! kp, ki, kd. Lines are split at `\n`; a `\r` before the `\n` is dropped.
//! Every line must be a directive (blank lines are rejected), all six names
//! must appear, and a repeated name overwrites the earlier value
//! (last write wins). Line numbers in errors count from zero.
//!
//! Numbers are parsed into fixed-point micro-units (see [`crate::fixed`]):
//! an optional sign, then decimal digits with at most one point; at least
//! one digit must be present, the integer part must stay below `10^12`
//! whole units, fraction digits beyond the sixth are truncated, and no
//! exponent form is accepted.

use vstd::prelude::*;

verus! {

/// First index at which byte `b` occurs in `s`, or `s.len()` if it does not.
pub open spec fn spec_find(s: Seq<u8>, b: u8) -> int
    decreases s.len(),
{
    if s.len() == 0 {
        0
    } else if s[0] == b {
        0
    } else {
        1 + spec_find(s.drop_first(), b)
    }
}

/// `spec_find` returns the position characterized by "no occurrence before
/// `k`, and `k` is either an occurrence or the end".
proof fn lemma_find_at(s: Seq<u8>, b: u8, k: int)
    requires
        0 <= k <= s.len(),
        forall|i: int| 0 <= i < k ==> s[i] != b,
        k < s.len() ==> s[k] == b,
    ensures
        spec_find(s, b) == k,
    decreases k,
{
    if k == 0 {
    } else {
        assert(s[0] != b);
        lemma_find_at(s.drop_first(), b, k - 1);
    }
}

/// Position and range facts about `spec_find` itself.
proof fn lemma_find_props(s: Seq<u8>, b: u8)
    ensures
        0 <= spec_find(s, b) <= s.len(),
        spec_find(s, b) < s.len() ==> s[spec_find(s, b)] == b,
        forall|i: int| 0 <= i < spec_find(s, b) ==> s[i] != b,
    decreases s.len(),
{
    if s.len() == 0 {
    } else if s[0] == b {
    } else {
        lemma_find_props(s.drop_first(), b);
        assert forall|i: int| 0 <= i < spec_find(s, b) implies s[i] != b by {
            if i > 0 {
                assert(s.drop_first()[i - 1] == s[i]);
            }
        }
    }
}

/// Finds the first occurrence of `b` in `v[start..end]`, returning the
/// absolute index of the occurrence, or `end` if there is none.
fn find_byte(v: &Vec<u8>, start: usize, end: usize, b: u8) -> (j: usize)
    requires
        start <= end <= v.len(),
    ensures
        start <= j <= end,
        j - start == spec_find(v@.subrange(start as int, end as int), b),
        j < end ==> v@[j as int] == b,
        forall|i: int| start <= i < j ==> v@[i] != b,
{
    let ghost s = v@.subrange(start as int, end as int);
    let mut j: usize = start;
    while j < end && v[j] != b
        invariant
            start <= j <= end <= v.len(),
            forall|i: int| start <= i < j ==> v@[i] != b,
        decreases end - j,
    {
        j = j + 1;
    }
    proof {
        assert forall|i: int| 0 <= i < j - start implies s[i] != b by {
            assert(s[i] == v@[start + i]);
        }
        if j < end {
            assert(s[j - start] == v@[j as int]);
        }
        lemma_find_at(s, b, j - start);
    }
    j
}

/// Whitespace for the purposes of trimming: space, tab, carriage return.
pub open spec fn is_ws(b: u8) -> bool {
    b == 32 || b == 9 || b == 13
}

/// `s` without its leading whitespace.
pub open spec fn spec_trim_start(s: Seq<u8>) -> Seq<u8>
    decreases s.len(),
{
    if s.len() > 0 && is_ws(s[0]) {
        spec_trim_start(s.drop_first())
    } else {
        s
    }
}

/// `s` without its trailing whitespace.
pub open spec fn spec_trim_end(s: Seq<u8>) -> Seq<u8>
    decreases s.len(),
{
    if s.len() > 0 && is_ws(s.last()) {
        spec_trim_end(s.drop_last())
    } else {
        s
    }
}

/// `s` without leading and trailing whitespace.
pub open spec fn spec_trim(s: Seq<u8>) -> Seq<u8> {
    spec_trim_end(spec_trim_start(s))
}

/// Dropping `k` leading whitespace bytes, up to the first byte that is not
/// whitespace, is exactly `spec_trim_start`.
proof fn lemma_trim_start_at(s: Seq<u8>, k: int)
    requires
        0 <= k <= s.len(),
        forall|i: int| 0 <= i < k ==> is_ws(s[i]),
        k < s.len() ==> !is_ws(s[k]),
    ensures
        spec_trim_start(s) == s.skip(k),
    decreases k,
{
    if k == 0 {
        assert(s.skip(0) =~= s);
    } else {
        assert(is_ws(s[0]));
        lemma_trim_start_at(s.drop_first(), k - 1);
        assert(s.drop_first().skip(k - 1) =~= s.skip(k));
    }
}

/// Keeping the first `m` bytes, where everything from `m` on is whitespace
/// and the byte before `m` is not, is exactly `spec_trim_end`.
proof fn lemma_trim_end_at(s: Seq<u8>, m: int)
    requires
        0 <= m <= s.len(),
        forall|i: int| m <= i < s.len() ==> is_ws(s[i]),
        m > 0 ==> !is_ws(s[m - 1]),
    ensures
        spec_trim_end(s) == s.take(m),
    decreases s.len(),
{
    if m == s.len() {
        if s.len() > 0 {
            assert(!is_ws(s.last()));
        }
        assert(s.take(m) =~= s);
    } else {
        assert(is_ws(s.last()));
        lemma_trim_end_at(s.drop_last(), m);
        assert(s.drop_last().take(m) =~= s.take(m));
    }
}

/// Executable check matching [`is_ws`].
fn byte_is_ws(b: u8) -> (r: bool)
    ensures
        r == is_ws(b),
{
    b == 32 || b == 9 || b == 13
}

/// Trims whitespace from both ends of `v[start..end]`, returning the
/// absolute bounds of the trimmed region.
fn trim_range(v: &Vec<u8>, start: usize, end: usize) -> (r: (usize, usize))
    requires
        start <= end <= v.len(),
    ensures
        start <= r.0 <= r.1 <= end,
        v@.subrange(r.0 as int, r.1 as int) == spec_trim(
            v@.subrange(start as int, end as int),
        ),
{
    let ghost s = v@.subrange(start as int, end as int);
    let mut ts: usize = start;
    while ts < end && byte_is_ws(v[ts])
        invariant
            start <= ts <= end <= v.len(),
            forall|i: int| start <= i < ts ==> is_ws(v@[i]),
        decreases end - ts,
    {
        ts = ts + 1;
    }
    let mut te: usize = end;
    while te > ts && byte_is_ws(v[te - 1])
        invariant
            ts <= te <= end <= v.len(),
            forall|i: int| te <= i < end ==> is_ws(v@[i]),
        decreases te,
    {
        te = te - 1;
    }
    proof {
        assert forall|i: int| 0 <= i < ts - start implies is_ws(s[i]) by {
            assert(s[i] == v@[start + i]);
        }
        if ts < end {
            assert(s[ts - start] == v@[ts as int]);
        }
        lemma_trim_start_at(s, ts - start);
        let t = s.skip(ts - start);
        assert(t =~= v@.subrange(ts as int, end as int));
        assert forall|i: int| te - ts <= i < t.len() implies is_ws(t[i]) by {
            assert(t[i] == v@[ts + i]);
        }
        if te > ts {
            assert(t[te - ts - 1] == v@[te - 1]);
        }
        lemma_trim_end_at(t, te - ts);
        assert(t.take(te - ts) =~= v@.subrange(ts as int, te as int));
    }
    (ts, te)
}

/// Whether `b` is a decimal digit.
pub open spec fn is_digit(b: u8) -> bool {
    48 <= b <= 57
}

/// Whether every byte of `s` is a decimal digit.
pub open spec fn all_digits(s: Seq<u8>) -> bool {
    forall|i: int| 0 <= i < s.len() ==> is_digit(s[i])
}

/// The number denoted by a sequence of decimal digit bytes, most
/// significant first; the empty sequence denotes zero.
pub open spec fn digits_val(s: Seq<u8>) -> int
    decreases s.len(),
{
    if s.len() == 0 {
        0
    } else {
        digits_val(s.drop_last()) * 10 + (s.last() - 48)
    }
}

/// Extending a digit prefix by one byte multiplies its value by ten and
/// adds the new digit.
proof fn lemma_digits_val_step(s: Seq<u8>, j: int)
    requires
        0 <= j < s.len(),
    ensures
        digits_val(s.take(j + 1)) == digits_val(s.take(j)) * 10 + (s[j] - 48),
{
    assert(s.take(j + 1).drop_last() =~= s.take(j));
    assert(s.take(j + 1).last() == s[j]);
}

/// `s` padded with trailing zero digits to six places, or truncated to its
/// first six bytes: the fraction digits that count, in micro-units.
pub open spec fn pad6(s: Seq<u8>) -> Seq<u8> {
    if s.len() >= 6 {
        s.take(6)
    } else {
        s + Seq::new((6 - s.len()) as nat, |i: int| 48u8)
    }
}

/// Largest integer part accepted by the number parser, in whole units.
pub const MAX_INT_PART: u64 = 999_999_999_999;

/// The fixed-point number denoted by a trimmed token: an optional sign,
/// decimal digits with at most one point, at least one digit in all; `None`
/// on any other shape and on an integer part of `10^12` units or more.
/// Fraction digits beyond the sixth are truncated.
pub open spec fn spec_parse_fixed(s: Seq<u8>) -> Option<i64> {
    if s.len() == 0 {
        None
    } else {
        let neg = s[0] == 45;
        let t = if s[0] == 45 || s[0] == 43 {
            s.drop_first()
        } else {
            s
        };
        let dot = spec_find(t, 46);
        let ip = t.take(dot);
        let fp = if dot == t.len() {
            Seq::<u8>::empty()
        } else {
            t.skip(dot + 1)
        };
        if !all_digits(ip) || !all_digits(fp) || ip.len() + fp.len() == 0 || digits_val(ip)
            > MAX_INT_PART as int {
            None
        } else {
            let v = digits_val(ip) * 1_000_000 + digits_val(pad6(fp));
            Some((if neg { -v } else { v }) as i64)
        }
    }
}

/// Scans `v[start..end]` as a digit run, accumulating its value with a cap:
/// `None` if a non-digit occurs, otherwise the value, saturated to
/// "too large" when it exceeds [`MAX_INT_PART`].
fn scan_int_digits(v: &Vec<u8>, start: usize, end: usize) -> (r: Option<(u64, bool)>)
    requires
        start <= end <= v.len(),
    ensures
        ({
            let s = v@.subrange(start as int, end as int);
            match r {
                None => !all_digits(s),
                Some((val, big)) => all_digits(s) && (if big {
                    digits_val(s) > MAX_INT_PART as int
                } else {
                    val as int == digits_val(s) && val <= MAX_INT_PART
                }),
            }
        }),
{
    let ghost s = v@.subrange(start as int, end as int);
    let mut j: usize = start;
    let mut val: u64 = 0;
    let mut big: bool = false;
    while j < end
        invariant
            start <= j <= end <= v.len(),
            forall|i: int| 0 <= i < j - start ==> is_digit(s[i]),
            s == v@.subrange(start as int, end as int),
            if big {
                digits_val(s.take(j - start)) > MAX_INT_PART as int
            } else {
                val as int == digits_val(s.take(j - start)) && val <= MAX_INT_PART
            },
        decreases end - j,
    {
        let b = v[j];
        if b < 48 || b > 57 {
            proof {
                assert(s[j - start] == v@[j as int]);
            }
            return None;
        }
        proof {
            assert(s[j - start] == v@[j as int]);
            lemma_digits_val_step(s, j - start);
        }
        let d = (b - 48) as u64;
        if big {
        } else {
            let next = val * 10 + d;
            if next > MAX_INT_PART {
                big = true;
            } else {
                val = next;
            }
        }
        j = j + 1;
    }
    proof {
        assert(s.take(j - start) =~= s);
    }
    Some((val, big))
}

/// Reads byte `k` of the zero-padded six-digit fraction region
/// `v[dstart..dend]`.
fn pad_byte(v: &Vec<u8>, dstart: usize, dend: usize, k: usize) -> (r: u8)
    requires
        dstart <= dend <= v.len(),
        k < 6,
    ensures
        r == pad6(v@.subrange(dstart as int, dend as int))[k as int],
        all_digits(v@.subrange(dstart as int, dend as int)) ==> is_digit(r),
{
    let ghost s = v@.subrange(dstart as int, dend as int);
    if k < dend - dstart {
        proof {
            assert(pad6(s)[k as int] == s[k as int]);
            assert(s[k as int] == v@[dstart + k]);
        }
        v[dstart + k]
    } else {
        proof {
            assert(pad6(s)[k as int] == 48);
        }
        48
    }
}

/// Reads the six leading fraction digits of `v[start..end]`, padding with
/// zeros past the end; fails on any non-digit in the whole region.
fn scan_frac_digits(v: &Vec<u8>, start: usize, end: usize) -> (r: Option<u64>)
    requires
        start <= end <= v.len(),
    ensures
        ({
            let s = v@.subrange(start as int, end as int);
            match r {
                None => !all_digits(s),
                Some(val) => all_digits(s) && val as int == digits_val(pad6(s)) && val
                    < 1_000_000,
            }
        }),
{
    let ghost s = v@.subrange(start as int, end as int);
    let mut j: usize = start;
    while j < end
        invariant
            start <= j <= end <= v.len(),
            forall|i: int| 0 <= i < j - start ==> is_digit(s[i]),
            s == v@.subrange(start as int, end as int),
        decreases end - j,
    {
        let b = v[j];
        if b < 48 || b > 57 {
            proof {
                assert(s[j - start] == v@[j as int]);
            }
            return None;
        }
        proof {
            assert(s[j - start] == v@[j as int]);
        }
        j = j + 1;
    }
    proof {
        assert(all_digits(s));
        assert(pad6(s).take(0int) =~= Seq::<u8>::empty());
    }
    let b0 = pad_byte(v, start, end, 0);
    let b1 = pad_byte(v, start, end, 1);
    let b2 = pad_byte(v, start, end, 2);
    let b3 = pad_byte(v, start, end, 3);
    let b4 = pad_byte(v, start, end, 4);
    let b5 = pad_byte(v, start, end, 5);
    proof {
        lemma_digits_val_step(pad6(s), 0);
        lemma_digits_val_step(pad6(s), 1);
        lemma_digits_val_step(pad6(s), 2);
        lemma_digits_val_step(pad6(s), 3);
        lemma_digits_val_step(pad6(s), 4);
        lemma_digits_val_step(pad6(s), 5);
        assert(pad6(s).take(6) =~= pad6(s));
    }
    let mut val: u64 = (b0 - 48) as u64;
    val = val * 10 + (b1 - 48) as u64;
    val = val * 10 + (b2 - 48) as u64;
    val = val * 10 + (b3 - 48) as u64;
    val = val * 10 + (b4 - 48) as u64;
    val = val * 10 + (b5 - 48) as u64;
    Some(val)
}

/// Parses the trimmed token `v[start..end]` as a fixed-point number.
fn parse_fixed(v: &Vec<u8>, start: usize, end: usize) -> (r: Option<i64>)
    requires
        start <= end <= v.len(),
    ensures
        r == spec_parse_fixed(v@.subrange(start as int, end as int)),
{
    let ghost s = v@.subrange(start as int, end as int);
    if start == end {
        return None;
    }
    let first = v[start];
    let neg = first == 45;
    let p: usize = if first == 45 || first == 43 {
        start + 1
    } else {
        start
    };
    let ghost t = v@.subrange(p as int, end as int);
    proof {
        assert(s[0] == v@[start as int]);
        if first == 45 || first == 43 {
            assert(s.drop_first() =~= t);
        } else {
            assert(s =~= t);
        }
    }
    let dot = find_byte(v, p, end, 46);
    let ghost ip = t.take(dot - p);
    let ghost fp = if dot == end {
        Seq::<u8>::empty()
    } else {
        t.skip(dot - p + 1)
    };
    proof {
        assert(ip =~= v@.subrange(p as int, dot as int));
        if dot < end {
            assert(fp =~= v@.subrange(dot + 1, end as int));
        }
    }
    let int_scan = scan_int_digits(v, p, dot);
    let frac_scan: Option<u64> = if dot == end {
        Some(0u64)
    } else {
        scan_frac_digits(v, dot + 1, end)
    };
    proof {
        if dot == end {
            assert(fp =~= Seq::<u8>::empty());
            assert(pad6(fp) =~= Seq::new(6nat, |i: int| 48u8));
            assert(digits_val(pad6(fp)) == 0) by {
                lemma_zeros_val(6nat);
                assert(pad6(fp) =~= Seq::new(6nat, |i: int| 48u8));
            }
        }
    }
    match (int_scan, frac_scan) {
        (Some((ival, big)), Some(fval)) => {
            if big {
                return None;
            }
            if dot - p == 0 && (dot == end || dot + 1 == end) {
                proof {
                    assert(ip.len() + fp.len() == 0);
                }
                return None;
            }
            let magnitude: u64 = ival * 1_000_000 + fval;
            let signed: i64 = if neg {
                -(magnitude as i64)
            } else {
                magnitude as i64
            };
            proof {
                assert(ip.len() + fp.len() != 0);
            }
            Some(signed)
        },
        _ => None,
    }
}

/// The six controller names a tuning file must define, one per axis.
#[derive(Debug, Clone, Copy, PartialEq, Eq)]
pub enum PidName {
    /// `x_pid`: lateral position along `x`.
    X,
    /// `z_pid`: lateral position along `z`.
    Z,
    /// `h_pid`: altitude.
    H,
    /// `pitch_pid`: pitch attitude.
    Pitch,
    /// `roll_pid`: roll attitude.
    Roll,
    /// `yaw_pid`: yaw attitude.
    Yaw,
}

/// The controller name a trimmed byte run denotes, if any: one of `x_pid`,
/// `z_pid`, `h_pid`, `pitch_pid`, `roll_pid`, `yaw_pid`, byte for byte.
pub open spec fn spec_name_of(s: Seq<u8>) -> Option<PidName> {
    if s.len() == 5 && s[0] == 120 && s[1] == 95 && s[2] == 112 && s[3] == 105 && s[4] == 100 {
        Some(PidName::X)
    } else if s.len() == 5 && s[0] == 122 && s[1] == 95 && s[2] == 112 && s[3] == 105 && s[4]
        == 100 {
        Some(PidName::Z)
    } else if s.len() == 5 && s[0] == 104 && s[1] == 95 && s[2] == 112 && s[3] == 105 && s[4]
        == 100 {
        Some(PidName::H)
    } else if s.len() == 9 && s[0] == 112 && s[1] == 105 && s[2] == 116 && s[3] == 99 && s[4]
        == 104 && s[5] == 95 && s[6] == 112 && s[7] == 105 && s[8] == 100 {
        Some(PidName::Pitch)
    } else if s.len() == 8 && s[0] == 114 && s[1] == 111 && s[2] == 108 && s[3] == 108 && s[4]
        == 95 && s[5] == 112 && s[6] == 105 && s[7] == 100 {
        Some(PidName::Roll)
    } else if s.len() == 7 && s[0] == 121 && s[1] == 97 && s[2] == 119 && s[3] == 95 && s[4]
        == 112 && s[5] == 105 && s[6] == 100 {
        Some(PidName::Yaw)
    } else {
        None
    }
}

/// Matches the trimmed region `v[start..end]` against the six controller
/// names.
fn match_name(v: &Vec<u8>, start: usize, end: usize) -> (r: Option<PidName>)
    requires
        start <= end <= v.len(),
    ensures
        r == spec_name_of(v@.subrange(start as int, end as int)),
{
    let ghost s = v@.subrange(start as int, end as int);
    let n = end - start;
    proof {
        assert forall|i: int| 0 <= i < n implies s[i] == v@[start + i] by {}
    }
    if n == 5 && v[start] == 120 && v[start + 1] == 95 && v[start + 2] == 112 && v[start + 3]
        == 105 && v[start + 4] == 100 {
        Some(PidName::X)
    } else if n == 5 && v[start] == 122 && v[start + 1] == 95 && v[start + 2] == 112 && v[start
        + 3] == 105 && v[start + 4] == 100 {
        Some(PidName::Z)
    } else if n == 5 && v[start] == 104 && v[start + 1] == 95 && v[start + 2] == 112 && v[start
        + 3] == 105 && v[start + 4] == 100 {
        Some(PidName::H)
    } else if n == 9 && v[start] == 112 && v[start + 1] == 105 && v[start + 2] == 116 && v[start
        + 3] == 99 && v[start + 4] == 104 && v[start + 5] == 95 && v[start + 6] == 112
        && v[start + 7] == 105 && v[start + 8] == 100 {
        Some(PidName::Pitch)
    } else if n == 8 && v[start] == 114 && v[start + 1] == 111 && v[start + 2] == 108 && v[start
        + 3] == 108 && v[start + 4] == 95 && v[start + 5] == 112 && v[start + 6] == 105
        && v[start + 7] == 100 {
        Some(PidName::Roll)
    } else if n == 7 && v[start] == 121 && v[start + 1] == 97 && v[start + 2] == 119 && v[start
        + 3] == 95 && v[start + 4] == 112 && v[start + 5] == 105 && v[start + 6] == 100 {
        Some(PidName::Yaw)
    } else {
        None
    }
}

/// A run of zero digits denotes zero.
proof fn lemma_zeros_val(n: nat)
    ensures
        digits_val(Seq::new(n, |i: int| 48u8)) == 0,
    decreases n,
{
    if n > 0 {
        let z = Seq::new(n, |i: int| 48u8);
        assert(z.drop_last() =~= Seq::new((n - 1) as nat, |i: int| 48u8));
        assert(z.last() == 48);
        lemma_zeros_val((n - 1) as nat);
    }
}

/// A fatal configuration fault, as the executable parser reports it. The
/// line-level variants carry the zero-based line number and the offending
/// line's bytes.
#[derive(Debug, Clone, PartialEq, Eq)]
pub enum ConfigError {
    /// The line has no `(`, no `)`, or the `)` comes before the `(`.
    MissingDelimiter { line: usize, content: Vec<u8> },
    /// A parameter token is not a decimal number the parser accepts.
    BadNumber { line: usize, content: Vec<u8> },
    /// The parentheses do not hold exactly three comma-separated parameters.
    WrongParamCount { line: usize, content: Vec<u8> },
    /// The part before the colon is not one of the six controller names.
    UnknownName { line: usize, content: Vec<u8> },
    /// A controller name never appeared in the file.
    MissingController { name: PidName },
}

/// A fatal configuration fault as the specification states it, over
/// mathematical sequences.
pub enum ConfigFault {
    /// The line has no `(`, no `)`, or the `)` comes before the `(`.
    MissingDelimiter { line: int, content: Seq<u8> },
    /// A parameter token is not a decimal number the parser accepts.
    BadNumber { line: int, content: Seq<u8> },
    /// The parentheses do not hold exactly three comma-separated parameters.
    WrongParamCount { line: int, content: Seq<u8> },
    /// The part before the colon is not one of the six controller names.
    UnknownName { line: int, content: Seq<u8> },
    /// A controller name never appeared in the file.
    MissingController { name: PidName },
}

/// Whether the executable error `e` reports exactly the fault `f`.
pub open spec fn matches_fault(e: ConfigError, f: ConfigFault) -> bool {
    match (e, f) {
        (
            ConfigError::MissingDelimiter { line: l1, content: c1 },
            ConfigFault::MissingDelimiter { line: l2, content: c2 },
        ) => l1 as int == l2 && c1@ == c2,
        (
            ConfigError::BadNumber { line: l1, content: c1 },
            ConfigFault::BadNumber { line: l2, content: c2 },
        ) => l1 as int == l2 && c1@ == c2,
        (
            ConfigError::WrongParamCount { line: l1, content: c1 },
            ConfigFault::WrongParamCount { line: l2, content: c2 },
        ) => l1 as int == l2 && c1@ == c2,
        (
            ConfigError::UnknownName { line: l1, content: c1 },
            ConfigFault::UnknownName { line: l2, content: c2 },
        ) => l1 as int == l2 && c1@ == c2,
        (
            ConfigError::MissingController { name: n1 },
            ConfigFault::MissingController { name: n2 },
        ) => n1 == n2,
        _ => false,
    }
}

/// What went wrong inside one parameter list.
#[derive(Debug, Clone, Copy, PartialEq, Eq)]
pub enum ParamFault {
    /// Some token does not parse as a number.
    BadNumber,
    /// The list does not hold exactly three tokens.
    WrongCount,
}

/// Splits `s` at every occurrence of `sep`; the separators themselves are
/// dropped, and an empty `s` yields one empty piece.
pub open spec fn spec_split(s: Seq<u8>, sep: u8) -> Seq<Seq<u8>>
    decreases s.len(),
    via spec_split_decreases
{
    let i = spec_find(s, sep);
    if i == s.len() {
        seq![s]
    } else {
        seq![s.take(i)] + spec_split(s.skip(i + 1), sep)
    }
}

#[via_fn]
proof fn spec_split_decreases(s: Seq<u8>, sep: u8) {
    lemma_find_props(s, sep);
}

/// The parameter region between the parentheses, split at commas: every
/// trimmed token must parse as a number, and there must be exactly three.
pub open spec fn spec_parse_params(region: Seq<u8>) -> Result<(i64, i64, i64), ParamFault> {
    let parts = spec_split(region, 44);
    if exists|j: int|
        0 <= j < parts.len() && (#[trigger] spec_parse_fixed(spec_trim(parts[j]))) is None {
        Err(ParamFault::BadNumber)
    } else if parts.len() != 3 {
        Err(ParamFault::WrongCount)
    } else {
        Ok(
            (
                spec_parse_fixed(spec_trim(parts[0]))->0,
                spec_parse_fixed(spec_trim(parts[1]))->0,
                spec_parse_fixed(spec_trim(parts[2]))->0,
            ),
        )
    }
}

/// Splits `v[start..end]` at commas and parses every trimmed token,
/// returning the values in order, or `None` if some token fails to parse.
fn parse_tokens(v: &Vec<u8>, start: usize, end: usize) -> (r: Option<Vec<i64>>)
    requires
        start <= end <= v.len(),
    ensures
        ({
            let parts = spec_split(v@.subrange(start as int, end as int), 44);
            match r {
                Some(vals) => vals@.len() == parts.len() && forall|j: int|
                    0 <= j < parts.len() ==> spec_parse_fixed(spec_trim(parts[j]))
                        == Some(vals@[j]),
                None => exists|j: int|
                    0 <= j < parts.len() && (#[trigger] spec_parse_fixed(
                        spec_trim(parts[j]),
                    )) is None,
            }
        }),
    decreases end - start,
{
    let ghost s = v@.subrange(start as int, end as int);
    let ghost parts = spec_split(s, 44);
    let c = find_byte(v, start, end, 44);
    proof {
        if c < end {
            assert(s.take(c - start) =~= v@.subrange(start as int, c as int));
            assert(s.skip(c - start + 1) =~= v@.subrange(c + 1, end as int));
        } else {
            assert(s =~= v@.subrange(start as int, c as int));
        }
    }
    let (ts, te) = trim_range(v, start, c);
    let first = parse_fixed(v, ts, te);
    match first {
        None => {
            proof {
                assert(parts[0] == v@.subrange(start as int, c as int));
                assert(spec_parse_fixed(spec_trim(parts[0])) is None);
            }
            None
        },
        Some(x) => {
            if c == end {
                let mut vals: Vec<i64> = Vec::new();
                vals.push(x);
                proof {
                    assert(parts.len() == 1);
                    assert(parts[0] == s);
                    assert(vals@ =~= seq![x]);
                }
                Some(vals)
            } else {
                let rest = parse_tokens(v, c + 1, end);
                let ghost parts_rest = spec_split(v@.subrange(c + 1, end as int), 44);
                proof {
                    assert(parts =~= seq![s.take(c - start)] + parts_rest);
                    assert(parts.len() == parts_rest.len() + 1);
                    assert(parts[0] == v@.subrange(start as int, c as int));
                    assert(forall|j: int|
                        0 <= j < parts_rest.len() ==> parts[j + 1] == parts_rest[j]);
                }
                match rest {
                    None => {
                        proof {
                            let j0 = choose|j: int|
                                0 <= j < parts_rest.len() && (#[trigger] spec_parse_fixed(
                                    spec_trim(parts_rest[j]),
                                )) is None;
                            assert(parts[j0 + 1] == parts_rest[j0]);
                            assert(spec_parse_fixed(spec_trim(parts[j0 + 1])) is None);
                        }
                        None
                    },
                    Some(mut vals) => {
                        let ghost pre = vals@;
                        vals.insert(0, x);
                        proof {
                            assert(vals@.len() == parts.len());
                            assert(vals@[0] == x);
                            assert forall|j: int| 0 <= j < parts.len() implies spec_parse_fixed(
                                spec_trim(parts[j]),
                            ) == Some(vals@[j]) by {
                                if j > 0 {
                                    assert(parts[j] == parts_rest[j - 1]);
                                    assert(vals@[j] == pre[j - 1]);
                                }
                            }
                        }
                        Some(vals)
                    },
                }
            }
        },
    }
}

/// The parsed tuning configuration: a `(kp, ki, kd)` gain triple, in
/// fixed-point micro-units, for each of the six controller names.
#[derive(Debug, Clone, Copy, PartialEq, Eq)]
pub struct TuningConfig {
    /// Gains for `x_pid`.
    pub x_pid: (i64, i64, i64),
    /// Gains for `z_pid`.
    pub z_pid: (i64, i64, i64),
    /// Gains for `h_pid`.
    pub h_pid: (i64, i64, i64),
    /// Gains for `pitch_pid`.
    pub pitch_pid: (i64, i64, i64),
    /// Gains for `roll_pid`.
    pub roll_pid: (i64, i64, i64),
    /// Gains for `yaw_pid`.
    pub yaw_pid: (i64, i64, i64),
}

/// The state of a parse in progress: the gain triples seen so far. A name
/// seen twice keeps the later triple.
#[derive(Debug, Clone, Copy, PartialEq, Eq)]
pub struct PartialConfig {
    /// Gains seen for `x_pid`, if any.
    pub x_pid: Option<(i64, i64, i64)>,
    /// Gains seen for `z_pid`, if any.
    pub z_pid: Option<(i64, i64, i64)>,
    /// Gains seen for `h_pid`, if any.
    pub h_pid: Option<(i64, i64, i64)>,
    /// Gains seen for `pitch_pid`, if any.
    pub pitch_pid: Option<(i64, i64, i64)>,
    /// Gains seen for `roll_pid`, if any.
    pub roll_pid: Option<(i64, i64, i64)>,
    /// Gains seen for `yaw_pid`, if any.
    pub yaw_pid: Option<(i64, i64, i64)>,
}

/// A parse that has seen nothing yet.
pub open spec fn spec_empty_partial() -> PartialConfig {
    PartialConfig {
        x_pid: None,
        z_pid: None,
        h_pid: None,
        pitch_pid: None,
        roll_pid: None,
        yaw_pid: None,
    }
}

/// One directive parsed: the gain triple for one named controller, parsed
/// from `line` (already stripped of its line ending), or the fault that
/// stops the parse. `ln` is the zero-based line number, used in faults only.
///
/// The name is everything before the first colon (the whole line if there
/// is none), trimmed; the parameters sit between the first `(` and the
/// first `)`. Faults are detected in this order: missing or inverted
/// parentheses, then an unparsable number, then a wrong parameter count,
/// then an unknown name.
pub open spec fn spec_parse_line(line: Seq<u8>, ln: int) -> Result<
    (PidName, (i64, i64, i64)),
    ConfigFault,
> {
    let name = spec_name_of(spec_trim(line.take(spec_find(line, 58))));
    let lp = spec_find(line, 40);
    let rp = spec_find(line, 41);
    if lp == line.len() || rp == line.len() || rp < lp {
        Err(ConfigFault::MissingDelimiter { line: ln, content: line })
    } else {
        match spec_parse_params(line.subrange(lp + 1, rp)) {
            Err(ParamFault::BadNumber) => Err(ConfigFault::BadNumber { line: ln, content: line }),
            Err(ParamFault::WrongCount) => Err(
                ConfigFault::WrongParamCount { line: ln, content: line },
            ),
            Ok(triple) => match name {
                Some(n) => Ok((n, triple)),
                None => Err(ConfigFault::UnknownName { line: ln, content: line }),
            },
        }
    }
}

/// Copies `v[start..end]` into a fresh vector.
fn copy_range(v: &Vec<u8>, start: usize, end: usize) -> (r: Vec<u8>)
    requires
        start <= end <= v.len(),
    ensures
        r@ == v@.subrange(start as int, end as int),
{
    let mut r: Vec<u8> = Vec::new();
    let mut j: usize = start;
    while j < end
        invariant
            start <= j <= end <= v.len(),
            r@ =~= v@.subrange(start as int, j as int),
        decreases end - j,
    {
        r.push(v[j]);
        proof {
            assert(r@ =~= v@.subrange(start as int, j + 1));
        }
        j = j + 1;
    }
    proof {
        assert(r@ =~= v@.subrange(start as int, end as int));
    }
    r
}

/// Whether the executable line result `r` reports exactly the
/// specification's line result `sp`.
pub open spec fn line_result_matches(
    r: Result<(PidName, (i64, i64, i64)), ConfigError>,
    sp: Result<(PidName, (i64, i64, i64)), ConfigFault>,
) -> bool {
    match (r, sp) {
        (Ok(a), Ok(b)) => a == b,
        (Err(e), Err(f)) => matches_fault(e, f),
        _ => false,
    }
}

/// Parses the directive on `v[start..end]` (one line, stripped of its line
/// ending); `ln` is its zero-based line number.
fn parse_line(v: &Vec<u8>, start: usize, end: usize, ln: usize) -> (r: Result<
    (PidName, (i64, i64, i64)),
    ConfigError,
>)
    requires
        start <= end <= v.len(),
    ensures
        line_result_matches(r, spec_parse_line(v@.subrange(start as int, end as int), ln as int)),
{
    let ghost line = v@.subrange(start as int, end as int);
    let colon = find_byte(v, start, end, 58);
    let (nts, nte) = trim_range(v, start, colon);
    let name = match_name(v, nts, nte);
    proof {
        assert(line.take(colon - start) =~= v@.subrange(start as int, colon as int));
    }
    let lp = find_byte(v, start, end, 40);
    let rp = find_byte(v, start, end, 41);
    if lp == end || rp == end || rp < lp {
        return Err(ConfigError::MissingDelimiter { line: ln, content: copy_range(v, start, end) });
    }
    proof {
        assert(line.subrange(lp - start + 1, rp - start) =~= v@.subrange(lp + 1, rp as int));
    }
    let tokens = parse_tokens(v, lp + 1, rp);
    match tokens {
        None => Err(ConfigError::BadNumber { line: ln, content: copy_range(v, start, end) }),
        Some(vals) => {
            proof {
                let parts = spec_split(v@.subrange(lp + 1, rp as int), 44);
                assert forall|j: int| 0 <= j < parts.len() implies !((#[trigger] spec_parse_fixed(
                    spec_trim(parts[j]),
                )) is None) by {
                    assert(spec_parse_fixed(spec_trim(parts[j])) == Some(vals@[j]));
                }
            }
            if vals.len() != 3 {
                proof {
                    let parts = spec_split(v@.subrange(lp + 1, rp as int), 44);
                    assert(parts.len() != 3);
                }
                Err(ConfigError::WrongParamCount { line: ln, content: copy_range(v, start, end) })
            } else {
                let triple = (vals[0], vals[1], vals[2]);
                match name {
                    Some(n) => Ok((n, triple)),
                    None => Err(
                        ConfigError::UnknownName { line: ln, content: copy_range(v, start, end) },
                    ),
                }
            }
        },
    }
}

/// `acc` with the triple for `n` set to `g` (overwriting any earlier one).
pub open spec fn spec_apply(acc: PartialConfig, n: PidName, g: (i64, i64, i64)) -> PartialConfig {
    match n {
        PidName::X => PartialConfig { x_pid: Some(g), ..acc },
        PidName::Z => PartialConfig { z_pid: Some(g), ..acc },
        PidName::H => PartialConfig { h_pid: Some(g), ..acc },
        PidName::Pitch => PartialConfig { pitch_pid: Some(g), ..acc },
        PidName::Roll => PartialConfig { roll_pid: Some(g), ..acc },
        PidName::Yaw => PartialConfig { yaw_pid: Some(g), ..acc },
    }
}

/// The finished configuration, if every name has been seen; otherwise the
/// first missing name, in the fixed order `x`, `z`, `h`, `pitch`, `roll`,
/// `yaw`.
pub open spec fn spec_finalize(acc: PartialConfig) -> Result<TuningConfig, ConfigFault> {
    if acc.x_pid is None {
        Err(ConfigFault::MissingController { name: PidName::X })
    } else if acc.z_pid is None {
        Err(ConfigFault::MissingController { name: PidName::Z })
    } else if acc.h_pid is None {
        Err(ConfigFault::MissingController { name: PidName::H })
    } else if acc.pitch_pid is None {
        Err(ConfigFault::MissingController { name: PidName::Pitch })
    } else if acc.roll_pid is None {
        Err(ConfigFault::MissingController { name: PidName::Roll })
    } else if acc.yaw_pid is None {
        Err(ConfigFault::MissingController { name: PidName::Yaw })
    } else {
        Ok(
            TuningConfig {
                x_pid: acc.x_pid->0,
                z_pid: acc.z_pid->0,
                h_pid: acc.h_pid->0,
                pitch_pid: acc.pitch_pid->0,
                roll_pid: acc.roll_pid->0,
                yaw_pid: acc.yaw_pid->0,
            },
        )
    }
}

/// `raw` stripped of one trailing carriage return, if present: the line
/// content when the line was terminated by a newline.
pub open spec fn strip_cr(raw: Seq<u8>) -> Seq<u8> {
    if raw.len() > 0 && raw.last() == 13 {
        raw.drop_last()
    } else {
        raw
    }
}

/// Parses the remaining input `s`, whose first line is line `ln`, on top of
/// the triples already accumulated in `acc`. Input is split at newlines; a
/// carriage return before a newline is dropped; the final newline is
/// optional. Every line must parse, and at the end every name must have
/// been seen.
pub open spec fn spec_parse_from(s: Seq<u8>, ln: int, acc: PartialConfig) -> Result<
    TuningConfig,
    ConfigFault,
>
    decreases s.len(),
    via spec_parse_from_decreases
{
    if s.len() == 0 {
        spec_finalize(acc)
    } else {
        let i = spec_find(s, 10);
        let line = if i == s.len() {
            s
        } else {
            strip_cr(s.take(i))
        };
        let rest = if i == s.len() {
            Seq::<u8>::empty()
        } else {
            s.skip(i + 1)
        };
        match spec_parse_line(line, ln) {
            Err(f) => Err(f),
            Ok((n, g)) => spec_parse_from(rest, ln + 1, spec_apply(acc, n, g)),
        }
    }
}

#[via_fn]
proof fn spec_parse_from_decreases(s: Seq<u8>, ln: int, acc: PartialConfig) {
    lemma_find_props(s, 10);
}

/// The whole tuning file parsed from its raw bytes.
pub open spec fn spec_parse_config(s: Seq<u8>) -> Result<TuningConfig, ConfigFault> {
    spec_parse_from(s, 0, spec_empty_partial())
}

/// Whether the executable parse result `r` reports exactly the
/// specification's result `sp`.
pub open spec fn result_matches(
    r: Result<TuningConfig, ConfigError>,
    sp: Result<TuningConfig, ConfigFault>,
) -> bool {
    match (r, sp) {
        (Ok(a), Ok(b)) => a == b,
        (Err(e), Err(f)) => matches_fault(e, f),
        _ => false,
    }
}

/// Checks that every name has been seen and builds the configuration.
fn finalize(acc: &PartialConfig) -> (r: Result<TuningConfig, ConfigError>)
    ensures
        result_matches(r, spec_finalize(*acc)),
{
    match (acc.x_pid, acc.z_pid, acc.h_pid, acc.pitch_pid, acc.roll_pid, acc.yaw_pid) {
        (Some(x), Some(z), Some(h), Some(pitch), Some(roll), Some(yaw)) => Ok(
            TuningConfig {
                x_pid: x,
                z_pid: z,
                h_pid: h,
                pitch_pid: pitch,
                roll_pid: roll,
                yaw_pid: yaw,
            },
        ),
        _ => {
            let name = if acc.x_pid.is_none() {
                PidName::X
            } else if acc.z_pid.is_none() {
                PidName::Z
            } else if acc.h_pid.is_none() {
                PidName::H
            } else if acc.pitch_pid.is_none() {
                PidName::Pitch
            } else if acc.roll_pid.is_none() {
                PidName::Roll
            } else {
                PidName::Yaw
            };
            Err(ConfigError::MissingController { name })
        },
    }
}

/// Records the triple `g` for name `n` in `acc` (last write wins).
fn apply_name(acc: PartialConfig, n: PidName, g: (i64, i64, i64)) -> (r: PartialConfig)
    ensures
        r == spec_apply(acc, n, g),
{
    match n {
        PidName::X => PartialConfig { x_pid: Some(g), ..acc },
        PidName::Z => PartialConfig { z_pid: Some(g), ..acc },
        PidName::H => PartialConfig { h_pid: Some(g), ..acc },
        PidName::Pitch => PartialConfig { pitch_pid: Some(g), ..acc },
        PidName::Roll => PartialConfig { roll_pid: Some(g), ..acc },
        PidName::Yaw => PartialConfig { yaw_pid: Some(g), ..acc },
    }
}

/// Parses the input from byte `pos` on, line by line.
fn parse_from(v: &Vec<u8>, pos: usize, ln: usize, acc: PartialConfig) -> (r: Result<
    TuningConfig,
    ConfigError,
>)
    requires
        pos <= v.len(),
        ln <= pos,
    ensures
        result_matches(r, spec_parse_from(v@.subrange(pos as int, v.len() as int), ln as int, acc)),
    decreases v.len() - pos,
{
    let ghost s = v@.subrange(pos as int, v.len() as int);
    if pos == v.len() {
        return finalize(&acc);
    }
    let end = v.len();
    let nl = find_byte(v, pos, end, 10);
    let lend: usize = if nl < end && nl > pos && v[nl - 1] == 13 {
        nl - 1
    } else {
        nl
    };
    proof {
        let i = spec_find(s, 10);
        assert(i == nl - pos);
        if nl == end {
            assert(s =~= v@.subrange(pos as int, lend as int));
        } else {
            assert(s.take(i) =~= v@.subrange(pos as int, nl as int));
            if nl > pos && v@[nl - 1] == 13 {
                assert(s.take(i).last() == v@[nl - 1]);
                assert(s.take(i).drop_last() =~= v@.subrange(pos as int, lend as int));
            } else {
                if s.take(i).len() > 0 {
                    assert(s.take(i).last() == v@[nl - 1]);
                }
                assert(strip_cr(s.take(i)) == s.take(i));
            }
            assert(strip_cr(s.take(i)) =~= v@.subrange(pos as int, lend as int));
            assert(s.skip(i + 1) =~= v@.subrange(nl + 1, end as int));
        }
    }
    match parse_line(v, pos, lend, ln) {
        Err(e) => Err(e),
        Ok((n, g)) => {
            let acc2 = apply_name(acc, n, g);
            if nl == end {
                proof {
                    assert(v@.subrange(end as int, end as int) =~= Seq::<u8>::empty());
                }
                parse_from(v, end, ln + 1, acc2)
            } else {
                parse_from(v, nl + 1, ln + 1, acc2)
            }
        },
    }
}

/// Parses a whole tuning file from its raw bytes into a [`TuningConfig`],
/// or reports the first fault: a malformed line (by zero-based line number
/// and content) or a controller name that never appeared.
pub fn parse_config(data: &Vec<u8>) -> (r: Result<TuningConfig, ConfigError>)
    ensures
        result_matches(r, spec_parse_config(data@)),
{
    proof {
        assert(data@.subrange(0, data@.len() as int) =~= data@);
    }
    parse_from(
        data,
        0,
        0,
        PartialConfig {
            x_pid: None,
            z_pid: None,
            h_pid: None,
            pitch_pid: None,
            roll_pid: None,
            yaw_pid: None,
        },
    )
}

/// Whether `acc` already holds a triple for `n`.
pub open spec fn spec_acc_has(acc: PartialConfig, n: PidName) -> bool {
    match n {
        PidName::X => acc.x_pid is Some,
        PidName::Z => acc.z_pid is Some,
        PidName::H => acc.h_pid is Some,
        PidName::Pitch => acc.pitch_pid is Some,
        PidName::Roll => acc.roll_pid is Some,
        PidName::Yaw => acc.yaw_pid is Some,
    }
}

/// Whether some line of `s` is a well-formed directive for name `n`.
pub open spec fn spec_file_defines(s: Seq<u8>, n: PidName) -> bool
    decreases s.len(),
    via spec_file_defines_decreases
{
    if s.len() == 0 {
        false
    } else {
        let i = spec_find(s, 10);
        let line = if i == s.len() {
            s
        } else {
            strip_cr(s.take(i))
        };
        let rest = if i == s.len() {
            Seq::<u8>::empty()
        } else {
            s.skip(i + 1)
        };
        (match spec_parse_line(line, 0) {
            Ok((m, g)) => m == n,
            Err(_) => false,
        }) || spec_file_defines(rest, n)
    }
}

#[via_fn]
proof fn spec_file_defines_decreases(s: Seq<u8>, n: PidName) {
    lemma_find_props(s, 10);
}

/// Whether a line parses, and to which directive, does not depend on the
/// line number handed in (that only decorates faults).
proof fn lemma_parse_line_ln(line: Seq<u8>, a: int, b: int)
    ensures
        spec_parse_line(line, a) is Ok <==> spec_parse_line(line, b) is Ok,
        spec_parse_line(line, a) is Ok ==> spec_parse_line(line, a)->Ok_0 == spec_parse_line(
            line,
            b,
        )->Ok_0,
{
}

/// A parse that still misses the name `n`, reading input in which no line
/// defines `n`, cannot end in a configuration.
proof fn lemma_parse_from_missing_name(s: Seq<u8>, ln: int, acc: PartialConfig, n: PidName)
    requires
        !spec_acc_has(acc, n),
        !spec_file_defines(s, n),
    ensures
        spec_parse_from(s, ln, acc) is Err,
    decreases s.len(),
{
    if s.len() == 0 {
    } else {
        lemma_find_props(s, 10);
        let i = spec_find(s, 10);
        let line = if i == s.len() {
            s
        } else {
            strip_cr(s.take(i))
        };
        let rest = if i == s.len() {
            Seq::<u8>::empty()
        } else {
            s.skip(i + 1)
        };
        match spec_parse_line(line, ln) {
            Err(f) => {},
            Ok((m, g)) => {
                lemma_parse_line_ln(line, ln, 0);
                assert(m != n);
                assert(!spec_acc_has(spec_apply(acc, m, g), n));
                lemma_parse_from_missing_name(rest, ln + 1, spec_apply(acc, m, g), n);
            },
        }
    }
}

/// A tuning file in which one of the six controller names never appears on
/// a well-formed directive line cannot build a configuration: the parse
/// ends in a fault, never in a partially filled [`TuningConfig`].
pub proof fn lemma_config_missing_name_rejected(s: Seq<u8>, n: PidName)
    requires
        !spec_file_defines(s, n),
    ensures
        spec_parse_config(s) is Err,
{
    lemma_parse_from_missing_name(s, 0, spec_empty_partial(), n);
}

/// Ten to the `k`.
pub open spec fn pow10(k: nat) -> int
    decreases k,
{
    if k == 0 {
        1
    } else {
        10 * pow10((k - 1) as nat)
    }
}

/// The decimal rendering of `n` in exactly `w` digits, most significant
/// first, zero-padded on the left.
pub open spec fn spec_digits(n: int, w: nat) -> Seq<u8>
    decreases w,
{
    if w == 0 {
        Seq::<u8>::empty()
    } else {
        spec_digits(n / 10, (w - 1) as nat).push((n % 10 + 48) as u8)
    }
}

/// A `w`-digit rendering of `n < 10^w` is all digits and denotes `n`.
proof fn lemma_spec_digits(n: int, w: nat)
    requires
        0 <= n < pow10(w),
    ensures
        spec_digits(n, w).len() == w,
        all_digits(spec_digits(n, w)),
        digits_val(spec_digits(n, w)) == n,
    decreases w,
{
    if w > 0 {
        let p = pow10((w - 1) as nat);
        assert(pow10(w) == 10 * p);
        assert(n / 10 < p) by {
            vstd::arithmetic::div_mod::lemma_div_is_ordered(n, 10 * p - 1, 10);
            assert(10 * p - 1 == 10 * (p - 1) + 9) by (nonlinear_arith);
            vstd::arithmetic::div_mod::lemma_div_multiples_vanish_fancy(p - 1, 9, 10);
        }
        assert(n / 10 >= 0) by {
            vstd::arithmetic::div_mod::lemma_div_pos_is_pos(n, 10);
        }
        lemma_spec_digits(n / 10, (w - 1) as nat);
        let s = spec_digits(n / 10, (w - 1) as nat);
        let d = (n % 10 + 48) as u8;
        vstd::arithmetic::div_mod::lemma_mod_bound(n, 10);
        assert(s.push(d).drop_last() =~= s);
        assert(s.push(d).last() == d);
        vstd::arithmetic::div_mod::lemma_fundamental_div_mod(n, 10);
        assert forall|i: int| 0 <= i < s.push(d).len() implies is_digit(s.push(d)[i]) by {
            if i < s.len() {
                assert(s.push(d)[i] == s[i]);
            }
        }
    }
}

/// Appends the decimal rendering of `n` in exactly `width` digits, most
/// significant first, zero-padded on the left.
fn push_decimal(r: &mut Vec<u8>, n: u64, width: usize)
    ensures
        final(r)@ == old(r)@ + spec_digits(n as int, width as nat),
    decreases width,
{
    if width == 0 {
        proof {
            assert(r@ =~= r@ + spec_digits(n as int, 0nat));
        }
    } else {
        let ghost pre = r@;
        push_decimal(r, n / 10, width - 1);
        r.push((n % 10) as u8 + 48);
        proof {
            assert(r@ =~= pre + spec_digits(n as int, width as nat));
        }
    }
}

/// Renders a fixed-point value as a decimal token the number parser maps
/// back to exactly the same value: an optional minus sign, twelve integer
/// digits, a point, and six fraction digits. The value must lie strictly
/// within the token format's range of a quintillion micro-units.
pub fn render_fixed(v: i64) -> (r: Vec<u8>)
    requires
        -1_000_000_000_000_000_000 < v < 1_000_000_000_000_000_000,
    ensures
        spec_parse_fixed(r@) == Some(v),
        r@.len() > 0,
        forall|i: int| 0 <= i < r@.len() ==> (r@[i] == 45 || r@[i] == 46 || is_digit(r@[i])),
{
    let neg = v < 0;
    let m: u64 = if v < 0 {
        (-(v as i128)) as u64
    } else {
        v as u64
    };
    let ip: u64 = m / 1_000_000;
    let fpart: u64 = m % 1_000_000;
    let mut r: Vec<u8> = Vec::new();
    if neg {
        r.push(45);
    }
    let ghost sign_len: int = if neg { 1int } else { 0int };
    push_decimal(&mut r, ip, 12);
    r.push(46);
    push_decimal(&mut r, fpart, 6);
    proof {
        let d12 = spec_digits(ip as int, 12nat);
        let d6 = spec_digits(fpart as int, 6nat);
        assert(ip < 1_000_000_000_000) by {
            vstd::arithmetic::div_mod::lemma_div_is_ordered(
                m as int,
                999_999_999_999_999_999,
                1_000_000,
            );
            vstd::arithmetic::div_mod::lemma_div_multiples_vanish_fancy(
                999_999_999_999,
                999_999,
                1_000_000,
            );
        }
        assert(pow10(12nat) == 1_000_000_000_000) by {
            reveal_with_fuel(pow10, 13);
        }
        assert(pow10(6nat) == 1_000_000) by {
            reveal_with_fuel(pow10, 7);
        }
        vstd::arithmetic::div_mod::lemma_mod_bound(m as int, 1_000_000);
        lemma_spec_digits(ip as int, 12nat);
        lemma_spec_digits(fpart as int, 6nat);
        let s = r@;
        let t = if neg {
            s.drop_first()
        } else {
            s
        };
        assert(t =~= d12 + seq![46u8] + d6);
        assert(s[0] == 45 <==> neg);
        if !neg {
            assert(s[0] == d12[0]);
            assert(is_digit(s[0]));
        }
        assert(spec_find(t, 46) == 12) by {
            assert forall|i: int| 0 <= i < 12 implies t[i] != 46 by {
                assert(t[i] == d12[i]);
                assert(is_digit(d12[i]));
            }
            assert(t[12] == 46);
            lemma_find_at(t, 46, 12);
        }
        assert(t.take(12) =~= d12);
        assert(t.skip(13) =~= d6);
        assert(pad6(d6) =~= d6);
        vstd::arithmetic::div_mod::lemma_fundamental_div_mod(m as int, 1_000_000);
        assert(digits_val(t.take(12)) * 1_000_000 + digits_val(pad6(t.skip(13))) == m as int);
    }
    r
}

/// The byte spelling of a controller name.
pub open spec fn spec_name_bytes(n: PidName) -> Seq<u8> {
    match n {
        PidName::X => seq![120u8, 95, 112, 105, 100],
        PidName::Z => seq![122u8, 95, 112, 105, 100],
        PidName::H => seq![104u8, 95, 112, 105, 100],
        PidName::Pitch => seq![112u8, 105, 116, 99, 104, 95, 112, 105, 100],
        PidName::Roll => seq![114u8, 111, 108, 108, 95, 112, 105, 100],
        PidName::Yaw => seq![121u8, 97, 119, 95, 112, 105, 100],
    }
}

/// Each name spelling denotes its own name and consists of lower-case
/// letters and underscores only.
proof fn lemma_name_bytes(n: PidName)
    ensures
        spec_name_bytes(n).len() >= 5,
        spec_name_of(spec_name_bytes(n)) == Some(n),
        forall|i: int|
            0 <= i < spec_name_bytes(n).len() ==> (97 <= #[trigger] spec_name_bytes(n)[i] <= 122
                || spec_name_bytes(n)[i] == 95),
{
}

/// A run without whitespace trims to itself.
proof fn lemma_trim_id(s: Seq<u8>)
    requires
        forall|i: int| 0 <= i < s.len() ==> !is_ws(s[i]),
    ensures
        spec_trim(s) == s,
{
    if s.len() > 0 {
        assert(!is_ws(s[0]));
        assert(!is_ws(s.last()));
    }
}

/// Appends one rendered directive line for name `n` with gains `g` and
/// proves it parses back to exactly `(n, g)`, whatever line number the
/// parser hands in. The line holds no newline or carriage return.
#[verifier::rlimit(100)]
fn render_line(r: &mut Vec<u8>, n: PidName, g: (i64, i64, i64))
    requires
        -1_000_000_000_000_000_000 < g.0 < 1_000_000_000_000_000_000,
        -1_000_000_000_000_000_000 < g.1 < 1_000_000_000_000_000_000,
        -1_000_000_000_000_000_000 < g.2 < 1_000_000_000_000_000_000,
    ensures
        ({
            let line = final(r)@.skip(old(r)@.len() as int);
            &&& final(r)@ == old(r)@ + line
            &&& line.len() > 0
            &&& forall|i: int| 0 <= i < line.len() ==> line[i] != 10 && line[i] != 13
            &&& forall|ln: int|
                spec_parse_line(line, ln) == Ok::<(PidName, (i64, i64, i64)), ConfigFault>((n, g))
        }),
{
    let ghost pre = r@;
    match n {
        PidName::X => {
            r.push(120);
            r.push(95);
            r.push(112);
            r.push(105);
            r.push(100);
        },
        PidName::Z => {
            r.push(122);
            r.push(95);
            r.push(112);
            r.push(105);
            r.push(100);
        },
        PidName::H => {
            r.push(104);
            r.push(95);
            r.push(112);
            r.push(105);
            r.push(100);
        },
        PidName::Pitch => {
            r.push(112);
            r.push(105);
            r.push(116);
            r.push(99);
            r.push(104);
            r.push(95);
            r.push(112);
            r.push(105);
            r.push(100);
        },
        PidName::Roll => {
            r.push(114);
            r.push(111);
            r.push(108);
            r.push(108);
            r.push(95);
            r.push(112);
            r.push(105);
            r.push(100);
        },
        PidName::Yaw => {
            r.push(121);
            r.push(97);
            r.push(119);
            r.push(95);
            r.push(112);
            r.push(105);
            r.push(100);
        },
    }
    proof {
        assert(r@ =~= pre + spec_name_bytes(n));
    }
    r.push(58);
    r.push(32);
    r.push(40);
    let mut a = render_fixed(g.0);
    let ghost sa = a@;
    r.append(&mut a);
    r.push(44);
    r.push(32);
    let mut b = render_fixed(g.1);
    let ghost sb = b@;
    r.append(&mut b);
    r.push(44);
    r.push(32);
    let mut c = render_fixed(g.2);
    let ghost sc = c@;
    r.append(&mut c);
    r.push(41);
    proof {
        lemma_name_bytes(n);
        let nb = spec_name_bytes(n);
        let line = r@.skip(pre.len() as int);
        assert(line =~= nb + seq![58u8, 32, 40] + sa + seq![44u8, 32] + sb + seq![44u8, 32] + sc
            + seq![41u8]);
        assert(r@ =~= pre + line);
        lemma_render_line_parses(line, n, g, nb, sa, sb, sc);
    }
}

/// Splitting a rendered parameter region at commas yields the three
/// tokens: the first bare, the later two with their separating space.
#[verifier::rlimit(50)]
proof fn lemma_split_tokens(region: Seq<u8>, sa: Seq<u8>, sb: Seq<u8>, sc: Seq<u8>)
    requires
        region == sa + seq![44u8, 32] + sb + seq![44u8, 32] + sc,
        forall|i: int| 0 <= i < sa.len() ==> sa[i] != 44,
        forall|i: int| 0 <= i < sb.len() ==> sb[i] != 44,
        forall|i: int| 0 <= i < sc.len() ==> sc[i] != 44,
    ensures
        spec_split(region, 44) == seq![sa, seq![32u8] + sb, seq![32u8] + sc],
{
    let rest1 = seq![32u8] + sb + seq![44u8, 32] + sc;
    let rest2 = seq![32u8] + sc;
    assert(spec_find(region, 44) == sa.len() as int) by {
        assert forall|i: int| 0 <= i < sa.len() implies region[i] != 44 by {
            assert(region[i] == sa[i]);
        }
        assert(region[sa.len() as int] == 44);
        lemma_find_at(region, 44, sa.len() as int);
    }
    assert(region.take(sa.len() as int) =~= sa);
    assert(region.skip(sa.len() as int + 1) =~= rest1);
    assert(spec_find(rest1, 44) == sb.len() as int + 1) by {
        assert forall|i: int| 0 <= i < sb.len() + 1 implies rest1[i] != 44 by {
            if i > 0 {
                assert(rest1[i] == sb[i - 1]);
            }
        }
        assert(rest1[sb.len() as int + 1] == 44);
        lemma_find_at(rest1, 44, sb.len() as int + 1);
    }
    assert(rest1.take(sb.len() as int + 1) =~= seq![32u8] + sb);
    assert(rest1.skip(sb.len() as int + 2) =~= rest2);
    assert(spec_find(rest2, 44) == rest2.len() as int) by {
        assert forall|i: int| 0 <= i < rest2.len() implies rest2[i] != 44 by {
            if i > 0 {
                assert(rest2[i] == sc[i - 1]);
            }
        }
        lemma_find_at(rest2, 44, rest2.len() as int);
    }
    assert(spec_split(rest2, 44) == seq![rest2]);
    assert(spec_split(rest1, 44) == seq![seq![32u8] + sb] + spec_split(rest2, 44));
    assert(spec_split(region, 44) == seq![sa] + spec_split(rest1, 44));
    assert(seq![sa] + (seq![seq![32u8] + sb] + seq![rest2]) =~= seq![sa, seq![32u8] + sb, rest2]);
}

/// A rendered parameter region parses to exactly the three gains.
#[verifier::rlimit(50)]
proof fn lemma_region_parses(region: Seq<u8>, g: (i64, i64, i64), sa: Seq<u8>, sb: Seq<u8>, sc: Seq<u8>)
    requires
        region == sa + seq![44u8, 32] + sb + seq![44u8, 32] + sc,
        spec_parse_fixed(sa) == Some(g.0),
        spec_parse_fixed(sb) == Some(g.1),
        spec_parse_fixed(sc) == Some(g.2),
        forall|i: int| 0 <= i < sa.len() ==> (sa[i] == 45 || sa[i] == 46 || is_digit(sa[i])),
        forall|i: int| 0 <= i < sb.len() ==> (sb[i] == 45 || sb[i] == 46 || is_digit(sb[i])),
        forall|i: int| 0 <= i < sc.len() ==> (sc[i] == 45 || sc[i] == 46 || is_digit(sc[i])),
    ensures
        spec_parse_params(region) == Ok::<(i64, i64, i64), ParamFault>(g),
{
    lemma_split_tokens(region, sa, sb, sc);
    let parts = spec_split(region, 44);
    lemma_trim_id(sa);
    lemma_trim_id(sb);
    lemma_trim_id(sc);
    assert((seq![32u8] + sb).drop_first() =~= sb);
    assert(spec_trim(seq![32u8] + sb) == sb) by {
        assert(is_ws((seq![32u8] + sb)[0]));
        assert(spec_trim_start(seq![32u8] + sb) == spec_trim_start(sb));
        assert(spec_trim_start(sb) == sb);
    }
    assert((seq![32u8] + sc).drop_first() =~= sc);
    assert(spec_trim(seq![32u8] + sc) == sc) by {
        assert(is_ws((seq![32u8] + sc)[0]));
        assert(spec_trim_start(seq![32u8] + sc) == spec_trim_start(sc));
        assert(spec_trim_start(sc) == sc);
    }
    assert(spec_parse_fixed(spec_trim(parts[0])) == Some(g.0));
    assert(spec_parse_fixed(spec_trim(parts[1])) == Some(g.1));
    assert(spec_parse_fixed(spec_trim(parts[2])) == Some(g.2));
    assert forall|j: int| 0 <= j < parts.len() implies !((#[trigger] spec_parse_fixed(
        spec_trim(parts[j]),
    )) is None) by {
        if j == 0 {
        } else if j == 1 {
        } else {
            assert(j == 2);
        }
    }
}

/// A rendered directive line parses back to its name and gains, for any
/// line number.
#[verifier::rlimit(100)]
proof fn lemma_render_line_parses(
    line: Seq<u8>,
    n: PidName,
    g: (i64, i64, i64),
    nb: Seq<u8>,
    sa: Seq<u8>,
    sb: Seq<u8>,
    sc: Seq<u8>,
)
    requires
        line == nb + seq![58u8, 32, 40] + sa + seq![44u8, 32] + sb + seq![44u8, 32] + sc + seq![
            41u8,
        ],
        nb == spec_name_bytes(n),
        spec_parse_fixed(sa) == Some(g.0),
        spec_parse_fixed(sb) == Some(g.1),
        spec_parse_fixed(sc) == Some(g.2),
        forall|i: int| 0 <= i < sa.len() ==> (sa[i] == 45 || sa[i] == 46 || is_digit(sa[i])),
        forall|i: int| 0 <= i < sb.len() ==> (sb[i] == 45 || sb[i] == 46 || is_digit(sb[i])),
        forall|i: int| 0 <= i < sc.len() ==> (sc[i] == 45 || sc[i] == 46 || is_digit(sc[i])),
        sa.len() > 0,
        sb.len() > 0,
        sc.len() > 0,
    ensures
        forall|i: int| 0 <= i < line.len() ==> line[i] != 10 && line[i] != 13,
        line.len() > 0,
        forall|ln: int|
            spec_parse_line(line, ln) == Ok::<(PidName, (i64, i64, i64)), ConfigFault>((n, g)),
{
    lemma_name_bytes(n);
    let k = nb.len() as int;
    assert forall|i: int| 0 <= i < line.len() implies line[i] != 10 && line[i] != 13 by {}
    assert(spec_find(line, 58) == k) by {
        assert forall|i: int| 0 <= i < k implies line[i] != 58 by {
            assert(line[i] == nb[i]);
        }
        assert(line[k] == 58);
        lemma_find_at(line, 58, k);
    }
    assert(line.take(k) =~= nb);
    lemma_trim_id(nb);
    assert(spec_find(line, 40) == k + 2) by {
        assert forall|i: int| 0 <= i < k + 2 implies line[i] != 40 by {
            if i < k {
                assert(line[i] == nb[i]);
            }
        }
        assert(line[k + 2] == 40);
        lemma_find_at(line, 40, k + 2);
    }
    assert(spec_find(line, 41) == line.len() - 1) by {
        assert forall|i: int| 0 <= i < line.len() - 1 implies line[i] != 41 by {
            if i < k {
                assert(line[i] == nb[i]);
            }
        }
        assert(line[line.len() - 1] == 41);
        lemma_find_at(line, 41, line.len() - 1);
    }
    let region = line.subrange(k + 3, line.len() - 1);
    assert(region =~= sa + seq![44u8, 32] + sb + seq![44u8, 32] + sc);
    lemma_region_parses(region, g, sa, sb, sc);
    assert forall|ln: int|
        spec_parse_line(line, ln) == Ok::<(PidName, (i64, i64, i64)), ConfigFault>((n, g)) by {
        assert(spec_name_of(spec_trim(line.take(spec_find(line, 58)))) == Some(n));
        assert(line.subrange(spec_find(line, 40) + 1, spec_find(line, 41)) == region);
    }
}


/// Consuming one well-formed directive line advances the parse by one
/// line.
proof fn lemma_parse_step(
    s: Seq<u8>,
    line: Seq<u8>,
    rest: Seq<u8>,
    ln: int,
    acc: PartialConfig,
    n: PidName,
    g: (i64, i64, i64),
)
    requires
        s == line + seq![10u8] + rest,
        forall|i: int| 0 <= i < line.len() ==> line[i] != 10,
        line.len() > 0,
        line.last() != 13,
        spec_parse_line(line, ln) == Ok::<(PidName, (i64, i64, i64)), ConfigFault>((n, g)),
    ensures
        spec_parse_from(s, ln, acc) == spec_parse_from(rest, ln + 1, spec_apply(acc, n, g)),
{
    let k = line.len() as int;
    assert(spec_find(s, 10) == k) by {
        assert forall|i: int| 0 <= i < k implies s[i] != 10 by {
            assert(s[i] == line[i]);
        }
        assert(s[k] == 10);
        lemma_find_at(s, 10, k);
    }
    assert(s.take(k) =~= line);
    assert(strip_cr(s.take(k)) == line);
    assert(s.skip(k + 1) =~= rest);
}

/// Whether a gain fits the token format the renderer writes: strictly
/// within a quintillion micro-units either way.
pub open spec fn spec_gain_renderable(v: i64) -> bool {
    -1_000_000_000_000_000_000 < v < 1_000_000_000_000_000_000
}

/// Whether every gain of a configuration fits the token format.
pub open spec fn spec_config_renderable(cfg: TuningConfig) -> bool {
    &&& spec_gain_renderable(cfg.x_pid.0) && spec_gain_renderable(cfg.x_pid.1)
        && spec_gain_renderable(cfg.x_pid.2)
    &&& spec_gain_renderable(cfg.z_pid.0) && spec_gain_renderable(cfg.z_pid.1)
        && spec_gain_renderable(cfg.z_pid.2)
    &&& spec_gain_renderable(cfg.h_pid.0) && spec_gain_renderable(cfg.h_pid.1)
        && spec_gain_renderable(cfg.h_pid.2)
    &&& spec_gain_renderable(cfg.pitch_pid.0) && spec_gain_renderable(cfg.pitch_pid.1)
        && spec_gain_renderable(cfg.pitch_pid.2)
    &&& spec_gain_renderable(cfg.roll_pid.0) && spec_gain_renderable(cfg.roll_pid.1)
        && spec_gain_renderable(cfg.roll_pid.2)
    &&& spec_gain_renderable(cfg.yaw_pid.0) && spec_gain_renderable(cfg.yaw_pid.1)
        && spec_gain_renderable(cfg.yaw_pid.2)
}

/// Writes a configuration out as a tuning file that parses back to exactly
/// the same configuration: the round trip through the textual format loses
/// nothing, bit for bit.
#[verifier::rlimit(100)]
pub fn render_config(cfg: &TuningConfig) -> (r: Vec<u8>)
    requires
        spec_config_renderable(*cfg),
    ensures
        spec_parse_config(r@) == Ok::<TuningConfig, ConfigFault>(*cfg),
{
    let mut r: Vec<u8> = Vec::new();
    render_line(&mut r, PidName::X, cfg.x_pid);
    let ghost l0 = r@;
    r.push(10);
    let ghost off1 = r@.len() as int;
    render_line(&mut r, PidName::Z, cfg.z_pid);
    let ghost l1 = r@.skip(off1);
    r.push(10);
    let ghost off2 = r@.len() as int;
    render_line(&mut r, PidName::H, cfg.h_pid);
    let ghost l2 = r@.skip(off2);
    r.push(10);
    let ghost off3 = r@.len() as int;
    render_line(&mut r, PidName::Pitch, cfg.pitch_pid);
    let ghost l3 = r@.skip(off3);
    r.push(10);
    let ghost off4 = r@.len() as int;
    render_line(&mut r, PidName::Roll, cfg.roll_pid);
    let ghost l4 = r@.skip(off4);
    r.push(10);
    let ghost off5 = r@.len() as int;
    render_line(&mut r, PidName::Yaw, cfg.yaw_pid);
    let ghost l5 = r@.skip(off5);
    r.push(10);
    proof {
        let t6 = Seq::<u8>::empty();
        let s5 = l5 + seq![10u8] + t6;
        let s4 = l4 + seq![10u8] + s5;
        let s3 = l3 + seq![10u8] + s4;
        let s2 = l2 + seq![10u8] + s3;
        let s1 = l1 + seq![10u8] + s2;
        let s0 = l0 + seq![10u8] + s1;
        assert(r@.skip(off5) =~= s5);
        assert(r@.skip(off4) =~= s4);
        assert(r@.skip(off3) =~= s3);
        assert(r@.skip(off2) =~= s2);
        assert(r@.skip(off1) =~= s1);
        assert(r@ =~= s0);
        let acc0 = spec_empty_partial();
        let acc1 = spec_apply(acc0, PidName::X, cfg.x_pid);
        let acc2 = spec_apply(acc1, PidName::Z, cfg.z_pid);
        let acc3 = spec_apply(acc2, PidName::H, cfg.h_pid);
        let acc4 = spec_apply(acc3, PidName::Pitch, cfg.pitch_pid);
        let acc5 = spec_apply(acc4, PidName::Roll, cfg.roll_pid);
        let acc6 = spec_apply(acc5, PidName::Yaw, cfg.yaw_pid);
        lemma_parse_step(s0, l0, s1, 0, acc0, PidName::X, cfg.x_pid);
        lemma_parse_step(s1, l1, s2, 1, acc1, PidName::Z, cfg.z_pid);
        lemma_parse_step(s2, l2, s3, 2, acc2, PidName::H, cfg.h_pid);
        lemma_parse_step(s3, l3, s4, 3, acc3, PidName::Pitch, cfg.pitch_pid);
        lemma_parse_step(s4, l4, s5, 4, acc4, PidName::Roll, cfg.roll_pid);
        lemma_parse_step(s5, l5, t6, 5, acc5, PidName::Yaw, cfg.yaw_pid);
        assert(spec_parse_from(t6, 6, acc6) == spec_finalize(acc6));
        assert(spec_finalize(acc6) == Ok::<TuningConfig, ConfigFault>(*cfg));
    }
    r
}

} // verus!
