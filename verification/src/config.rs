//! Validated configuration: durations, thresholds, headers, payloads and the
//! conversion of command-line arguments into a [`LoadTestConfig`].

use vstd::prelude::*;
use crate::cli::{resolved_url, Cli, OutputFormat, TestMode};
use crate::error::{ConfigError, WsBlastError};
use crate::headers::{header_pair, is_header_error};
pub use crate::headers::parse_header_pair;
use std::string::FromUtf8Error;
use vstd::utf8::{decode_utf8, encode_utf8, valid_utf8};
use crate::numeric::{
    all_digits, split_sign, decimal_layout, decimal_text, digits_value, digits_value_u128, parse_scaled_decimal,
    parse_u64_chars, parse_u64_spec, scaled_decimal, strip_trailing_zeros, trim_chars, trimmed,
};
use crate::text::{chars_eq, chars_of, contains_chars, contains_seq, pow10, pow10_u128, str_eq, string_of};
use crate::time::{max_nanos, Duration};

verus! {

/// `t` ends with `suffix`.
pub open spec fn ends_with(t: Seq<char>, suffix: Seq<char>) -> bool {
    t.len() >= suffix.len() && t.subrange(t.len() - suffix.len(), t.len() as int) == suffix
}

/// An amount of time written in text, already trimmed: `(negative and nonzero,
/// magnitude in nanoseconds)`, or `None` when the text is no duration.
///
/// `us`/`µs` and `ms` take an unsigned integer; `s`, `m` and `h` take a decimal
/// number of seconds, minutes or hours, rounded to the nearest nanosecond; with
/// no suffix the text is an unsigned integer number of seconds.
pub open spec fn human_duration_parts(t: Seq<char>) -> Option<(bool, nat)> {
    let n = t.len();
    if n == 0 {
        None
    } else if ends_with(t, seq!['u', 's']) || ends_with(t, seq!['\u{b5}', 's']) {
        match parse_u64_spec(t.take(n - 2)) {
            Some(v) => Some((false, (v * 1_000) as nat)),
            None => None,
        }
    } else if ends_with(t, seq!['m', 's']) {
        match parse_u64_spec(t.take(n - 2)) {
            Some(v) => Some((false, (v * 1_000_000) as nat)),
            None => None,
        }
    } else if ends_with(t, seq!['s']) {
        scaled_decimal(t.take(n - 1), 1)
    } else if ends_with(t, seq!['m']) {
        scaled_decimal(t.take(n - 1), 60)
    } else if ends_with(t, seq!['h']) {
        scaled_decimal(t.take(n - 1), 3600)
    } else {
        match parse_u64_spec(t) {
            Some(v) => Some((false, (v * 1_000_000_000) as nat)),
            None => None,
        }
    }
}

/// The duration written in `s` (surrounding white space ignored), in nanoseconds.
pub open spec fn human_duration(s: Seq<char>) -> Option<nat> {
    match human_duration_parts(trimmed(s)) {
        Some((_, n)) => Some(n),
        None => None,
    }
}

/// `s` names a duration that is negative or beyond the range of `Duration`.
pub open spec fn human_duration_out_of_range(s: Seq<char>) -> bool {
    match human_duration_parts(trimmed(s)) {
        Some((neg, n)) => neg || n > max_nanos(),
        None => false,
    }
}

/// The message of the `InvalidDuration` error for the text `s`.
pub open spec fn invalid_duration_message(s: Seq<char>) -> Seq<char> {
    if trimmed(s).len() == 0 {
        "empty duration string"@
    } else {
        trimmed(s)
    }
}

/// The error for a text that names no duration.
pub open spec fn is_invalid_duration_error(e: WsBlastError, s: Seq<char>) -> bool {
    e matches WsBlastError::Config(ConfigError::InvalidDuration(m)) && m@ == invalid_duration_message(s)
}

/// Parses concise human duration strings such as `500ms`, `10s`, `2m` or `1.5h`.
///
/// Suffixes: `us`/`µs` (microseconds), `ms` (milliseconds), `s`, `m`, `h`;
/// without a suffix the text is an integer number of seconds.
pub fn parse_human_duration(s: &str) -> (res: Result<Duration, WsBlastError>)
    requires
        !human_duration_out_of_range(s@),
    ensures
        match human_duration(s@) {
            Some(n) => res matches Ok(d) && d@ == n,
            None => res matches Err(e) && is_invalid_duration_error(e, s@),
        },
{
    let raw = chars_of(s);
    let t = trim_chars(&raw);
    let n = t.len();
    if n == 0 {
        let msg = String::from_str("empty duration string");
        return Err(WsBlastError::Config(ConfigError::InvalidDuration(msg)));
    }
    let ghost tv = t@;
    proof {
        if n >= 2 {
            assert(tv.take(n - 2) =~= tv.subrange(0, n - 2));
        }
        assert(tv.take(n - 1) =~= tv.subrange(0, n - 1));
        assert(tv.subrange(0, n as int) =~= tv);
    }
    let micros_suffix = n >= 2 && (t[n - 2] == 'u' || t[n - 2] == '\u{b5}') && t[n - 1] == 's';
    assert(micros_suffix == (ends_with(tv, seq!['u', 's']) || ends_with(tv, seq!['\u{b5}', 's']))) by {
        if n >= 2 {
            assert(tv.subrange(n - 2, n as int) =~= seq![tv[n - 2], tv[n - 1]]);
        }
    }
    if micros_suffix {
        return match parse_u64_chars(&t, 0, n - 2) {
            Some(v) => Ok(Duration::from_micros(v)),
            None => Err(WsBlastError::Config(ConfigError::InvalidDuration(string_of(t)))),
        };
    }
    let millis_suffix = n >= 2 && t[n - 2] == 'm' && t[n - 1] == 's';
    assert(millis_suffix == ends_with(tv, seq!['m', 's'])) by {
        if n >= 2 {
            assert(tv.subrange(n - 2, n as int) =~= seq![tv[n - 2], tv[n - 1]]);
        }
    }
    if millis_suffix {
        return match parse_u64_chars(&t, 0, n - 2) {
            Some(v) => Ok(Duration::from_millis(v)),
            None => Err(WsBlastError::Config(ConfigError::InvalidDuration(string_of(t)))),
        };
    }
    let last = t[n - 1];
    assert(tv.subrange(n - 1, n as int) =~= seq![last]);
    assert(ends_with(tv, seq!['s']) == (last == 's')) by {
        assert(seq!['s'][0] == 's');
        assert(tv.subrange(n - 1, n as int)[0] == last);
    }
    assert(ends_with(tv, seq!['m']) == (last == 'm')) by {
        assert(seq!['m'][0] == 'm');
        assert(tv.subrange(n - 1, n as int)[0] == last);
    }
    assert(ends_with(tv, seq!['h']) == (last == 'h')) by {
        assert(seq!['h'][0] == 'h');
        assert(tv.subrange(n - 1, n as int)[0] == last);
    }
    let mult: u128 = if last == 's' {
        1
    } else if last == 'm' {
        60
    } else if last == 'h' {
        3600
    } else {
        0
    };
    if mult > 0 {
        return match parse_scaled_decimal(&t, 0, n - 1, mult) {
            Some(nanos) => Ok(Duration::from_nanos_total(nanos)),
            None => Err(WsBlastError::Config(ConfigError::InvalidDuration(string_of(t)))),
        };
    }
    match parse_u64_chars(&t, 0, n) {
        Some(v) => Ok(Duration::from_secs(v)),
        None => Err(WsBlastError::Config(ConfigError::InvalidDuration(string_of(t)))),
    }
}

/// The duration written in `s` as validation sees it: `None` when `s`
/// names no duration; otherwise whether it is negative (and nonzero), and
/// its nanoseconds when they lie within the range of [`Duration`].
pub fn duration_parts(s: &str) -> (r: Option<(bool, Option<u128>)>)
    ensures
        match human_duration_parts(trimmed(s@)) {
            Some((neg, n)) => r matches Some((b, o)) && b == neg
                && (if n <= max_nanos() { o == Some(n as u128) } else { o is None }),
            None => r is None,
        },
{
    let raw = chars_of(s);
    let t = trim_chars(&raw);
    let n = t.len();
    if n == 0 {
        return None;
    }
    let ghost tv = t@;
    proof {
        if n >= 2 {
            assert(tv.take(n - 2) =~= tv.subrange(0, n - 2));
        }
        assert(tv.take(n - 1) =~= tv.subrange(0, n - 1));
        assert(tv.subrange(0, n as int) =~= tv);
    }
    let micros_suffix = n >= 2 && (t[n - 2] == 'u' || t[n - 2] == '\u{b5}') && t[n - 1] == 's';
    assert(micros_suffix == (ends_with(tv, seq!['u', 's']) || ends_with(tv, seq!['\u{b5}', 's']))) by {
        if n >= 2 {
            assert(tv.subrange(n - 2, n as int) =~= seq![tv[n - 2], tv[n - 1]]);
        }
    }
    if micros_suffix {
        return match parse_u64_chars(&t, 0, n - 2) {
            Some(v) => Some((false, Some(v as u128 * 1_000))),
            None => None,
        };
    }
    let millis_suffix = n >= 2 && t[n - 2] == 'm' && t[n - 1] == 's';
    assert(millis_suffix == ends_with(tv, seq!['m', 's'])) by {
        if n >= 2 {
            assert(tv.subrange(n - 2, n as int) =~= seq![tv[n - 2], tv[n - 1]]);
        }
    }
    if millis_suffix {
        return match parse_u64_chars(&t, 0, n - 2) {
            Some(v) => Some((false, Some(v as u128 * 1_000_000))),
            None => None,
        };
    }
    let last = t[n - 1];
    assert(tv.subrange(n - 1, n as int) =~= seq![last]);
    assert(ends_with(tv, seq!['s']) == (last == 's')) by {
        assert(seq!['s'][0] == 's');
        assert(tv.subrange(n - 1, n as int)[0] == last);
    }
    assert(ends_with(tv, seq!['m']) == (last == 'm')) by {
        assert(seq!['m'][0] == 'm');
        assert(tv.subrange(n - 1, n as int)[0] == last);
    }
    assert(ends_with(tv, seq!['h']) == (last == 'h')) by {
        assert(seq!['h'][0] == 'h');
        assert(tv.subrange(n - 1, n as int)[0] == last);
    }
    let mult: u128 = if last == 's' {
        1
    } else if last == 'm' {
        60
    } else if last == 'h' {
        3600
    } else {
        0
    };
    if mult > 0 {
        return crate::numeric::scaled_decimal_checked(&t, 0, n - 1, mult);
    }
    match parse_u64_chars(&t, 0, n) {
        Some(v) => Some((false, Some(v as u128 * 1_000_000_000))),
        None => None,
    }
}

/// Whether `s` names a duration that is valid and in range (see [`duration_ok`]).
pub fn duration_text_ok(s: &str) -> (b: bool)
    ensures
        b == duration_ok(s@),
{
    match duration_parts(s) {
        Some((neg, Some(_))) => !neg,
        _ => false,
    }
}

/// Whether `s` names a duration that is negative or beyond the range of
/// [`Duration`] (see [`human_duration_out_of_range`]).
pub fn duration_text_out_of_range(s: &str) -> (b: bool)
    ensures
        b == human_duration_out_of_range(s@),
{
    match duration_parts(s) {
        Some((neg, o)) => neg || o.is_none(),
        None => false,
    }
}

/// Most decimal digits a [`Decimal`] holds.
pub const DECIMAL_DIGITS: u32 = 30;

/// Where the exponent marker (`e` or `E`) of `t` stands; `t.len()` when
/// there is none.
pub open spec fn exponent_index(t: Seq<char>) -> nat
    decreases t.len(),
{
    if t.len() == 0 {
        0
    } else if t[0] == 'e' || t[0] == 'E' {
        0
    } else {
        1 + exponent_index(t.drop_first())
    }
}

/// `exponent_index(t)` is `k` when no marker stands before `k` and one
/// stands at `k` (or `t` ends there).
proof fn lemma_exponent_index(t: Seq<char>, k: nat)
    requires
        k <= t.len(),
        forall|j: int| 0 <= j < k ==> t[j] != 'e' && t[j] != 'E',
        k < t.len() ==> t[k as int] == 'e' || t[k as int] == 'E',
    ensures
        exponent_index(t) == k,
    decreases k,
{
    if k > 0 {
        assert forall|j: int| 0 <= j < k - 1 implies t.drop_first()[j] != 'e' && t.drop_first()[j] != 'E' by {
            assert(t.drop_first()[j] == t[j + 1]);
        }
        lemma_exponent_index(t.drop_first(), (k - 1) as nat);
    }
}

/// The exponent written in `x`: an optional sign and at least one digit.
pub open spec fn exponent_value(x: Seq<char>) -> Option<int> {
    let (neg, b) = split_sign(x);
    if b.len() > 0 && all_digits(b) {
        Some(if neg { -(digits_value(b) as int) } else { digits_value(b) as int })
    } else {
        None
    }
}

/// The number written in `s` as `(negative, mantissa, scale)`, meaning
/// `mantissa / 10^scale` with that sign: an optional sign, digits, and
/// optionally a point and more digits (at least one digit in all), then
/// optionally `e` or `E` and a decimal exponent, as floats are written;
/// `None` when it is no such number or its value needs more than
/// [`DECIMAL_DIGITS`] digits, or more than that many after the point.
pub open spec fn decimal_of_text(s: Seq<char>) -> Option<(bool, nat, nat)> {
    let k = exponent_index(s);
    let ex: Option<int> = if k < s.len() { exponent_value(s.skip((k + 1) as int)) } else { Some(0) };
    match decimal_text(s.take(k as int)) {
        Some((neg, ip, fp)) => match ex {
            Some(e) => {
                let f = strip_trailing_zeros(fp);
                decimal_of_parts(neg, digits_value(ip) * pow10(f.len()) + digits_value(f), f.len(), e)
            },
            None => None,
        },
        None => None,
    }
}

/// The number `m / 10^flen * 10^e` with sign `neg` as `(negative,
/// mantissa, scale)`, when it needs at most [`DECIMAL_DIGITS`] digits and
/// at most that many after the point.
pub open spec fn decimal_of_parts(neg: bool, m: nat, flen: nat, e: int) -> Option<(bool, nat, nat)> {
    let sc: int = flen - e;
    if m == 0 {
        Some((neg, 0, 0))
    } else if m >= pow10(DECIMAL_DIGITS as nat) {
        None
    } else if sc >= 0 {
        if sc <= DECIMAL_DIGITS { Some((neg, m, sc as nat)) } else { None }
    } else if m * pow10((-sc) as nat) < pow10(DECIMAL_DIGITS as nat) {
        Some((neg, m * pow10((-sc) as nat), 0))
    } else {
        None
    }
}

/// The bound on the mantissa of a [`Decimal`].
pub proof fn lemma_pow10_30()
    ensures
        pow10(30) == 1_000_000_000_000_000_000_000_000_000_000,
{
    reveal_with_fuel(pow10, 31);
}

/// The exponent after the marker at `k`: its sign and its magnitude
/// (`None` for one beyond `u128`); `None` when it is no exponent.
fn exponent_of(v: &Vec<char>, k: usize) -> (r: Option<(bool, Option<u128>)>)
    requires
        k < v.len(),
    ensures
        match exponent_value(v@.subrange(k + 1, v@.len() as int)) {
            Some(e) => r matches Some((eneg, ev)) && match ev {
                Some(u) => e == (if eneg { -(u as int) } else { u as int }),
                None => (if eneg { -e } else { e }) > u128::MAX,
            },
            None => r is None,
        },
{
    let n = v.len();
    let ghost x = v@.subrange(k + 1, n as int);
    let mut j = k + 1;
    let mut eneg = false;
    if j < n && v[j] == '-' {
        eneg = true;
        j = j + 1;
    } else if j < n && v[j] == '+' {
        j = j + 1;
    }
    proof {
        assert(split_sign(x).1 =~= v@.subrange(j as int, n as int));
        assert(split_sign(x).0 == eneg);
    }
    if j == n {
        return None;
    }
    match digits_value_u128(v, j, n) {
        Some(e) => Some((eneg, Some(e))),
        None => {
            if !crate::numeric::all_digits_range(v, j, n) {
                return None;
            }
            Some((eneg, None))
        },
    }
}

/// The mantissa before `k`: its sign, its number of fraction digits
/// without trailing zeros, and its digits read as one integer (`None` when
/// that integer reaches `10^30`); `None` when it is no decimal number.
fn mantissa_of(v: &Vec<char>, k: usize) -> (r: Option<(bool, usize, Option<u128>)>)
    requires
        k <= v.len(),
    ensures
        match decimal_text(v@.subrange(0, k as int)) {
            Some((neg, ip, fp)) => r matches Some((n2, flen, om)) && n2 == neg
                && flen == strip_trailing_zeros(fp).len()
                && match om {
                    Some(m) => m == digits_value(ip) * pow10(flen as nat) + digits_value(strip_trailing_zeros(fp)),
                    None => digits_value(ip) * pow10(flen as nat) + digits_value(strip_trailing_zeros(fp)) >= pow10(DECIMAL_DIGITS as nat),
                },
            None => r is None,
        },
{
    let (neg, p, kk, fs, e) = match decimal_layout(v, 0, k) {
        Some(layout) => layout,
        None => return None,
    };
    let ghost ip = v@.subrange(p as int, kk as int);
    let ghost fp = v@.subrange(fs as int, k as int);
    let ghost f = v@.subrange(fs as int, e as int);
    let ghost m = digits_value(ip) * pow10(f.len()) + digits_value(f);
    proof {
        assert(crate::numeric::all_digits(f)) by {
            assert forall|i: int| 0 <= i < f.len() implies crate::text::is_digit(#[trigger] f[i]) by {
                assert(f[i] == fp[i]);
            }
        }
        lemma_pow10_30();
        crate::text::lemma_pow10_positive(f.len());
        assert(m >= digits_value(f)) by (nonlinear_arith)
            requires m == digits_value(ip) * pow10(f.len()) + digits_value(f);
        assert(m >= digits_value(ip)) by (nonlinear_arith)
            requires m == digits_value(ip) * pow10(f.len()) + digits_value(f), pow10(f.len()) >= 1;
        assert(pow10(30) <= u128::MAX);
    }
    let flen = e - fs;
    let a = match digits_value_u128(v, fs, e) {
        Some(x) => x,
        None => return Some((neg, flen, None)),
    };
    let iv = match digits_value_u128(v, p, kk) {
        Some(x) => x,
        None => return Some((neg, flen, None)),
    };
    if iv == 0 {
        assert(m == digits_value(f)) by (nonlinear_arith)
            requires m == digits_value(ip) * pow10(f.len()) + digits_value(f), digits_value(ip) == 0;
        return Some((neg, flen, Some(a)));
    }
    if flen > 38 {
        proof {
            crate::text::lemma_pow10_mono(30, flen as nat);
            assert(m >= pow10(f.len())) by (nonlinear_arith)
                requires m == digits_value(ip) * pow10(f.len()) + digits_value(f), digits_value(ip) >= 1;
        }
        return Some((neg, flen, None));
    }
    proof {
        crate::text::lemma_pow10_mono(flen as nat, 38);
        assert(pow10(38) <= u128::MAX) by { reveal_with_fuel(pow10, 39); }
    }
    let den = pow10_u128(flen as u32);
    let prod = match iv.checked_mul(den) {
        Some(x) => x,
        None => return Some((neg, flen, None)),
    };
    match prod.checked_add(a) {
        Some(x) => Some((neg, flen, Some(x))),
        None => Some((neg, flen, None)),
    }
}

/// A decimal number held exactly: `mantissa / 10^scale`, negative when
/// `negative` is set (a negative zero keeps its sign).
#[derive(Debug, Clone, Copy, PartialEq, Eq, Structural)]
pub struct Decimal {
    negative: bool,
    mantissa: u128,
    scale: u32,
}

impl View for Decimal {
    type V = (bool, nat, nat);

    closed spec fn view(&self) -> (bool, nat, nat) {
        (self.negative, self.mantissa as nat, self.scale as nat)
    }
}

impl Decimal {
    #[verifier::type_invariant]
    closed spec fn bounded(self) -> bool {
        self.scale <= DECIMAL_DIGITS && self.mantissa < pow10(DECIMAL_DIGITS as nat)
    }

    /// The parts of the number, with their bounds.
    pub fn parts(&self) -> (r: (bool, u128, u32))
        ensures
            r.0 == self@.0,
            r.1 == self@.1,
            r.2 == self@.2,
            r.2 <= DECIMAL_DIGITS,
            r.1 < pow10(DECIMAL_DIGITS as nat),
    {
        proof {
            use_type_invariant(self);
        }
        (self.negative, self.mantissa, self.scale)
    }

    /// Reads a decimal number such as `0.01`, `-2.5`, `100` or `1e-3` (see
    /// [`decimal_of_text`]).
    pub fn parse(s: &str) -> (r: Option<Decimal>)
        ensures
            match decimal_of_text(s@) {
                Some(v) => r matches Some(d) && d@ == v,
                None => r is None,
            },
    {
        let v = chars_of(s);
        let n = v.len();
        let mut k: usize = 0;
        while k < n && v[k] != 'e' && v[k] != 'E'
            invariant
                k <= n,
                n == v@.len(),
                v@ == s@,
                forall|j: int| 0 <= j < k ==> v@[j] != 'e' && v@[j] != 'E',
            decreases n - k,
        {
            k = k + 1;
        }
        proof {
            lemma_exponent_index(s@, k as nat);
            assert(s@.take(k as int) =~= v@.subrange(0, k as int));
            if k < n {
                assert(s@.skip((k + 1) as int) =~= v@.subrange((k + 1) as int, n as int));
            }
        }
        let (eneg, ev): (bool, Option<u128>) = if k < n {
            match exponent_of(&v, k) {
                Some(x) => x,
                None => return None,
            }
        } else {
            (false, Some(0))
        };
        let ghost ex: Option<int> = if k < n { exponent_value(s@.skip((k + 1) as int)) } else { Some(0) };
        assert(ex is Some);
        let ghost e = ex.unwrap();
        let (neg, flen, om) = match mantissa_of(&v, k) {
            Some(x) => x,
            None => return None,
        };
        let ghost dt = decimal_text(s@.take(k as int)).unwrap();
        let ghost m: nat = digits_value(dt.1) * pow10(flen as nat) + digits_value(strip_trailing_zeros(dt.2));
        assert(decimal_of_text(s@) == decimal_of_parts(neg, m, flen as nat, e));
        proof {
            lemma_pow10_30();
        }
        let mm = match om {
            Some(x) => x,
            None => return None,
        };
        if mm == 0 {
            return Some(Decimal { negative: neg, mantissa: 0, scale: 0 });
        }
        let limit = pow10_u128(DECIMAL_DIGITS);
        if mm >= limit {
            return None;
        }
        match ev {
            Some(u) => Decimal::scaled(neg, mm, flen, eneg, u),
            None => {
                proof {
                    if !eneg {
                        crate::text::lemma_pow10_mono(31, (e - flen) as nat);
                        reveal_with_fuel(pow10, 2);
                        assert(pow10(31) == 10 * pow10(30));
                        assert(m * pow10((e - flen) as nat) >= pow10((e - flen) as nat)) by (nonlinear_arith)
                            requires m >= 1;
                    }
                }
                None
            },
        }
    }

    /// The number `mm / 10^flen` times `10^e`, `e` being `u` or `-u`,
    /// when it fits a [`Decimal`] (see [`decimal_of_parts`]).
    fn scaled(neg: bool, mm: u128, flen: usize, eneg: bool, u: u128) -> (r: Option<Decimal>)
        requires
            1 <= mm < pow10(DECIMAL_DIGITS as nat),
        ensures
            match decimal_of_parts(neg, mm as nat, flen as nat, if eneg { -(u as int) } else { u as int }) {
                Some(v) => r matches Some(d) && d@ == v,
                None => r is None,
            },
    {
        proof {
            lemma_pow10_30();
            assert(pow10(30) < u128::MAX);
        }
        if eneg {
            if u > 30 || flen > 30 - (u as usize) {
                return None;
            }
            return Some(Decimal { negative: neg, mantissa: mm, scale: (flen + (u as usize)) as u32 });
        }
        if u <= flen as u128 {
            let sc = flen - (u as usize);
            if sc > 30 {
                return None;
            }
            return Some(Decimal { negative: neg, mantissa: mm, scale: sc as u32 });
        }
        let diff = u - flen as u128;
        if diff > 30 {
            proof {
                crate::text::lemma_pow10_mono(31, diff as nat);
                reveal_with_fuel(pow10, 2);
                assert(pow10(31) == 10 * pow10(30));
                assert(mm * pow10(diff as nat) >= pow10(diff as nat)) by (nonlinear_arith)
                    requires mm >= 1;
            }
            return None;
        }
        let up = diff as u32;
        proof {
            crate::text::lemma_pow10_mono(up as nat, 30);
        }
        let big = match mm.checked_mul(pow10_u128(up)) {
            Some(x) => x,
            None => return None,
        };
        let limit = pow10_u128(DECIMAL_DIGITS);
        if big >= limit {
            return None;
        }
        Some(Decimal { negative: neg, mantissa: big, scale: 0 })
    }

    /// Whether the number, read as binary64 (rounded to the nearest, ties
    /// to even), lies between 0 and 1, both included (see [`unit_fraction`]).
    pub fn is_unit_fraction(&self) -> (b: bool)
        ensures
            b == unit_fraction(self@),
    {
        proof {
            use_type_invariant(self);
            crate::text::lemma_pow10_mono(self@.2, DECIMAL_DIGITS as nat);
            lemma_pow10_30();
            crate::text::lemma_pow10_mono(0, self@.2);
            reveal_with_fuel(pow10, 1);
        }
        let den = pow10_u128(self.scale);
        (!self.negative || self.mantissa == 0)
            && crate::ratio::frac_le_exec(self.mantissa, den, 0x20_0000_0000_0001, 0x20_0000_0000_0000)
    }
}

/// The decimal `d`, read as binary64 (rounded to the nearest, ties to
/// even), lies between 0 and 1, both included: it is not below zero (a
/// negative zero is not), and at most `1 + 2^-53`, the midpoint above one,
/// which rounds to one.
pub open spec fn unit_fraction(d: (bool, nat, nat)) -> bool {
    (!d.0 || d.1 == 0) && crate::ratio::frac_le(d.1, pow10(d.2), 0x20_0000_0000_0001, 0x20_0000_0000_0000)
}

/// A threshold read as a 64-bit float: a number, an infinity, or not a number.
pub enum ThresholdValue {
    Number(bool, nat, nat),
    Infinity(bool),
    NotANumber,
}

/// A throughput threshold: a decimal number, an infinity (negative when
/// `negative` is set), or not a number.
#[derive(Debug, Clone, Copy, PartialEq, Eq, Structural)]
pub enum Threshold {
    Number(Decimal),
    Infinity { negative: bool },
    NotANumber,
}

impl View for Threshold {
    type V = ThresholdValue;

    open spec fn view(&self) -> ThresholdValue {
        match self {
            Threshold::Number(d) => ThresholdValue::Number(d@.0, d@.1, d@.2),
            Threshold::Infinity { negative } => ThresholdValue::Infinity(*negative),
            Threshold::NotANumber => ThresholdValue::NotANumber,
        }
    }
}

/// `c` in lower case, for ASCII letters.
pub open spec fn ascii_lower(c: char) -> char {
    if 'A' <= c <= 'Z' { ((c as u32) + 32) as char } else { c }
}

/// The special values a float is written as: `inf`, `infinity` or `nan` in
/// any mix of cases, after an optional sign.
pub open spec fn special_value(t: Seq<char>) -> Option<ThresholdValue> {
    let neg = t.len() > 0 && t[0] == '-';
    let body = if t.len() > 0 && (t[0] == '-' || t[0] == '+') { t.drop_first() } else { t };
    let l = body.map_values(|c: char| ascii_lower(c));
    if l == "inf"@ || l == "infinity"@ {
        Some(ThresholdValue::Infinity(neg))
    } else if l == "nan"@ {
        Some(ThresholdValue::NotANumber)
    } else {
        None
    }
}

/// The threshold written in `t`: a decimal number (see [`decimal_of_text`])
/// or a special value (see [`special_value`]).
pub open spec fn threshold_of_text(t: Seq<char>) -> Option<ThresholdValue> {
    match decimal_of_text(t) {
        Some((n, m, sc)) => Some(ThresholdValue::Number(n, m, sc)),
        None => special_value(t),
    }
}

fn ascii_lower_exec(c: char) -> (r: char)
    ensures
        r == ascii_lower(c),
{
    if 'A' <= c && c <= 'Z' {
        ((c as u8) + 32) as char
    } else {
        c
    }
}

impl Threshold {
    /// Reads a threshold (see [`threshold_of_text`]).
    pub fn parse(s: &str) -> (r: Option<Threshold>)
        ensures
            match threshold_of_text(s@) {
                Some(v) => r matches Some(x) && x@ == v,
                None => r is None,
            },
    {
        if let Some(d) = Decimal::parse(s) {
            return Some(Threshold::Number(d));
        }
        let v = chars_of(s);
        let mut start: usize = 0;
        let mut negative = false;
        if v.len() > 0 && v[0] == '-' {
            negative = true;
            start = 1;
        } else if v.len() > 0 && v[0] == '+' {
            start = 1;
        }
        let ghost body = if s@.len() > 0 && (s@[0] == '-' || s@[0] == '+') { s@.drop_first() } else { s@ };
        assert(body =~= v@.subrange(start as int, v@.len() as int));
        let mut low: Vec<char> = Vec::new();
        let mut i: usize = start;
        while i < v.len()
            invariant
                start <= i <= v@.len(),
                low@ =~= v@.subrange(start as int, i as int).map_values(|c: char| ascii_lower(c)),
            decreases v@.len() - i,
        {
            let c = ascii_lower_exec(v[i]);
            low.push(c);
            i = i + 1;
            assert(v@.subrange(start as int, i as int) =~= v@.subrange(start as int, i - 1).push(v@[i - 1]));
        }
        assert(low@ =~= body.map_values(|c: char| ascii_lower(c)));
        if chars_eq(&low, &chars_of("inf")) || chars_eq(&low, &chars_of("infinity")) {
            Some(Threshold::Infinity { negative })
        } else if chars_eq(&low, &chars_of("nan")) {
            Some(Threshold::NotANumber)
        } else {
            None
        }
    }
}

/// Service level objectives a run is gated on.
#[derive(Debug, Clone)]
pub struct SloThresholds {
    pub max_p50: Option<Duration>,
    pub max_p95: Option<Duration>,
    pub max_p99: Option<Duration>,
    pub max_p999: Option<Duration>,
    pub max_error_rate: Option<Decimal>,
    pub min_throughput: Option<Threshold>,
}

impl Default for SloThresholds {
    fn default() -> (s: SloThresholds)
        ensures
            s.max_p50 is None,
            s.max_p95 is None,
            s.max_p99 is None,
            s.max_p999 is None,
            s.max_error_rate is None,
            s.min_throughput is None,
    {
        SloThresholds {
            max_p50: None,
            max_p95: None,
            max_p99: None,
            max_p999: None,
            max_error_rate: None,
            min_throughput: None,
        }
    }
}

/// The payload workers send.
#[derive(Debug, Clone)]
pub enum PayloadConfig {
    /// Text without placeholders, sent as it is.
    StaticText(String),
    /// Text with `{{timestamp}}`, `{{worker_id}}` or `{{seq}}` placeholders,
    /// filled in for every message.
    DynamicText(String),
    /// Raw bytes, sent as binary frames.
    Binary(Vec<u8>),
}

/// The placeholder replaced by the time in milliseconds since the Unix epoch.
pub open spec fn timestamp_placeholder() -> Seq<char> {
    seq!['{', '{', 't', 'i', 'm', 'e', 's', 't', 'a', 'm', 'p', '}', '}']
}

/// The placeholder replaced by the number of the worker.
pub open spec fn worker_id_placeholder() -> Seq<char> {
    seq!['{', '{', 'w', 'o', 'r', 'k', 'e', 'r', '_', 'i', 'd', '}', '}']
}

/// The placeholder replaced by the sequence number of the message.
pub open spec fn seq_placeholder() -> Seq<char> {
    seq!['{', '{', 's', 'e', 'q', '}', '}']
}

/// `t` holds one of the payload placeholders.
pub open spec fn has_placeholder(t: Seq<char>) -> bool {
    contains_seq(t, timestamp_placeholder()) || contains_seq(t, worker_id_placeholder())
        || contains_seq(t, seq_placeholder())
}

/// The payload placeholders as character vectors.
pub fn placeholders() -> (r: (Vec<char>, Vec<char>, Vec<char>))
    ensures
        r.0@ == timestamp_placeholder(),
        r.1@ == worker_id_placeholder(),
        r.2@ == seq_placeholder(),
{
    let ts = vec!['{', '{', 't', 'i', 'm', 'e', 's', 't', 'a', 'm', 'p', '}', '}'];
    let wid = vec!['{', '{', 'w', 'o', 'r', 'k', 'e', 'r', '_', 'i', 'd', '}', '}'];
    let sq = vec!['{', '{', 's', 'e', 'q', '}', '}'];
    assert(ts@ =~= timestamp_placeholder());
    assert(wid@ =~= worker_id_placeholder());
    assert(sq@ =~= seq_placeholder());
    (ts, wid, sq)
}

impl PayloadConfig {
    /// A text payload: dynamic when it holds a placeholder, static otherwise.
    pub fn from_text(text: String) -> (p: PayloadConfig)
        ensures
            match p {
                PayloadConfig::DynamicText(t) => t@ == text@ && has_placeholder(text@),
                PayloadConfig::StaticText(t) => t@ == text@ && !has_placeholder(text@),
                PayloadConfig::Binary(_) => false,
            },
    {
        let chars = chars_of(text.as_str());
        let (ts, wid, sq) = placeholders();
        if contains_chars(&chars, &ts) || contains_chars(&chars, &wid) || contains_chars(&chars, &sq) {
            PayloadConfig::DynamicText(text)
        } else {
            PayloadConfig::StaticText(text)
        }
    }
}

#[verifier::external_type_specification]
#[verifier::external_body]
pub struct ExFromUtf8Error(FromUtf8Error);

/// What `url::Url::parse` makes of `input`: the serialised URL and its
/// scheme, or the text of the parse error.
pub uninterp spec fn url_parse_outcome(input: Seq<char>) -> Result<(Seq<char>, Seq<char>), Seq<char>>;

/// `url::Url::parse(input)`, with the URL given back as its serialisation and
/// scheme and an error as its message.
#[verifier::external_body]
fn parse_url(input: &str) -> (res: Result<(String, String), String>)
    ensures
        match res {
            Ok((u, scheme)) => url_parse_outcome(input@) == Ok::<(Seq<char>, Seq<char>), Seq<char>>((u@, scheme@)),
            Err(m) => url_parse_outcome(input@) == Err::<(Seq<char>, Seq<char>), Seq<char>>(m@),
        },
{
    match url::Url::parse(input) {
        Ok(u) => Ok((u.as_str().to_string(), u.scheme().to_string())),
        Err(e) => Err(e.to_string()),
    }
}

/// `String::from_utf8(bytes)`: succeeds exactly on valid UTF-8, decoding it.
#[verifier::external_body]
fn string_from_utf8(bytes: Vec<u8>) -> (res: Result<String, FromUtf8Error>)
    ensures
        res is Ok <==> valid_utf8(bytes@),
        res matches Ok(s) ==> s@ == decode_utf8(bytes@),
{
    String::from_utf8(bytes)
}

/// `std::io::Error::new(ErrorKind::InvalidData, err)`.
#[verifier::external_body]
fn invalid_data_error(err: FromUtf8Error) -> std::io::Error {
    std::io::Error::new(std::io::ErrorKind::InvalidData, err)
}

/// `String::into_bytes`: the UTF-8 encoding of the text.
#[verifier::external_body]
fn string_into_bytes(s: String) -> (b: Vec<u8>)
    ensures
        b@ == encode_utf8(s@),
{
    s.into_bytes()
}

/// Fully validated configuration of a load test.
#[derive(Debug, Clone)]
pub struct LoadTestConfig {
    /// The target, as the serialisation of the parsed URL.
    pub target_url: String,
    pub connections: usize,
    /// Workers started per second while connecting; 0 starts them all at once.
    pub ramp_rate: u64,
    pub duration: Duration,
    pub max_requests: Option<u64>,
    pub rate_per_conn: u64,
    pub payload: PayloadConfig,
    /// Handshake headers as `(lower-case name, value)`, one entry per name.
    pub headers: Vec<(String, String)>,
    pub subprotocol: Option<String>,
    pub mode: TestMode,
    pub connect_timeout: Duration,
    pub message_timeout: Duration,
    pub ping_interval: Duration,
    pub slo: SloThresholds,
    pub output_format: OutputFormat,
    pub output_path: Option<String>,
    pub tui: bool,
    pub no_progress: bool,
}

/// The message given when no target URL is provided.
pub open spec fn no_url_message() -> Seq<char> {
    "No target URL provided. Specify target as argument or --url <URL>"@
}

/// The message given when the error-rate objective is not a fraction in `[0, 1]`.
pub open spec fn error_rate_message(text: Seq<char>) -> Seq<char> {
    "max_error_rate must be between 0.0 and 1.0, received "@ + text
}

/// The message given when the throughput objective is not a decimal number.
pub open spec fn throughput_message(text: Seq<char>) -> Seq<char> {
    "min_throughput must be a decimal number, received "@ + text
}

/// Text naming a duration that is valid and in range.
pub open spec fn duration_ok(t: Seq<char>) -> bool {
    human_duration(t) is Some && !human_duration_out_of_range(t)
}

/// The first run-timing text of `cli`, in the order they are checked, that
/// names no valid duration in range.
pub open spec fn first_bad_timing(cli: Cli) -> Option<Seq<char>> {
    if !duration_ok(cli.duration@) {
        Some(cli.duration@)
    } else if !duration_ok(cli.connect_timeout@) {
        Some(cli.connect_timeout@)
    } else if !duration_ok(cli.message_timeout@) {
        Some(cli.message_timeout@)
    } else if !duration_ok(cli.ping_interval@) {
        Some(cli.ping_interval@)
    } else {
        None
    }
}

/// An objective is given as text that names no valid duration in range.
pub open spec fn objective_bad(o: Option<String>) -> bool {
    o matches Some(t) && !duration_ok(t@)
}

/// The first latency-objective text of `cli`, in the order they are checked,
/// that names no valid duration in range.
pub open spec fn first_bad_objective(cli: Cli) -> Option<Seq<char>> {
    if objective_bad(cli.max_p50) {
        Some(cli.max_p50.unwrap()@)
    } else if objective_bad(cli.max_p95) {
        Some(cli.max_p95.unwrap()@)
    } else if objective_bad(cli.max_p99) {
        Some(cli.max_p99.unwrap()@)
    } else if objective_bad(cli.max_p999) {
        Some(cli.max_p999.unwrap()@)
    } else {
        None
    }
}

/// The target of `cli`, parsed and with a WebSocket scheme, and a positive
/// number of connections.
pub open spec fn target_ok(cli: Cli) -> bool {
    match resolved_url(cli) {
        Some(raw) => match url_parse_outcome(raw) {
            Ok((_, scheme)) => (scheme == "ws"@ || scheme == "wss"@) && cli.connections > 0,
            Err(_) => false,
        },
        None => false,
    }
}

/// The payload file, when one is named, was read and suits the payload kind.
pub open spec fn payload_ok(cli: Cli, file: Option<Result<Vec<u8>, std::io::Error>>) -> bool {
    match cli.payload_file {
        Some(_) => match file {
            Some(Ok(bytes)) => cli.binary || valid_utf8(bytes@),
            _ => false,
        },
        None => true,
    }
}

/// Every header of `cli` is well formed.
pub open spec fn headers_ok(cli: Cli) -> bool {
    forall|i: int| 0 <= i < cli.headers@.len() ==> header_pair(#[trigger] cli.headers@[i]@) is Some
}

/// Index of the first malformed header.
pub open spec fn first_bad_header(hs: Seq<String>) -> Option<int>
    decreases hs.len(),
{
    if hs.len() == 0 {
        None
    } else {
        match first_bad_header(hs.drop_last()) {
            Some(i) => Some(i),
            None => if header_pair(hs.last()@) is Some { None } else { Some(hs.len() - 1) },
        }
    }
}

/// Validating `cli` reaches a duration that `Duration` cannot hold.
pub open spec fn from_cli_panics(cli: Cli, file: Option<Result<Vec<u8>, std::io::Error>>) -> bool {
    &&& target_ok(cli)
    &&& match first_bad_timing(cli) {
        Some(t) => human_duration_out_of_range(t),
        None => payload_ok(cli, file) && headers_ok(cli) && match first_bad_objective(cli) {
            Some(t) => human_duration_out_of_range(t),
            None => false,
        },
    }
}

/// The value of the last well-formed header named `n` among `hs`.
pub open spec fn header_value_for(hs: Seq<String>, n: Seq<char>) -> Option<Seq<char>>
    decreases hs.len(),
{
    if hs.len() == 0 {
        None
    } else {
        match header_pair(hs.last()@) {
            Some((name, v)) => if name == n { Some(v) } else { header_value_for(hs.drop_last(), n) },
            None => header_value_for(hs.drop_last(), n),
        }
    }
}

/// The value stored for the name `n` in a header list.
pub open spec fn header_lookup(v: Seq<(String, String)>, n: Seq<char>) -> Option<Seq<char>>
    decreases v.len(),
{
    if v.len() == 0 {
        None
    } else if v.last().0@ == n {
        Some(v.last().1@)
    } else {
        header_lookup(v.drop_last(), n)
    }
}

/// No two entries of a header list share a name.
pub open spec fn header_names_unique(v: Seq<(String, String)>) -> bool {
    forall|i: int, j: int| 0 <= i < j < v.len() ==> v[i].0@ != v[j].0@
}

/// `p` is the text payload `t`, dynamic exactly when `t` holds a placeholder.
pub open spec fn is_text_payload(p: PayloadConfig, t: Seq<char>) -> bool {
    match p {
        PayloadConfig::DynamicText(x) => x@ == t && has_placeholder(t),
        PayloadConfig::StaticText(x) => x@ == t && !has_placeholder(t),
        PayloadConfig::Binary(_) => false,
    }
}

/// The default text payload.
pub open spec fn default_text_payload() -> Seq<char> {
    "{\"source\":\"wsblast\",\"ts\":\"{{timestamp}}\",\"seq\":{{seq}}}"@
}

/// The payload `cli` asks for (given that its file, if any, was read).
pub open spec fn payload_matches(p: PayloadConfig, cli: Cli, file: Option<Result<Vec<u8>, std::io::Error>>) -> bool {
    match cli.payload_file {
        Some(_) => match file {
            Some(Ok(bytes)) => if cli.binary {
                p matches PayloadConfig::Binary(b) && b@ == bytes@
            } else {
                is_text_payload(p, decode_utf8(bytes@))
            },
            _ => false,
        },
        None => match cli.payload {
            Some(t) => if cli.binary {
                p matches PayloadConfig::Binary(b) && b@ == encode_utf8(t@)
            } else {
                is_text_payload(p, t@)
            },
            None => if cli.binary {
                p matches PayloadConfig::Binary(b) && b@ == encode_utf8("wsblast-payload"@)
            } else {
                is_text_payload(p, default_text_payload())
            },
        },
    }
}

/// `d` is the duration an optional objective text names.
pub open spec fn objective_matches(d: Option<Duration>, t: Option<String>) -> bool {
    match t {
        Some(x) => d matches Some(v) && human_duration(x@) == Some(v@),
        None => d is None,
    }
}

/// `d` is the decimal an optional threshold text names.
pub open spec fn threshold_matches(d: Option<Decimal>, t: Option<String>) -> bool {
    match t {
        Some(x) => d matches Some(v) && decimal_of_text(x@) == Some(v@),
        None => d is None,
    }
}

/// The throughput threshold `d` is the one written in `t`, or both are absent.
pub open spec fn throughput_threshold_matches(d: Option<Threshold>, t: Option<String>) -> bool {
    match t {
        Some(x) => d matches Some(v) && threshold_of_text(x@) == Some(v@),
        None => d is None,
    }
}

/// The error-rate objective, when given, is a decimal whose binary64 value
/// lies in `[0, 1]` (see [`unit_fraction`]).
pub open spec fn error_rate_ok(cli: Cli) -> bool {
    match cli.max_error_rate {
        Some(t) => match decimal_of_text(t@) {
            Some(d) => unit_fraction(d),
            None => false,
        },
        None => true,
    }
}

/// The throughput objective, when given, is a decimal number or a special
/// float value.
pub open spec fn throughput_ok(cli: Cli) -> bool {
    match cli.min_throughput {
        Some(t) => threshold_of_text(t@) is Some,
        None => true,
    }
}

/// `c` is the configuration `cli` describes.
pub open spec fn config_matches(c: LoadTestConfig, cli: Cli, file: Option<Result<Vec<u8>, std::io::Error>>) -> bool {
    &&& url_parse_outcome(resolved_url(cli).unwrap()) matches Ok((u, _)) && c.target_url@ == u
    &&& c.connections == cli.connections
    &&& c.ramp_rate == cli.ramp_rate
    &&& human_duration(cli.duration@) == Some(c.duration@)
    &&& c.max_requests == cli.requests
    &&& c.rate_per_conn == cli.rate
    &&& payload_matches(c.payload, cli, file)
    &&& header_names_unique(c.headers@)
    &&& forall|n: Seq<char>| #[trigger] header_lookup(c.headers@, n) == header_value_for(cli.headers@, n)
    &&& c.subprotocol == cli.subprotocol
    &&& c.mode == cli.mode
    &&& human_duration(cli.connect_timeout@) == Some(c.connect_timeout@)
    &&& human_duration(cli.message_timeout@) == Some(c.message_timeout@)
    &&& human_duration(cli.ping_interval@) == Some(c.ping_interval@)
    &&& objective_matches(c.slo.max_p50, cli.max_p50)
    &&& objective_matches(c.slo.max_p95, cli.max_p95)
    &&& objective_matches(c.slo.max_p99, cli.max_p99)
    &&& objective_matches(c.slo.max_p999, cli.max_p999)
    &&& threshold_matches(c.slo.max_error_rate, cli.max_error_rate)
    &&& throughput_threshold_matches(c.slo.min_throughput, cli.min_throughput)
    &&& c.output_format == cli.format
    &&& c.output_path == cli.output_file
    &&& c.tui == cli.tui
    &&& c.no_progress == cli.no_progress
}

/// What validating `cli` gives: the first failed check's error, or the configuration.
pub open spec fn from_cli_outcome(
    cli: Cli,
    file: Option<Result<Vec<u8>, std::io::Error>>,
    res: Result<LoadTestConfig, WsBlastError>,
) -> bool {
    match resolved_url(cli) {
        None => res matches Err(WsBlastError::Config(ConfigError::InvalidUrl(a, b))) && a@ == Seq::<char>::empty()
            && b@ == no_url_message(),
        Some(raw) => match url_parse_outcome(raw) {
            Err(m) => res matches Err(WsBlastError::Config(ConfigError::InvalidUrl(a, b))) && a@ == raw && b@ == m,
            Ok((_, scheme)) => if !(scheme == "ws"@ || scheme == "wss"@) {
                res matches Err(WsBlastError::Config(ConfigError::UnsupportedScheme(x))) && x@ == scheme
            } else if cli.connections == 0 {
                res matches Err(WsBlastError::Config(ConfigError::ZeroConcurrency(n))) && n == 0
            } else if first_bad_timing(cli) is Some {
                res matches Err(e) && is_invalid_duration_error(e, first_bad_timing(cli).unwrap())
            } else if !payload_ok(cli, file) {
                res matches Err(WsBlastError::Config(ConfigError::PayloadFile { path, source })) && path@
                    == cli.payload_file.unwrap()@ && (file matches Some(Err(e)) ==> source == e)
            } else if first_bad_header(cli.headers@) is Some {
                res matches Err(e) && is_header_error(e, cli.headers@[first_bad_header(cli.headers@).unwrap()]@)
            } else if first_bad_objective(cli) is Some {
                res matches Err(e) && is_invalid_duration_error(e, first_bad_objective(cli).unwrap())
            } else if !error_rate_ok(cli) {
                res matches Err(WsBlastError::Config(ConfigError::InvalidThreshold(m)))
                    && m@ == error_rate_message(cli.max_error_rate.unwrap()@)
            } else if !throughput_ok(cli) {
                res matches Err(WsBlastError::Config(ConfigError::InvalidThreshold(m)))
                    && m@ == throughput_message(cli.min_throughput.unwrap()@)
            } else {
                res matches Ok(c) && config_matches(c, cli, file)
            },
        },
    }
}

proof fn lemma_first_bad_header_prefix(hs: Seq<String>, k: int)
    requires
        0 <= k <= hs.len(),
        first_bad_header(hs.take(k)) is Some,
    ensures
        first_bad_header(hs) == first_bad_header(hs.take(k)),
    decreases hs.len() - k,
{
    if k < hs.len() {
        assert(hs.take(k + 1).drop_last() =~= hs.take(k));
        lemma_first_bad_header_prefix(hs, k + 1);
    } else {
        assert(hs.take(k) =~= hs);
    }
}

proof fn lemma_first_bad_header_none(hs: Seq<String>)
    requires
        first_bad_header(hs) is None,
    ensures
        forall|i: int| 0 <= i < hs.len() ==> header_pair(#[trigger] hs[i]@) is Some,
    decreases hs.len(),
{
    if hs.len() > 0 {
        lemma_first_bad_header_none(hs.drop_last());
        assert forall|i: int| 0 <= i < hs.len() implies header_pair(#[trigger] hs[i]@) is Some by {
            if i < hs.len() - 1 {
                assert(hs[i] == hs.drop_last()[i]);
            }
        }
    }
}

proof fn lemma_lookup_update(v: Seq<(String, String)>, j: int, p: (String, String))
    requires
        header_names_unique(v),
        0 <= j < v.len(),
        v[j].0@ == p.0@,
    ensures
        header_names_unique(v.update(j, p)),
        forall|n: Seq<char>| #[trigger] header_lookup(v.update(j, p), n) == if n == p.0@ { Some(p.1@) } else { header_lookup(v, n) },
    decreases v.len(),
{
    let w = v.update(j, p);
    assert forall|a: int, b: int| 0 <= a < b < w.len() implies w[a].0@ != w[b].0@ by {
        if a == j {
            assert(v[b].0@ != v[j].0@);
        } else if b == j {
            assert(v[a].0@ != v[j].0@);
        }
    }
    if j < v.len() - 1 {
        let u = v.drop_last();
        assert(header_names_unique(u)) by {
            assert forall|a: int, b: int| 0 <= a < b < u.len() implies u[a].0@ != u[b].0@ by {
                assert(u[a] == v[a] && u[b] == v[b]);
            }
        }
        assert(u[j] == v[j]);
        lemma_lookup_update(u, j, p);
        assert(w.drop_last() =~= u.update(j, p));
        assert(w.last() == v.last());
        assert(v.last().0@ != p.0@) by {
            assert(v[j].0@ != v[v.len() - 1].0@);
        }
        assert forall|n: Seq<char>| #[trigger] header_lookup(w, n) == if n == p.0@ { Some(p.1@) } else { header_lookup(v, n) } by {
            assert(header_lookup(w, n) == if w.last().0@ == n { Some(w.last().1@) } else { header_lookup(w.drop_last(), n) });
            assert(header_lookup(v, n) == if v.last().0@ == n { Some(v.last().1@) } else { header_lookup(v.drop_last(), n) });
        }
    } else {
        assert(w.drop_last() =~= v.drop_last());
        assert(w.last() == p);
        assert forall|n: Seq<char>| #[trigger] header_lookup(w, n) == if n == p.0@ { Some(p.1@) } else { header_lookup(v, n) } by {
            assert(header_lookup(w, n) == if w.last().0@ == n { Some(w.last().1@) } else { header_lookup(w.drop_last(), n) });
            assert(header_lookup(v, n) == if v.last().0@ == n { Some(v.last().1@) } else { header_lookup(v.drop_last(), n) });
        }
    }
}

/// Stores `value` under `name`, replacing an entry of the same name.
fn insert_header(v: &mut Vec<(String, String)>, name: String, value: String)
    requires
        header_names_unique(old(v)@),
    ensures
        header_names_unique(final(v)@),
        forall|n: Seq<char>| #[trigger] header_lookup(final(v)@, n) == if n == name@ { Some(value@) } else { header_lookup(old(v)@, n) },
{
    let name_chars = chars_of(name.as_str());
    let ghost start = v@;
    let mut j: usize = 0;
    while j < v.len()
        invariant
            j <= v.len(),
            v@ == start,
            start == old(v)@,
            header_names_unique(start),
            name_chars@ == name@,
            forall|k: int| 0 <= k < j ==> v@[k].0@ != name@,
        decreases v.len() - j,
    {
        let existing = chars_of(v[j].0.as_str());
        if chars_eq(&existing, &name_chars) {
            let ghost before = v@;
            let ghost p = (name, value);
            proof {
                lemma_lookup_update(before, j as int, p);
            }
            v.set(j, (name, value));
            assert(v@ == before.update(j as int, p));
            assert(before == old(v)@);
            assert(p.0@ == name@ && p.1@ == value@);
            assert forall|n: Seq<char>| #[trigger] header_lookup(v@, n) == if n == name@ { Some(value@) } else { header_lookup(old(v)@, n) } by {
                assert(header_lookup(before.update(j as int, p), n) == if n == p.0@ { Some(p.1@) } else { header_lookup(before, n) });
            }
            return;
        }
        j = j + 1;
    }
    let ghost before = v@;
    let ghost p = (name, value);
    v.push((name, value));
    assert(v@.drop_last() =~= before);
    assert(v@.last() == p);
    assert forall|n: Seq<char>| #[trigger] header_lookup(v@, n) == if n == name@ { Some(value@) } else { header_lookup(before, n) } by {
    }
    assert(header_names_unique(v@)) by {
        assert forall|a: int, b: int| 0 <= a < b < v@.len() implies v@[a].0@ != v@[b].0@ by {
            if b == v@.len() - 1 {
                assert(before[a].0@ != name@);
            } else {
                assert(v@[a] == before[a] && v@[b] == before[b]);
            }
        }
    }
}

/// Parses an optional objective duration.
fn parse_objective(t: &Option<String>) -> (res: Result<Option<Duration>, WsBlastError>)
    requires
        t matches Some(x) ==> !human_duration_out_of_range(x@),
    ensures
        match t {
            None => res matches Ok(None),
            Some(x) => if duration_ok(x@) {
                res matches Ok(Some(d)) && human_duration(x@) == Some(d@)
            } else {
                res matches Err(e) && is_invalid_duration_error(e, x@)
            },
        },
{
    match t {
        None => Ok(None),
        Some(x) => match parse_human_duration(x.as_str()) {
            Ok(d) => Ok(Some(d)),
            Err(e) => Err(e),
        },
    }
}

/// Parses every header, keeping per name the value given last.
fn collect_headers(hs: &Vec<String>) -> (res: Result<Vec<(String, String)>, WsBlastError>)
    ensures
        match first_bad_header(hs@) {
            Some(i) => res matches Err(e) && is_header_error(e, hs@[i]@),
            None => res matches Ok(v) && header_names_unique(v@)
                && forall|n: Seq<char>| #[trigger] header_lookup(v@, n) == header_value_for(hs@, n),
        },
{
    let mut v: Vec<(String, String)> = Vec::new();
    let mut i: usize = 0;
    assert(hs@.take(0) =~= Seq::<String>::empty());
    while i < hs.len()
        invariant
            i <= hs.len(),
            first_bad_header(hs@.take(i as int)) is None,
            header_names_unique(v@),
            forall|n: Seq<char>| #[trigger] header_lookup(v@, n) == header_value_for(hs@.take(i as int), n),
        decreases hs.len() - i,
    {
        let ghost prefix = hs@.take(i as int);
        let ghost next = hs@.take(i + 1);
        assert(next.drop_last() =~= prefix);
        assert(next.last() == hs@[i as int]);
        match parse_header_pair(hs[i].as_str()) {
            Ok((name, value)) => {
                insert_header(&mut v, name, value);
                i = i + 1;
            },
            Err(e) => {
                proof {
                    assert(first_bad_header(next) == Some(i as int));
                    lemma_first_bad_header_prefix(hs@, i + 1);
                }
                return Err(e);
            },
        }
    }
    assert(hs@.take(i as int) =~= hs@);
    Ok(v)
}

/// The payload the arguments ask for.
fn build_payload(
    payload_file: Option<String>,
    file: Option<Result<Vec<u8>, std::io::Error>>,
    payload: Option<String>,
    binary: bool,
) -> (res: Result<PayloadConfig, WsBlastError>)
    requires
        file is Some <==> payload_file is Some,
    ensures
        ({
            let cli_file_ok = match payload_file {
                Some(_) => match file {
                    Some(Ok(bytes)) => binary || valid_utf8(bytes@),
                    _ => false,
                },
                None => true,
            };
            if cli_file_ok {
                res matches Ok(p) && match payload_file {
                    Some(_) => match file {
                        Some(Ok(bytes)) => if binary {
                            p matches PayloadConfig::Binary(b) && b@ == bytes@
                        } else {
                            is_text_payload(p, decode_utf8(bytes@))
                        },
                        _ => false,
                    },
                    None => match payload {
                        Some(t) => if binary {
                            p matches PayloadConfig::Binary(b) && b@ == encode_utf8(t@)
                        } else {
                            is_text_payload(p, t@)
                        },
                        None => if binary {
                            p matches PayloadConfig::Binary(b) && b@ == encode_utf8("wsblast-payload"@)
                        } else {
                            is_text_payload(p, default_text_payload())
                        },
                    },
                }
            } else {
                res matches Err(WsBlastError::Config(ConfigError::PayloadFile { path, source }))
                    && path@ == payload_file.unwrap()@ && (file matches Some(Err(e)) ==> source == e)
            }
        }),
{
    match payload_file {
        Some(path) => match file {
            Some(Ok(bytes)) => {
                if binary {
                    Ok(PayloadConfig::Binary(bytes))
                } else {
                    match string_from_utf8(bytes) {
                        Ok(text) => Ok(PayloadConfig::from_text(text)),
                        Err(e) => Err(WsBlastError::Config(ConfigError::PayloadFile {
                            path,
                            source: invalid_data_error(e),
                        })),
                    }
                }
            },
            Some(Err(e)) => Err(WsBlastError::Config(ConfigError::PayloadFile { path, source: e })),
            None => {
                // a named file always comes with its read outcome
                assert(false);
                Ok(PayloadConfig::Binary(Vec::new()))
            },
        },
        None => match payload {
            Some(text) => {
                if binary {
                    Ok(PayloadConfig::Binary(string_into_bytes(text)))
                } else {
                    Ok(PayloadConfig::from_text(text))
                }
            },
            None => {
                if binary {
                    Ok(PayloadConfig::Binary(string_into_bytes(String::from_str("wsblast-payload"))))
                } else {
                    Ok(PayloadConfig::from_text(
                        String::from_str("{\"source\":\"wsblast\",\"ts\":\"{{timestamp}}\",\"seq\":{{seq}}}"),
                    ))
                }
            },
        },
    }
}

impl LoadTestConfig {
    /// Whether the payload file, when one is named, was read and suits the
    /// payload kind (see [`payload_ok`]).
    fn payload_file_ok(cli: &Cli, payload_file: &Option<Result<Vec<u8>, std::io::Error>>) -> (b: bool)
        ensures
            b == payload_ok(*cli, *payload_file),
    {
        match &cli.payload_file {
            None => true,
            Some(_) => match payload_file {
                Some(Ok(bytes)) => {
                    if cli.binary {
                        true
                    } else {
                        let copy = bytes.clone();
                        assert(copy@ =~= bytes@);
                        string_from_utf8(copy).is_ok()
                    }
                },
                _ => false,
            },
        }
    }

    /// Whether every header of `cli` is well formed (see [`headers_ok`]).
    fn headers_well_formed(cli: &Cli) -> (b: bool)
        ensures
            b == headers_ok(*cli),
    {
        let mut i: usize = 0;
        while i < cli.headers.len()
            invariant
                i <= cli.headers@.len(),
                forall|j: int| 0 <= j < i ==> header_pair(#[trigger] cli.headers@[j]@) is Some,
            decreases cli.headers@.len() - i,
        {
            if parse_header_pair(cli.headers[i].as_str()).is_err() {
                return false;
            }
            i = i + 1;
        }
        true
    }

    /// Whether the objective `o` is given as text naming no valid duration
    /// in range (see [`objective_bad`]).
    fn objective_text_bad(o: &Option<String>) -> (b: bool)
        ensures
            b == objective_bad(*o),
    {
        match o {
            Some(t) => !duration_text_ok(t.as_str()),
            None => false,
        }
    }

    /// Whether validating `cli` reaches a duration that [`Duration`] cannot
    /// hold, where [`LoadTestConfig::from_cli`] may not be called (see
    /// [`from_cli_panics`]).
    pub fn from_cli_would_panic(cli: &Cli, payload_file: &Option<Result<Vec<u8>, std::io::Error>>) -> (b: bool)
        ensures
            b == from_cli_panics(*cli, *payload_file),
    {
        let raw = match cli.resolve_url() {
            Some(r) => r,
            None => return false,
        };
        let scheme = match parse_url(raw) {
            Ok((_, sc)) => sc,
            Err(_) => return false,
        };
        if !(str_eq(scheme.as_str(), "ws") || str_eq(scheme.as_str(), "wss")) || cli.connections == 0 {
            return false;
        }
        if !duration_text_ok(cli.duration.as_str()) {
            return duration_text_out_of_range(cli.duration.as_str());
        }
        if !duration_text_ok(cli.connect_timeout.as_str()) {
            return duration_text_out_of_range(cli.connect_timeout.as_str());
        }
        if !duration_text_ok(cli.message_timeout.as_str()) {
            return duration_text_out_of_range(cli.message_timeout.as_str());
        }
        if !duration_text_ok(cli.ping_interval.as_str()) {
            return duration_text_out_of_range(cli.ping_interval.as_str());
        }
        if !Self::payload_file_ok(cli, payload_file) || !Self::headers_well_formed(cli) {
            return false;
        }
        if Self::objective_text_bad(&cli.max_p50) {
            return duration_text_out_of_range(cli.max_p50.as_ref().unwrap().as_str());
        }
        if Self::objective_text_bad(&cli.max_p95) {
            return duration_text_out_of_range(cli.max_p95.as_ref().unwrap().as_str());
        }
        if Self::objective_text_bad(&cli.max_p99) {
            return duration_text_out_of_range(cli.max_p99.as_ref().unwrap().as_str());
        }
        if Self::objective_text_bad(&cli.max_p999) {
            return duration_text_out_of_range(cli.max_p999.as_ref().unwrap().as_str());
        }
        false
    }

    /// Validates `cli` as [`LoadTestConfig::from_cli`] does, or gives `None`
    /// where validation would reach a duration that [`Duration`] cannot hold
    /// (see [`from_cli_panics`]).
    pub fn from_cli_checked(cli: Cli, payload_file: Option<Result<Vec<u8>, std::io::Error>>) -> (res: Option<Result<LoadTestConfig, WsBlastError>>)
        requires
            payload_file is Some <==> cli.payload_file is Some,
        ensures
            res is None <==> from_cli_panics(cli, payload_file),
            res matches Some(r) ==> from_cli_outcome(cli, payload_file, r),
    {
        if Self::from_cli_would_panic(&cli, &payload_file) {
            None
        } else {
            Some(Self::from_cli(cli, payload_file))
        }
    }
}

impl LoadTestConfig {
    /// Validates command-line arguments into a configuration.
    ///
    /// `payload_file` is the outcome of reading the file `cli.payload_file`
    /// names, present exactly when a file is named. Checks run in this order,
    /// the first failure being returned: a target URL is given, parses, and
    /// has a `ws`/`wss` scheme; concurrency is positive; the run durations
    /// parse; the payload file was read (and is UTF-8 for text payloads); the
    /// headers parse; the latency objectives parse; the error-rate objective
    /// is a fraction in `[0, 1]`; the throughput objective is a number.
    pub fn from_cli(cli: Cli, payload_file: Option<Result<Vec<u8>, std::io::Error>>) -> (res: Result<LoadTestConfig, WsBlastError>)
        requires
            payload_file is Some <==> cli.payload_file is Some,
            !from_cli_panics(cli, payload_file),
        ensures
            from_cli_outcome(cli, payload_file, res),
    {
        let ghost c0 = cli;
        let ghost f0 = payload_file;
        let raw = match cli.resolve_url() {
            Some(r) => r.to_owned(),
            None => {
                let msg = String::from_str("No target URL provided. Specify target as argument or --url <URL>");
                return Err(WsBlastError::Config(ConfigError::InvalidUrl(String::new(), msg)));
            },
        };
        let (target_url, scheme) = match parse_url(raw.as_str()) {
            Ok(parsed) => parsed,
            Err(m) => return Err(WsBlastError::Config(ConfigError::InvalidUrl(raw, m))),
        };
        if !(str_eq(scheme.as_str(), "ws") || str_eq(scheme.as_str(), "wss")) {
            return Err(WsBlastError::Config(ConfigError::UnsupportedScheme(scheme)));
        }
        if cli.connections == 0 {
            return Err(WsBlastError::Config(ConfigError::ZeroConcurrency(0)));
        }
        assert(target_ok(c0));
        let Cli {
            url: _,
            url_flag: _,
            connections,
            ramp_rate,
            duration,
            requests,
            rate,
            payload,
            payload_file: payload_path,
            binary,
            headers,
            subprotocol,
            mode,
            connect_timeout,
            message_timeout,
            ping_interval,
            max_p50,
            max_p95,
            max_p99,
            max_p999,
            max_error_rate,
            min_throughput,
            format,
            output_file,
            tui,
            no_progress,
        } = cli;
        let duration = match parse_human_duration(duration.as_str()) {
            Ok(d) => d,
            Err(e) => return Err(e),
        };
        let connect_timeout = match parse_human_duration(connect_timeout.as_str()) {
            Ok(d) => d,
            Err(e) => return Err(e),
        };
        let message_timeout = match parse_human_duration(message_timeout.as_str()) {
            Ok(d) => d,
            Err(e) => return Err(e),
        };
        let ping_interval = match parse_human_duration(ping_interval.as_str()) {
            Ok(d) => d,
            Err(e) => return Err(e),
        };
        assert(first_bad_timing(c0) is None);
        let payload = match build_payload(payload_path, payload_file, payload, binary) {
            Ok(p) => p,
            Err(e) => return Err(e),
        };
        assert(payload_ok(c0, f0));
        let headers = match collect_headers(&headers) {
            Ok(v) => v,
            Err(e) => return Err(e),
        };
        proof {
            lemma_first_bad_header_none(c0.headers@);
        }
        let max_p50 = match parse_objective(&max_p50) {
            Ok(d) => d,
            Err(e) => return Err(e),
        };
        let max_p95 = match parse_objective(&max_p95) {
            Ok(d) => d,
            Err(e) => return Err(e),
        };
        let max_p99 = match parse_objective(&max_p99) {
            Ok(d) => d,
            Err(e) => return Err(e),
        };
        let max_p999 = match parse_objective(&max_p999) {
            Ok(d) => d,
            Err(e) => return Err(e),
        };
        let max_error_rate = match &max_error_rate {
            Some(text) => {
                match Decimal::parse(text.as_str()) {
                    Some(d) if d.is_unit_fraction() => Some(d),
                    _ => {
                        let mut msg: Vec<char> = Vec::new();
                        crate::text::push_str(&mut msg, "max_error_rate must be between 0.0 and 1.0, received ");
                        crate::text::push_str(&mut msg, text.as_str());
                        return Err(WsBlastError::Config(ConfigError::InvalidThreshold(string_of(msg))));
                    },
                }
            },
            None => None,
        };
        let min_throughput = match &min_throughput {
            Some(text) => match Threshold::parse(text.as_str()) {
                Some(d) => Some(d),
                None => {
                    let mut msg: Vec<char> = Vec::new();
                    crate::text::push_str(&mut msg, "min_throughput must be a decimal number, received ");
                    crate::text::push_str(&mut msg, text.as_str());
                    return Err(WsBlastError::Config(ConfigError::InvalidThreshold(string_of(msg))));
                },
            },
            None => None,
        };
        Ok(LoadTestConfig {
            target_url,
            connections,
            ramp_rate,
            duration,
            max_requests: requests,
            rate_per_conn: rate,
            payload,
            headers,
            subprotocol,
            mode,
            connect_timeout,
            message_timeout,
            ping_interval,
            slo: SloThresholds { max_p50, max_p95, max_p99, max_p999, max_error_rate, min_throughput },
            output_format: format,
            output_path: output_file,
            tui,
            no_progress,
        })
    }
}

} // verus!
