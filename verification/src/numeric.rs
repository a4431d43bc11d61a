//! Parsing of numbers written in text: unsigned integers in the syntax of
//! `u64::from_str`, decimal fractions, and whitespace trimming.

use vstd::prelude::*;
use crate::text::{digit_value, is_digit, pow10, pow10_u128, lemma_pow10_mono, round_half_even};
use crate::time::max_nanos;

verus! {

/// Unicode `White_Space` (the property `char::is_whitespace` tests).
pub open spec fn is_white_space(c: char) -> bool {
    ('\u{9}' <= c && c <= '\u{d}') || c == ' ' || c == '\u{85}' || c == '\u{a0}'
        || c == '\u{1680}' || ('\u{2000}' <= c && c <= '\u{200a}') || c == '\u{2028}'
        || c == '\u{2029}' || c == '\u{202f}' || c == '\u{205f}' || c == '\u{3000}'
}

/// `s` without its leading white space.
pub open spec fn trim_start(s: Seq<char>) -> Seq<char>
    decreases s.len(),
{
    if s.len() > 0 && is_white_space(s[0]) {
        trim_start(s.drop_first())
    } else {
        s
    }
}

/// `s` without its trailing white space.
pub open spec fn trim_end(s: Seq<char>) -> Seq<char>
    decreases s.len(),
{
    if s.len() > 0 && is_white_space(s.last()) {
        trim_end(s.drop_last())
    } else {
        s
    }
}

/// `s` without leading and trailing white space (`str::trim`).
pub open spec fn trimmed(s: Seq<char>) -> Seq<char> {
    trim_end(trim_start(s))
}

/// Every character of `d` is an ASCII digit.
pub open spec fn all_digits(d: Seq<char>) -> bool {
    forall|i: int| 0 <= i < d.len() ==> is_digit(#[trigger] d[i])
}

/// The value of the digit string `d` read in base ten (0 for the empty string).
pub open spec fn digits_value(d: Seq<char>) -> nat
    decreases d.len(),
{
    if d.len() == 0 {
        0
    } else {
        10 * digits_value(d.drop_last()) + digit_value(d.last())
    }
}

/// The result of `u64::from_str` on `s`: an optional `+`, then one or more
/// ASCII digits whose value fits in `u64`.
pub open spec fn parse_u64_spec(s: Seq<char>) -> Option<u64> {
    let d = if s.len() > 0 && s[0] == '+' { s.drop_first() } else { s };
    if d.len() > 0 && all_digits(d) && digits_value(d) <= u64::MAX {
        Some(digits_value(d) as u64)
    } else {
        None
    }
}

/// The sign of a number in text and the text after it.
pub open spec fn split_sign(s: Seq<char>) -> (bool, Seq<char>) {
    if s.len() > 0 && s[0] == '-' {
        (true, s.drop_first())
    } else if s.len() > 0 && s[0] == '+' {
        (false, s.drop_first())
    } else {
        (false, s)
    }
}

/// Index of the first `.` in `b`, or `b.len()` when there is none.
pub open spec fn dot_index(b: Seq<char>) -> nat
    decreases b.len(),
{
    if b.len() == 0 {
        0
    } else if b[0] == '.' {
        0
    } else {
        1 + dot_index(b.drop_first())
    }
}

/// `d` without its trailing zeros.
pub open spec fn strip_trailing_zeros(d: Seq<char>) -> Seq<char>
    decreases d.len(),
{
    if d.len() > 0 && d.last() == '0' {
        strip_trailing_zeros(d.drop_last())
    } else {
        d
    }
}

/// A decimal number in text: an optional sign, digits, and optionally a point
/// followed by more digits, with at least one digit in all. The parts are
/// `(negative, integer digits, fraction digits)`.
pub open spec fn decimal_text(s: Seq<char>) -> Option<(bool, Seq<char>, Seq<char>)> {
    let (neg, b) = split_sign(s);
    let k = dot_index(b);
    let ip = b.take(k as int);
    let fp = if k < b.len() { b.skip((k + 1) as int) } else { Seq::<char>::empty() };
    if all_digits(ip) && all_digits(fp) && ip.len() + fp.len() > 0 {
        Some((neg, ip, fp))
    } else {
        None
    }
}

/// One more digit multiplies the value by ten and adds the digit.
pub proof fn lemma_digits_value_step(d: Seq<char>, i: int)
    requires
        0 <= i < d.len(),
    ensures
        digits_value(d.take(i + 1)) == 10 * digits_value(d.take(i)) + digit_value(d[i]),
{
    assert(d.take(i + 1).drop_last() =~= d.take(i));
}

/// A prefix of digits has no larger value.
pub proof fn lemma_digits_value_prefix(d: Seq<char>, i: int)
    requires
        0 <= i <= d.len(),
    ensures
        digits_value(d.take(i)) <= digits_value(d),
    decreases d.len() - i,
{
    if i < d.len() {
        lemma_digits_value_step(d, i);
        lemma_digits_value_prefix(d, i + 1);
    } else {
        assert(d.take(i) =~= d);
    }
}

/// `k` digits have a value below `10^k`.
pub proof fn lemma_digits_value_bound(d: Seq<char>)
    requires
        all_digits(d),
    ensures
        digits_value(d) < pow10(d.len()),
    decreases d.len(),
{
    if d.len() > 0 {
        let p = d.drop_last();
        assert(all_digits(p)) by {
            assert forall|i: int| 0 <= i < p.len() implies is_digit(#[trigger] p[i]) by {
                assert(p[i] == d[i]);
            }
        }
        lemma_digits_value_bound(p);
        assert(is_digit(d[d.len() - 1]));
        assert(digit_value(d.last()) < 10);
    }
}


/// Most significant fraction digits a decimal may carry (trailing zeros aside).
pub const MAX_FRACTION_DIGITS: usize = 25;

/// `mult` seconds times the decimal `ip.fp`, in nanoseconds rounded half to even.
pub open spec fn decimal_nanos(ip: Seq<char>, fp: Seq<char>, mult: nat) -> nat {
    let f = strip_trailing_zeros(fp);
    round_half_even(
        (digits_value(ip) * pow10(f.len()) + digits_value(f)) * mult * 1_000_000_000,
        pow10(f.len()),
    )
}

/// A decimal number of seconds scaled by `mult`: `(negative and nonzero,
/// magnitude in nanoseconds)`, or `None` when `s` is no decimal number or its
/// fraction has more than [`MAX_FRACTION_DIGITS`] significant digits.
pub open spec fn scaled_decimal(s: Seq<char>, mult: nat) -> Option<(bool, nat)> {
    match decimal_text(s) {
        Some((neg, ip, fp)) => {
            let f = strip_trailing_zeros(fp);
            if f.len() > MAX_FRACTION_DIGITS {
                None
            } else {
                let nonzero = digits_value(ip) > 0 || digits_value(f) > 0;
                Some((neg && nonzero, decimal_nanos(ip, fp, mult)))
            }
        },
        None => None,
    }
}

/// The scaled amount cannot become a `Duration`: it is negative or too large.
pub open spec fn scaled_out_of_range(s: Seq<char>, mult: nat) -> bool {
    match scaled_decimal(s, mult) {
        Some((neg, n)) => neg || n > max_nanos(),
        None => false,
    }
}

proof fn lemma_pow10_25()
    ensures
        pow10(25) == 10_000_000_000_000_000_000_000_000,
{
    reveal_with_fuel(pow10, 26);
}

proof fn lemma_round_shift(w: nat, f: nat, d: nat)
    requires
        d > 0,
    ensures
        ({
            let q = f / d;
            let r = f % d;
            round_half_even(w * d + f, d) == if 2 * r > d || (2 * r == d && (w + q) % 2 == 1) {
                w + q + 1
            } else {
                w + q
            }
        }),
        round_half_even(w * d + f, d) >= w,
{
    let q = f / d;
    let r = f % d;
    vstd::arithmetic::div_mod::lemma_fundamental_div_mod(f as int, d as int);
    assert(w * d + f == (w + q) * d + r) by (nonlinear_arith)
        requires f == d * q + r;
    vstd::arithmetic::div_mod::lemma_fundamental_div_mod_converse(
        (w * d + f) as int, d as int, (w + q) as int, r as int);
}

proof fn lemma_strip_step(d: Seq<char>, e: int)
    requires
        0 < e <= d.len(),
        d[e - 1] == '0',
    ensures
        strip_trailing_zeros(d.take(e)) == strip_trailing_zeros(d.take(e - 1)),
{
    assert(d.take(e).drop_last() =~= d.take(e - 1));
}


/// Whether `c` is white space (`char::is_whitespace`).
pub fn is_white_space_char(c: char) -> (b: bool)
    ensures
        b == is_white_space(c),
{
    ('\u{9}' <= c && c <= '\u{d}') || c == ' ' || c == '\u{85}' || c == '\u{a0}'
        || c == '\u{1680}' || ('\u{2000}' <= c && c <= '\u{200a}') || c == '\u{2028}'
        || c == '\u{2029}' || c == '\u{202f}' || c == '\u{205f}' || c == '\u{3000}'
}

/// The characters of `v[lo..hi]`.
pub fn slice_chars(v: &Vec<char>, lo: usize, hi: usize) -> (res: Vec<char>)
    requires
        lo <= hi <= v.len(),
    ensures
        res@ == v@.subrange(lo as int, hi as int),
{
    let mut res: Vec<char> = Vec::new();
    let mut i = lo;
    while i < hi
        invariant
            lo <= i <= hi <= v.len(),
            res@ == v@.subrange(lo as int, i as int),
        decreases hi - i,
    {
        res.push(v[i]);
        i = i + 1;
        assert(res@ =~= v@.subrange(lo as int, i as int));
    }
    res
}

/// `v` without leading and trailing white space (`str::trim`).
pub fn trim_chars(v: &Vec<char>) -> (res: Vec<char>)
    ensures
        res@ == trimmed(v@),
{
    let n = v.len();
    let mut i: usize = 0;
    assert(v@.subrange(0, n as int) =~= v@);
    while i < n && is_white_space_char(v[i])
        invariant
            i <= n == v.len(),
            trim_start(v@) == trim_start(v@.subrange(i as int, n as int)),
        decreases n - i,
    {
        assert(v@.subrange(i as int, n as int).drop_first() =~= v@.subrange(i + 1, n as int));
        i = i + 1;
    }
    assert(trim_start(v@) == v@.subrange(i as int, n as int));
    let ghost front = v@.subrange(i as int, n as int);
    let mut j: usize = n;
    while j > i && is_white_space_char(v[j - 1])
        invariant
            i <= j <= n == v.len(),
            front == v@.subrange(i as int, n as int),
            trim_end(front) == trim_end(v@.subrange(i as int, j as int)),
        decreases j - i,
    {
        assert(v@.subrange(i as int, j as int).drop_last() =~= v@.subrange(i as int, j - 1));
        j = j - 1;
    }
    slice_chars(v, i, j)
}

/// The value of the digits `v[lo..hi]`, or `None` when one of them is not a
/// digit or the value exceeds `u128::MAX`.
pub fn digits_value_u128(v: &Vec<char>, lo: usize, hi: usize) -> (res: Option<u128>)
    requires
        lo <= hi <= v.len(),
    ensures
        match res {
            Some(x) => all_digits(v@.subrange(lo as int, hi as int))
                && x == digits_value(v@.subrange(lo as int, hi as int)),
            None => !all_digits(v@.subrange(lo as int, hi as int))
                || digits_value(v@.subrange(lo as int, hi as int)) > u128::MAX,
        },
{
    let ghost d = v@.subrange(lo as int, hi as int);
    let mut acc: u128 = 0;
    let mut i = lo;
    while i < hi
        invariant
            lo <= i <= hi <= v.len(),
            d == v@.subrange(lo as int, hi as int),
            all_digits(d.take(i - lo)),
            acc == digits_value(d.take(i - lo)),
        decreases hi - i,
    {
        let c = v[i];
        assert(c == d[i - lo]);
        if !('0' <= c && c <= '9') {
            return None;
        }
        let x = (c as u32 - '0' as u32) as u128;
        proof {
            lemma_digits_value_step(d, i - lo);
        }
        if acc > (u128::MAX - x) / 10 {
            proof {
                assert(digits_value(d.take(i - lo + 1)) > u128::MAX);
                lemma_digits_value_prefix(d, i - lo + 1);
            }
            return None;
        }
        acc = acc * 10 + x;
        i = i + 1;
        assert(all_digits(d.take(i - lo))) by {
            assert forall|k: int| 0 <= k < d.take(i - lo).len() implies is_digit(#[trigger] d.take(i - lo)[k]) by {
                if k < i - 1 - lo {
                    assert(d.take(i - lo)[k] == d.take(i - 1 - lo)[k]);
                }
            }
        }
    }
    assert(d.take(hi - lo) =~= d);
    Some(acc)
}

/// `u64::from_str` on the characters `v[lo..hi]`.
pub fn parse_u64_chars(v: &Vec<char>, lo: usize, hi: usize) -> (res: Option<u64>)
    requires
        lo <= hi <= v.len(),
    ensures
        res == parse_u64_spec(v@.subrange(lo as int, hi as int)),
{
    let ghost s = v@.subrange(lo as int, hi as int);
    let start = if lo < hi && v[lo] == '+' { lo + 1 } else { lo };
    proof {
        if lo < hi && v@[lo as int] == '+' {
            assert(s.drop_first() =~= v@.subrange(start as int, hi as int));
        } else {
            assert(s =~= v@.subrange(start as int, hi as int));
        }
    }
    if start == hi {
        return None;
    }
    match digits_value_u128(v, start, hi) {
        Some(x) => {
            if x <= u64::MAX as u128 {
                Some(x as u64)
            } else {
                None
            }
        },
        None => None,
    }
}

/// Whether every character of `v[lo..hi]` is an ASCII digit.
pub fn all_digits_range(v: &Vec<char>, lo: usize, hi: usize) -> (b: bool)
    requires
        lo <= hi <= v.len(),
    ensures
        b == all_digits(v@.subrange(lo as int, hi as int)),
{
    let mut i = lo;
    while i < hi
        invariant
            lo <= i <= hi <= v.len(),
            forall|k: int| lo <= k < i ==> is_digit(#[trigger] v@[k]),
        decreases hi - i,
    {
        if !('0' <= v[i] && v[i] <= '9') {
            assert(!is_digit(v@.subrange(lo as int, hi as int)[i - lo]));
            return false;
        }
        i = i + 1;
    }
    assert forall|k: int| 0 <= k < v@.subrange(lo as int, hi as int).len()
        implies is_digit(#[trigger] v@.subrange(lo as int, hi as int)[k]) by {
        assert(v@.subrange(lo as int, hi as int)[k] == v@[lo + k]);
    }
    true
}

/// Where the parts of the decimal number `v[lo..hi]` lie: `(negative, start
/// of the integer digits, end of the integer digits, start of the fraction
/// digits, end of the fraction digits without trailing zeros)`.
pub fn decimal_layout(v: &Vec<char>, lo: usize, hi: usize) -> (res: Option<(bool, usize, usize, usize, usize)>)
    requires
        lo <= hi <= v.len(),
    ensures
        match res {
            Some((neg, p, k, fs, e)) => {
                &&& lo <= p <= k <= fs <= e <= hi
                &&& decimal_text(v@.subrange(lo as int, hi as int)) == Some((
                    neg,
                    v@.subrange(p as int, k as int),
                    v@.subrange(fs as int, hi as int),
                ))
                &&& strip_trailing_zeros(v@.subrange(fs as int, hi as int)) == v@.subrange(fs as int, e as int)
            },
            None => decimal_text(v@.subrange(lo as int, hi as int)) is None,
        },
{
    let ghost s = v@.subrange(lo as int, hi as int);
    let mut p = lo;
    let mut neg = false;
    if lo < hi && v[lo] == '-' {
        neg = true;
        p = lo + 1;
    } else if lo < hi && v[lo] == '+' {
        p = lo + 1;
    }
    let ghost b = v@.subrange(p as int, hi as int);
    assert(split_sign(s) == (neg, b)) by {
        if lo < hi && (v@[lo as int] == '-' || v@[lo as int] == '+') {
            assert(s.drop_first() =~= b);
        } else {
            assert(s =~= b);
        }
    }
    let mut k = p;
    while k < hi && v[k] != '.'
        invariant
            p <= k <= hi <= v.len(),
            b == v@.subrange(p as int, hi as int),
            dot_index(b) == (k - p) + dot_index(v@.subrange(k as int, hi as int)),
        decreases hi - k,
    {
        assert(v@.subrange(k as int, hi as int).drop_first() =~= v@.subrange(k + 1, hi as int));
        k = k + 1;
    }
    assert(dot_index(b) == k - p);
    let ghost ip = b.take((k - p) as int);
    assert(ip =~= v@.subrange(p as int, k as int));
    let fstart = if k < hi { k + 1 } else { hi };
    let ghost fp = v@.subrange(fstart as int, hi as int);
    assert(fp =~= (if dot_index(b) < b.len() { b.skip((dot_index(b) + 1) as int) } else { Seq::<char>::empty() }));
    if !all_digits_range(v, p, k) || !all_digits_range(v, fstart, hi) || (k - p) + (hi - fstart) == 0 {
        return None;
    }
    let mut e = hi;
    assert(fp.take((e - fstart) as int) =~= fp);
    while e > fstart && v[e - 1] == '0'
        invariant
            fstart <= e <= hi <= v.len(),
            fp == v@.subrange(fstart as int, hi as int),
            strip_trailing_zeros(fp) == strip_trailing_zeros(fp.take((e - fstart) as int)),
        decreases e - fstart,
    {
        proof {
            lemma_strip_step(fp, (e - fstart) as int);
        }
        e = e - 1;
    }
    let ghost f = fp.take((e - fstart) as int);
    assert(f =~= v@.subrange(fstart as int, e as int));
    assert(strip_trailing_zeros(f) == f) by {
        if f.len() > 0 {
            assert(f.last() == v@[e - 1]);
        }
    }
    Some((neg, p, k, fstart, e))
}

proof fn lemma_scaled_fraction_bound(a: nat, mult: nat)
    requires
        a < 10_000_000_000_000_000_000_000_000,
        mult <= 3600,
    ensures
        a * (mult * 1_000_000_000) < 10_000_000_000_000_000_000_000_000 * 3_600_000_000_000,
{
    assert(a * (mult * 1_000_000_000) <= a * 3_600_000_000_000) by (nonlinear_arith)
        requires mult <= 3600;
    assert(a * 3_600_000_000_000 < 10_000_000_000_000_000_000_000_000 * 3_600_000_000_000) by (nonlinear_arith)
        requires a < 10_000_000_000_000_000_000_000_000;
}

proof fn lemma_scaled_nanos(iv: nat, an: nat, dn: nat, mult: nat)
    requires
        dn > 0,
        mult >= 1,
    ensures
        ({
            let m9 = mult * 1_000_000_000;
            let frac = an * m9;
            let q = frac / dn;
            let r = frac % dn;
            &&& round_half_even((iv * dn + an) * mult * 1_000_000_000, dn) == if 2 * r > dn || (2 * r == dn && (iv * m9 + q) % 2 == 1) {
                iv * m9 + q + 1
            } else {
                iv * m9 + q
            }
            &&& round_half_even((iv * dn + an) * mult * 1_000_000_000, dn) >= iv * m9
            &&& iv * m9 >= iv
            &&& q <= frac
        }),
{
    let m9 = mult * 1_000_000_000;
    assert((iv * dn + an) * mult * 1_000_000_000 == (iv * m9) * dn + an * m9) by (nonlinear_arith)
        requires m9 == mult * 1_000_000_000;
    lemma_round_shift(iv * m9, an * m9, dn);
    assert(iv * m9 >= iv) by (nonlinear_arith) requires m9 >= 1;
    assert((an * m9) / dn <= an * m9) by (nonlinear_arith) requires dn >= 1;
}

/// The decimal number `v[lo..hi]` times `mult` seconds, in nanoseconds
/// (see [`scaled_decimal`]); `None` when it is no decimal number or carries
/// too many fraction digits.
pub fn parse_scaled_decimal(v: &Vec<char>, lo: usize, hi: usize, mult: u128) -> (res: Option<u128>)
    requires
        lo <= hi <= v.len(),
        1 <= mult <= 3600,
        !scaled_out_of_range(v@.subrange(lo as int, hi as int), mult as nat),
    ensures
        match scaled_decimal(v@.subrange(lo as int, hi as int), mult as nat) {
            Some((_, n)) => res == Some(n as u128),
            None => res is None,
        },
{
    match scaled_decimal_checked(v, lo, hi, mult) {
        Some((_, o)) => o,
        None => None,
    }
}

/// Largest number of nanoseconds a duration holds (see [`max_nanos`]).
pub const MAX_DURATION_NANOS: u128 = 18_446_744_073_709_551_615_999_999_999;

/// The decimal number `v[lo..hi]` times `mult` seconds (see
/// [`scaled_decimal`]), for any size of number: `None` when it is no decimal
/// number or carries too many fraction digits; otherwise whether it is
/// negative and nonzero, and its nanoseconds when they are at most
/// [`max_nanos`].
pub fn scaled_decimal_checked(v: &Vec<char>, lo: usize, hi: usize, mult: u128) -> (res: Option<(bool, Option<u128>)>)
    requires
        lo <= hi <= v.len(),
        1 <= mult <= 3600,
    ensures
        match scaled_decimal(v@.subrange(lo as int, hi as int), mult as nat) {
            Some((neg, n)) => res matches Some((b, o)) && b == neg
                && (if n <= max_nanos() { o == Some(n as u128) } else { o is None }),
            None => res is None,
        },
{
    let (neg, p, k, fstart, e) = match decimal_layout(v, lo, hi) {
        Some(layout) => layout,
        None => return None,
    };
    let ghost s = v@.subrange(lo as int, hi as int);
    let ghost ip = v@.subrange(p as int, k as int);
    let ghost fp = v@.subrange(fstart as int, hi as int);
    let ghost f = v@.subrange(fstart as int, e as int);
    if e - fstart > MAX_FRACTION_DIGITS {
        return None;
    }
    proof {
        assert(all_digits(f)) by {
            assert forall|i: int| 0 <= i < f.len() implies is_digit(#[trigger] f[i]) by {
                assert(f[i] == fp[i]);
            }
        }
        lemma_digits_value_bound(f);
        lemma_pow10_mono(f.len(), 25);
        lemma_pow10_25();
        assert(MAX_DURATION_NANOS == max_nanos());
    }
    let a = match digits_value_u128(v, fstart, e) {
        Some(x) => x,
        None => {
            assert(false);
            0
        },
    };
    let den = pow10_u128((e - fstart) as u32);
    let ghost iv: nat = digits_value(ip);
    let ghost n: nat = decimal_nanos(ip, fp, mult as nat);
    proof {
        lemma_scaled_nanos(iv, a as nat, den as nat, mult as nat);
        lemma_scaled_fraction_bound(a as nat, mult as nat);
        assert(n >= iv * (mult * 1_000_000_000));
        assert(iv * (mult * 1_000_000_000) >= iv * 1_000_000_000) by (nonlinear_arith)
            requires mult >= 1;
    }
    let whole = match digits_value_u128(v, p, k) {
        Some(x) => x,
        None => {
            // more integer digits than `u128` holds: far beyond the range
            return Some((neg, None));
        },
    };
    let nonzero = whole > 0 || a > 0;
    if whole > 18_446_744_073_709_551_616 {
        proof {
            assert(iv * 1_000_000_000 > max_nanos()) by (nonlinear_arith)
                requires iv > 18_446_744_073_709_551_616nat;
        }
        return Some((neg && nonzero, None));
    }
    proof {
        assert(whole * (mult * 1_000_000_000) <= 18_446_744_073_709_551_616 * 3_600_000_000_000) by (nonlinear_arith)
            requires whole <= 18_446_744_073_709_551_616u128, mult <= 3600;
        assert((a * (mult * 1_000_000_000)) / (den as int) < mult * 1_000_000_000) by (nonlinear_arith)
            requires a < den, den > 0, mult >= 1;
    }
    let m9 = mult * 1_000_000_000;
    let frac = a * m9;
    let q = frac / den;
    let r = frac % den;
    let base = whole * m9 + q;
    let total = if r > den - r || (r == den - r && base % 2 == 1) { base + 1 } else { base };
    assert(total == n);
    if total > MAX_DURATION_NANOS {
        Some((neg && nonzero, None))
    } else {
        Some((neg && nonzero, Some(total)))
    }
}

} // verus!
