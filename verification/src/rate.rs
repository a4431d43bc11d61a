//! Rates computed as 64-bit floats compute them: an elapsed time taken in
//! seconds (`Duration::as_secs_f64`), a count divided by it, and the
//! quotient rendered with a fixed number of decimals or compared with a
//! threshold.  Values are held exactly, as a significand and a power of two.

use vstd::prelude::*;
use crate::binary64::{
    binary64_div, binary64_of_int, binary64_of_u64, binary64_quotient_of, division_shift,
    lemma_binary64_of_int_bound, lemma_binary64_of_int_close, lemma_binary64_of_int_positive,
    lemma_pow2_add, lemma_pow2_mono, lemma_pow2_positive, lemma_pow2_values, pow2,
};
use crate::text::{round_half_even, round_half_even_u128};

verus! {

/// `floor(log2 n)` for `n >= 1`.
pub open spec fn log2_floor(n: nat) -> nat
    decreases n,
{
    if n < 2 {
        0
    } else {
        1 + log2_floor(n / 2)
    }
}

/// `n` lies between `2^log2_floor(n)` and the next power of two.
pub proof fn lemma_log2_floor(n: nat)
    requires
        n >= 1,
    ensures
        pow2(log2_floor(n)) <= n < pow2(log2_floor(n) + 1),
    decreases n,
{
    if n >= 2 {
        lemma_log2_floor(n / 2);
        let l = log2_floor(n / 2);
        assert(pow2(l + 1) == 2 * pow2(l));
        assert(pow2(l + 2) == 2 * pow2(l + 1));
    } else {
        assert(pow2(1) == 2) by {
            reveal_with_fuel(pow2, 2);
        }
    }
}

/// The exponent `e` with `2^e <= n < 2^(e+1)` is `log2_floor(n)`.
pub proof fn lemma_log2_floor_unique(n: nat, e: nat)
    requires
        pow2(e) <= n < pow2(e + 1),
    ensures
        log2_floor(n) == e,
{
    lemma_pow2_positive(e);
    lemma_log2_floor(n);
    let l = log2_floor(n);
    if l < e {
        lemma_pow2_mono(l + 1, e);
    } else if l > e {
        lemma_pow2_mono(e + 1, l);
    }
}

/// `floor(log2 n)` and `2^floor(log2 n)`, for `1 <= n <= 2^64`.
fn log2_floor_of(n: u128) -> (r: (u32, u128))
    requires
        1 <= n <= 0x1_0000_0000_0000_0000,
    ensures
        r.0 == log2_floor(n as nat),
        r.1 == pow2(r.0 as nat),
        r.0 <= 64,
{
    let mut e: u32 = 0;
    let mut p: u128 = 1;
    proof {
        lemma_pow2_values();
    }
    while p <= n / 2
        invariant
            1 <= n <= 0x1_0000_0000_0000_0000,
            p == pow2(e as nat),
            1 <= p <= n,
            e <= 64,
            pow2(64) == 0x1_0000_0000_0000_0000,
        decreases n - p,
    {
        proof {
            assert(pow2((e + 1) as nat) == 2 * pow2(e as nat));
            if e == 64 {
                assert(false);
            }
            if e < 64 {
                lemma_pow2_mono((e + 1) as nat, 64);
            }
        }
        e = e + 1;
        p = p * 2;
    }
    proof {
        assert(pow2((e + 1) as nat) == 2 * pow2(e as nat));
        lemma_log2_floor_unique(n as nat, e as nat);
    }
    (e, p)
}

/// A positive binary64 value held as `(significand, shift)`, meaning
/// `significand / 2^shift` (a negative shift multiplies), with the
/// significand between `2^52` and `2^53`; `(0, 0)` is zero.
pub open spec fn normal_or_zero(v: (nat, int)) -> bool {
    v.0 == 0 || pow2(52) <= v.0 <= pow2(53)
}

/// The seconds in `nanos` nanoseconds as `Duration::as_secs_f64` computes
/// them: the whole seconds converted to binary64, the remaining
/// nanoseconds divided by `1e9` in binary64, and the two added, the sum
/// rounded to the nearest binary64 value (ties to even).  The sum lies in
/// the binade of the whole seconds, so it is rounded at that binade's
/// precision.
pub open spec fn secs_f64(nanos: nat) -> (nat, int) {
    let secs = nanos / 1_000_000_000;
    let sub = nanos % 1_000_000_000;
    let a = binary64_of_int(secs);
    let q = if sub == 0 { (0nat, 53nat) } else { binary64_div(sub, 1_000_000_000) };
    if a == 0 {
        if sub == 0 { (0, 0) } else { (q.0, q.1 as int) }
    } else {
        let u: int = 52 - log2_floor(a);
        (round_half_even(a * pow2(q.1) + q.0, pow2((q.1 - u) as nat)), u)
    }
}

/// Rounding `k * d + x` to a multiple of `d` takes `k` whole steps and
/// rounds the rest, the tie going to the even result.
proof fn lemma_round_split(k: nat, d: nat, x: nat)
    requires
        d > 0,
    ensures
        ({
            let base = k + x / d;
            let r = x % d;
            round_half_even(k * d + x, d) == if 2 * r > d || (2 * r == d && base % 2 == 1) { base + 1 } else { base }
        }),
{
    let q = x / d;
    let r = x % d;
    vstd::arithmetic::div_mod::lemma_fundamental_div_mod(x as int, d as int);
    assert(k * d + x == (k + q) * d + r) by (nonlinear_arith)
        requires x == d * q + r;
    vstd::arithmetic::div_mod::lemma_fundamental_div_mod_converse((k * d + x) as int, d as int, (k + q) as int, r as int);
}

/// `2^k` as a machine integer.
pub fn pow2_u128(k: u32) -> (p: u128)
    requires
        k <= 127,
    ensures
        p == pow2(k as nat),
{
    let mut i: u32 = 0;
    let mut p: u128 = 1;
    while i < k
        invariant
            i <= k <= 127,
            p == pow2(i as nat),
        decreases k - i,
    {
        proof {
            lemma_pow2_mono((i + 1) as nat, 127);
            assert(pow2(127) < 0x1_0000_0000_0000_0000_0000_0000_0000_0000) by {
                lemma_pow2_add(64, 63);
                lemma_pow2_values();
                assert(pow2(63) * 2 == pow2(64));
            }
        }
        p = p * 2;
        i = i + 1;
    }
    p
}

/// The remaining nanoseconds of a second, divided by `1e9` in binary64,
/// take a scale between 52 and 82 and a significand no larger than `2^scale`.
proof fn lemma_subsecond_quotient(sub: nat)
    requires
        1 <= sub < 1_000_000_000,
    ensures
        52 <= binary64_div(sub, 1_000_000_000).1 <= 82,
        binary64_div(sub, 1_000_000_000).0 <= pow2(binary64_div(sub, 1_000_000_000).1),
{
    lemma_pow2_values();
    let s = division_shift(sub, 1_000_000_000, 0);
    crate::binary64::lemma_division_shift_found(sub, 1_000_000_000, 0);
    assert(pow2(30) == 0x4000_0000) by {
        reveal_with_fuel(pow2, 31);
    }
    lemma_pow2_add(52, 30);
    assert(sub * pow2(82) >= 1_000_000_000 * pow2(52)) by (nonlinear_arith)
        requires sub >= 1, pow2(82) == pow2(52) * pow2(30), pow2(30) == 0x4000_0000, pow2(52) > 0;
    crate::binary64::lemma_division_shift_least(sub, 1_000_000_000, 0, 82);
    lemma_pow2_positive(s);
    assert(sub * pow2(s) <= pow2(s) * 1_000_000_000) by (nonlinear_arith)
        requires sub < 1_000_000_000, pow2(s) >= 1;
    crate::binary64::lemma_round_at_most(sub * pow2(s), 1_000_000_000, pow2(s));
    let m = round_half_even(sub * pow2(s), 1_000_000_000);
    assert(sub * pow2(s) >= 1_000_000_000 * pow2(52));
    assert(sub * pow2(s) >= pow2(52) * 1_000_000_000) by (nonlinear_arith)
        requires sub * pow2(s) >= 1_000_000_000 * pow2(52);
    crate::binary64::lemma_round_at_least(sub * pow2(s), 1_000_000_000, pow2(52));
    if s < 52 {
        lemma_pow2_mono(s, 51);
        assert(pow2(52) == 2 * pow2(51));
        lemma_pow2_positive(51);
    }
}

/// [`secs_f64`] of `nanos`, as `(significand, shift)`.
#[verifier::rlimit(60)]
pub fn secs_f64_of(nanos: u128) -> (r: (u128, i32))
    requires
        nanos <= crate::time::max_nanos(),
    ensures
        (r.0 as nat, r.1 as int) == secs_f64(nanos as nat),
        normal_or_zero((r.0 as nat, r.1 as int)),
        -12 <= r.1 <= 82,
        r.0 == 0 <==> nanos == 0,
{
    proof {
        lemma_pow2_values();
    }
    let secs = nanos / 1_000_000_000;
    let sub = nanos % 1_000_000_000;
    let a = binary64_of_u64(secs as u64);
    let ghost q = if sub == 0 { (0nat, 53nat) } else { binary64_div(sub as nat, 1_000_000_000) };
    let (mq, sq): (u128, u32) = if sub == 0 {
        (0, 53)
    } else {
        proof {
            lemma_binary64_of_int_close(sub as nat);
            lemma_binary64_of_int_close(1_000_000_000);
            lemma_subsecond_quotient(sub as nat);
        }
        let (m, _p, s) = binary64_quotient_of(sub, 1_000_000_000);
        (m, s)
    };
    assert(mq == q.0 && sq == q.1);
    assert(52 <= sq <= 82 && mq <= pow2(sq as nat) && mq <= pow2(53)) by {
        if sub == 0 {
            lemma_pow2_positive(53);
        } else {
            lemma_subsecond_quotient(sub as nat);
        }
    }
    proof {
        lemma_binary64_of_int_bound(secs as nat);
        if secs >= 1 {
            lemma_binary64_of_int_positive(secs as nat);
        }
    }
    if a == 0 {
        proof {
            if secs >= 1 {
                assert(false);
            }
        }
        if sub == 0 {
            return (0, 0);
        }
        proof {
            lemma_subsecond_quotient(sub as nat);
        }
        return (mq, sq as i32);
    }
    let (e, pe) = log2_floor_of(a);
    proof {
        lemma_log2_floor(a as nat);
        assert(pow2((e + 1) as nat) == 2 * pow2(e as nat));
    }
    let ghost u: int = 52 - e;
    let ghost d_exp: nat = (sq - u) as nat;
    let (k, x, d): (u128, u128, u128) = if e <= 52 {
        let pu = pow2_u128(52 - e);
        let d = pow2_u128(sq - (52 - e));
        proof {
            lemma_pow2_add(e as nat, (52 - e) as nat);
            lemma_pow2_positive((52 - e) as nat);
            assert(a * pu < pow2(53)) by (nonlinear_arith)
                requires a < 2 * pe, pe * pu == pow2(52), pow2(53) == 2 * pow2(52), pu > 0;
            assert(a * pu >= pow2(52)) by (nonlinear_arith)
                requires a >= pe, pe * pu == pow2(52), pu > 0;
            lemma_pow2_add((52 - e) as nat, (sq - (52 - e)) as nat);
            assert(a * pow2(sq as nat) == (a * pu) * d) by (nonlinear_arith)
                requires pu * d == pow2(sq as nat);
        }
        (a * pu, mq, d)
    } else {
        let v = e - 52;
        let pv = pow2_u128(v);
        let psq = pow2_u128(sq);
        let d = pow2_u128(sq + v);
        proof {
            lemma_pow2_add(sq as nat, v as nat);
            lemma_pow2_positive(v as nat);
            lemma_pow2_mono(v as nat, 12);
            assert(pow2(12) == 4096) by { reveal_with_fuel(pow2, 13); }
            lemma_pow2_mono(sq as nat, 82);
            assert(pow2(82) < 0x1_0000_0000_0000_0000_0000_0000) by {
                lemma_pow2_add(64, 18);
                assert(pow2(18) == 0x4_0000) by { reveal_with_fuel(pow2, 19); }
            }
            assert((a % pv) * psq < 0x1_0000_0000_0000_0000_0000_0000_0000) by (nonlinear_arith)
                requires a % pv < pv, pv <= 4096, psq < 0x1_0000_0000_0000_0000_0000_0000;
            vstd::arithmetic::div_mod::lemma_fundamental_div_mod(a as int, pv as int);
            assert(a * psq == (a / pv) * d + (a % pv) * psq) by (nonlinear_arith)
                requires a == pv * (a / pv) + a % pv, d == psq * pv;
            lemma_pow2_add(52, v as nat);
            assert(a / pv >= pow2(52)) by (nonlinear_arith)
                requires a >= pe, pe == pow2(52) * pv, pv > 0, a == pv * (a / pv) + a % pv, a % pv < pv;
        }
        (a / pv, (a % pv) * pow2_u128(sq) + mq, d)
    };
    assert(k * d + x == a * pow2(sq as nat) + mq);
    assert(d == pow2(d_exp));
    assert(k >= pow2(52));
    proof {
        lemma_pow2_positive(d_exp);
        lemma_round_split(k as nat, d as nat, x as nat);
        lemma_pow2_add(53, d_exp);
        lemma_pow2_add((e + 1) as nat, sq as nat);
        assert(53 + d_exp == e + 1 + sq);
        assert(k * d + x <= pow2(53) * d) by (nonlinear_arith)
            requires k * d + x == a * pow2(sq as nat) + mq, mq <= pow2(sq as nat), a + 1 <= 2 * pe,
                2 * pe == pow2((e + 1) as nat), pow2(53) * d == pow2((e + 1) as nat) * pow2(sq as nat);
        crate::binary64::lemma_round_at_most((k * d + x) as nat, d as nat, pow2(53));
        assert(k * d + x >= k * d) by (nonlinear_arith);
        crate::binary64::lemma_round_at_least((k * d + x) as nat, d as nat, k as nat);
    }
    let base = k + x / d;
    let rem = x % d;
    let m = if rem > d - rem || (rem == d - rem && base % 2 == 1) { base + 1 } else { base };
    (m, (52 - e as i32))
}

/// `0.0001` as binary64: the least time, in seconds, reports divide by.
pub open spec fn min_window() -> (nat, int) {
    (binary64_div(1, 10_000).0, binary64_div(1, 10_000).1 as int)
}

/// The binary64 value `t` is at most `0.0001` (a value with a negative
/// shift is at least `2^52`, far above it).
pub open spec fn at_most_min_window(t: (nat, int)) -> bool {
    t.1 >= 0 && crate::ratio::frac_le(t.0, pow2(t.1 as nat), min_window().0, pow2(min_window().1 as nat))
}

/// The elapsed time reports divide by: `as_secs_f64` of `nanos`, and at
/// least `0.0001` (the larger of the two binary64 values).
pub open spec fn report_window(nanos: nat) -> (nat, int) {
    if at_most_min_window(secs_f64(nanos)) { min_window() } else { secs_f64(nanos) }
}

/// `count` divided by the positive binary64 value `t`, in binary64: the
/// count converted to binary64, then divided, the quotient rounded to the
/// nearest binary64 value (ties to even).  Dividing by `m / 2^s` is
/// dividing by `m` and scaling by `2^s`, which binary64 does exactly.
pub open spec fn binary64_rate(count: nat, t: (nat, int)) -> (nat, int) {
    if count == 0 {
        (0, 0)
    } else {
        let r = binary64_of_int(count);
        let k = division_shift(r, t.0, 0);
        (round_half_even(r * pow2(k), t.0), k - t.1)
    }
}

/// `count` per second over `nanos` nanoseconds as reports compute it in
/// binary64: the count over [`report_window`].
pub open spec fn report_rate(count: nat, nanos: nat) -> (nat, int) {
    binary64_rate(count, report_window(nanos))
}

/// `count` per second over `nanos` nanoseconds as the live dashboard
/// computes it in binary64 (count over `as_secs_f64`); zero before any
/// time has passed.
pub open spec fn live_rate(count: nat, nanos: nat) -> (nat, int) {
    if nanos == 0 { (0, 0) } else { binary64_rate(count, secs_f64(nanos)) }
}

/// The binary64 value `v` with `places` digits after the point, the last
/// digit rounded half to even (as `{:.places}` writes a float).
pub open spec fn b64_fixed(v: (nat, int), places: nat) -> Seq<char> {
    if v.1 >= 0 {
        crate::text::fixed_point(v.0, pow2(v.1 as nat), places)
    } else {
        crate::text::fixed_point(v.0 * pow2((-v.1) as nat), 1, places)
    }
}

/// The decimal `d` read as binary64 (nearest, ties to even) is at most the
/// binary64 value `t` (zero, or with a significand between `2^52` and
/// `2^53`): `d` is negative, or `t` is zero and so is `d`, or `d` lies
/// below the midpoint between `t` and the next binary64 value up, or on it
/// when a tie there rounds down to `t` (an even significand).
pub open spec fn decimal_rounds_to_at_most(d: (bool, nat, nat), t: (nat, int)) -> bool {
    if d.0 {
        true
    } else if t.0 == 0 {
        d.1 == 0
    } else {
        let m: nat = if t.0 == pow2(53) { pow2(52) } else { t.0 };
        let s: int = if t.0 == pow2(53) { t.1 - 1 } else { t.1 };
        let e: int = s + 1;
        let mn: nat = if e >= 0 { (2 * m + 1) as nat } else { ((2 * m + 1) * pow2((-e) as nat)) as nat };
        let md: nat = if e >= 0 { pow2(e as nat) } else { 1 };
        if m % 2 == 0 {
            crate::ratio::frac_le(d.1, crate::text::pow10(d.2), mn, md)
        } else {
            !crate::ratio::frac_le(mn, md, d.1, crate::text::pow10(d.2))
        }
    }
}

/// [`binary64_rate`] of `count` over `t`.
pub fn binary64_rate_of(count: u64, t: (u128, i32)) -> (r: (u128, i32))
    requires
        pow2(52) <= t.0 <= pow2(53),
        -12 <= t.1 <= 82,
    ensures
        (r.0 as nat, r.1 as int) == binary64_rate(count as nat, (t.0 as nat, t.1 as int)),
        normal_or_zero((r.0 as nat, r.1 as int)),
        -42 <= r.1 <= 118,
{
    proof {
        lemma_pow2_values();
    }
    if count == 0 {
        return (0, 0);
    }
    let a = binary64_of_u64(count);
    proof {
        lemma_binary64_of_int_bound(count as nat);
        lemma_binary64_of_int_positive(count as nat);
    }
    let b = t.0;
    let top: u128 = b * 0x10_0000_0000_0000;
    let mut s: u32 = 0;
    let mut p: u128 = 1;
    proof {
        assert(a * p <= 2 * top) by (nonlinear_arith)
            requires a <= 0x1_0000_0000_0000_0000, p == 1, top == b * 0x10_0000_0000_0000, b >= 0x10_0000_0000_0000;
    }
    while s < 116 && a * p < top
        invariant
            s <= 116,
            p == pow2(s as nat),
            1 <= a <= 0x1_0000_0000_0000_0000,
            0x10_0000_0000_0000 <= b <= 0x20_0000_0000_0000,
            top == b * pow2(52),
            pow2(52) == 0x10_0000_0000_0000,
            a * p <= 2 * top,
            division_shift(a as nat, b as nat, 0) == division_shift(a as nat, b as nat, s as nat),
        decreases 116 - s,
    {
        proof {
            reveal_with_fuel(pow2, 2);
            assert(a * (p * 2) == 2 * (a * p)) by (nonlinear_arith);
            assert(p <= a * p) by (nonlinear_arith) requires a >= 1;
        }
        s = s + 1;
        p = p * 2;
    }
    proof {
        assert(division_shift(a as nat, b as nat, s as nat) == s as nat);
        crate::binary64::lemma_division_shift_found(a as nat, b as nat, 0);
        assert(a * p <= 0x20_0000_0000_0000 * b) by (nonlinear_arith)
            requires a * p <= 2 * top, top == b * 0x10_0000_0000_0000;
        crate::binary64::lemma_round_at_most((a * p) as nat, b as nat, 0x20_0000_0000_0000);
        assert(a * p >= 0x10_0000_0000_0000 * b) by (nonlinear_arith)
            requires a * p >= b * 0x10_0000_0000_0000;
        crate::binary64::lemma_round_at_least((a * p) as nat, b as nat, 0x10_0000_0000_0000);
        // the scale lies between 40 and 105
        lemma_pow2_add(64, 39);
        lemma_pow2_add(52, 52);
        lemma_pow2_positive(39);
        assert(pow2(104) == 2 * pow2(103));
        assert(a * pow2(39) <= pow2(64) * pow2(39)) by (nonlinear_arith)
            requires a <= pow2(64), pow2(39) > 0;
        assert(pow2(52) * pow2(52) <= b * pow2(52)) by (nonlinear_arith)
            requires b >= pow2(52), pow2(52) > 0;
        assert(pow2(103) > 0) by { lemma_pow2_positive(103); }
        assert(a * pow2(39) < b * pow2(52));
        crate::binary64::lemma_division_shift_above(a as nat, b as nat, 0, 39);
        lemma_pow2_add(53, 52);
        assert(a * pow2(105) >= b * pow2(52)) by (nonlinear_arith)
            requires a >= 1, b <= pow2(53), pow2(105) == pow2(53) * pow2(52), pow2(52) > 0;
        crate::binary64::lemma_division_shift_least(a as nat, b as nat, 0, 105);
        assert(pow2(53) == 2 * pow2(52));
    }
    let m = round_half_even_u128(a * p, b);
    (m, (s as i32) - t.1)
}

/// `0.0001` as binary64 (see [`min_window`]).
fn min_window_of() -> (r: (u128, i32))
    ensures
        (r.0 as nat, r.1 as int) == min_window(),
        pow2(52) <= r.0 <= pow2(53),
        0 <= r.1 <= 66,
{
    proof {
        lemma_pow2_values();
        lemma_binary64_of_int_close(1);
        lemma_binary64_of_int_close(10_000);
        assert(pow2(14) == 16384) by { reveal_with_fuel(pow2, 15); }
        lemma_pow2_add(52, 14);
        assert(1 * pow2(66) >= 10_000 * pow2(52)) by (nonlinear_arith)
            requires pow2(66) == pow2(52) * pow2(14), pow2(14) == 16384, pow2(52) > 0;
        crate::binary64::lemma_division_shift_least(1, 10_000, 0, 66);
    }
    let (m, _p, s) = binary64_quotient_of(1, 10_000);
    (m, s as i32)
}

/// [`report_window`] of `nanos`.
fn report_window_of(nanos: u128) -> (r: (u128, i32))
    requires
        nanos <= crate::time::max_nanos(),
    ensures
        (r.0 as nat, r.1 as int) == report_window(nanos as nat),
        pow2(52) <= r.0 <= pow2(53),
        -12 <= r.1 <= 82,
{
    let t = secs_f64_of(nanos);
    let c = min_window_of();
    proof {
        lemma_pow2_values();
        lemma_pow2_positive(c.1 as nat);
    }
    let small = if t.1 >= 0 {
        proof {
            lemma_pow2_mono(t.1 as nat, 82);
            lemma_pow2_mono(c.1 as nat, 82);
            assert(pow2(82) < 0x1_0000_0000_0000_0000_0000_0000) by {
                lemma_pow2_add(64, 18);
                assert(pow2(18) == 0x4_0000) by { reveal_with_fuel(pow2, 19); }
            }
            lemma_pow2_positive(t.1 as nat);
        }
        crate::ratio::frac_le_exec(t.0, pow2_u128(t.1 as u32), c.0, pow2_u128(c.1 as u32))
    } else {
        false
    };
    proof {
        if t.0 == 0 {
            assert(t.1 == 0);
            assert(0 * pow2(c.1 as nat) <= c.0 * pow2(0)) by (nonlinear_arith);
            assert(small);
        }
    }
    if small { c } else { t }
}

/// [`report_rate`] of `count` over `nanos`.
pub fn report_rate_of(count: u64, nanos: u128) -> (r: (u128, i32))
    requires
        nanos <= crate::time::max_nanos(),
    ensures
        (r.0 as nat, r.1 as int) == report_rate(count as nat, nanos as nat),
        normal_or_zero((r.0 as nat, r.1 as int)),
        -42 <= r.1 <= 118,
{
    let t = report_window_of(nanos);
    binary64_rate_of(count, t)
}

/// [`live_rate`] of `count` over `nanos`.
pub fn live_rate_of(count: u64, nanos: u128) -> (r: (u128, i32))
    requires
        nanos <= crate::time::max_nanos(),
    ensures
        (r.0 as nat, r.1 as int) == live_rate(count as nat, nanos as nat),
        normal_or_zero((r.0 as nat, r.1 as int)),
        -42 <= r.1 <= 118,
{
    if nanos == 0 {
        return (0, 0);
    }
    let t = secs_f64_of(nanos);
    binary64_rate_of(count, t)
}

/// Appends [`b64_fixed`] of `v` scaled down by `2^extra` (`extra` more to
/// its shift), with `places` digits.
pub fn push_b64_fixed(out: &mut Vec<char>, v: (u128, i32), extra: i32, places: u32)
    requires
        v.0 <= 0x2000_0000_0000_0000,
        -48 <= v.1 <= 172,
        0 <= extra <= 20,
        places <= 2,
    ensures
        final(out)@ == old(out)@ + b64_fixed((v.0 as nat, v.1 + extra), places as nat),
{
    proof {
        lemma_pow2_values();
        reveal_with_fuel(crate::text::pow10, 3);
        assert(pow2(61) == 0x2000_0000_0000_0000) by { reveal_with_fuel(pow2, 62); }
    }
    let s = v.1 + extra;
    if s >= 100 {
        proof {
            lemma_pow2_mono(100, s as nat);
            lemma_pow2_add(64, 36);
            assert(pow2(36) == 0x10_0000_0000) by { reveal_with_fuel(pow2, 37); }
            let x: nat = (v.0 * crate::text::pow10(places as nat)) as nat;
            let d: nat = pow2(s as nat);
            assert(2 * x < d) by (nonlinear_arith)
                requires x == v.0 * crate::text::pow10(places as nat), v.0 <= 0x2000_0000_0000_0000, crate::text::pow10(places as nat) <= 100,
                    d >= pow2(100), pow2(100) == pow2(64) * pow2(36), pow2(64) == 0x1_0000_0000_0000_0000,
                    pow2(36) == 0x10_0000_0000;
            vstd::arithmetic::div_mod::lemma_fundamental_div_mod_converse(x as int, d as int, 0, x as int);
            assert(round_half_even(x, d) == 0);
            assert(round_half_even(0 * crate::text::pow10(places as nat), 1) == 0);
        }
        crate::text::push_fixed_point(out, 0, 1, places);
    } else if s >= 0 {
        proof {
            lemma_pow2_mono(s as nat, 99);
            lemma_pow2_positive(s as nat);
            assert(pow2(99) < 0x1_0000_0000_0000_0000_0000_0000_0000) by {
                lemma_pow2_add(64, 35);
                assert(pow2(35) == 0x8_0000_0000) by { reveal_with_fuel(pow2, 36); }
            }
            assert(v.0 * crate::text::pow10(places as nat) <= u128::MAX) by (nonlinear_arith)
                requires v.0 <= 0x2000_0000_0000_0000, crate::text::pow10(places as nat) <= 100;
        }
        crate::text::push_fixed_point(out, v.0, pow2_u128(s as u32), places);
    } else {
        let sh = pow2_u128((-s) as u32);
        proof {
            lemma_pow2_mono((-s) as nat, 48);
            assert(pow2(48) == 0x1_0000_0000_0000) by { reveal_with_fuel(pow2, 49); }
            assert(v.0 * sh * crate::text::pow10(places as nat) <= u128::MAX) by (nonlinear_arith)
                requires v.0 <= 0x2000_0000_0000_0000, sh <= 0x1_0000_0000_0000, crate::text::pow10(places as nat) <= 100;
            assert(v.0 * sh <= u128::MAX) by (nonlinear_arith)
                requires v.0 <= 0x2000_0000_0000_0000, sh <= 0x1_0000_0000_0000;
        }
        crate::text::push_fixed_point(out, v.0 * sh, 1, places);
    }
}

/// The least `k >= from` (and at most 200) with `a * 2^k >= b * 2^52`:
/// the scale that lifts `a / b` to a 53-bit significand.
pub open spec fn lift_shift(a: nat, b: nat, from: nat) -> nat
    decreases 200 - from,
{
    if from >= 200 || a * pow2(from) >= b * pow2(52) {
        from
    } else {
        lift_shift(a, b, from + 1)
    }
}

/// The least `j >= from` (and at most 100) with `a < b * 2^(53 + j)`: how
/// far `a / b` must be scaled down to a 53-bit significand.
pub open spec fn lower_shift(a: nat, b: nat, from: nat) -> nat
    decreases 100 - from,
{
    if from >= 100 || a < b * pow2(53 + from) {
        from
    } else {
        lower_shift(a, b, from + 1)
    }
}

/// The positive fraction `a / b` rounded to the nearest binary64 value
/// (ties to even), as `(significand, shift)`: a significand of 53 bits
/// (or `2^53` after a carry) over `2^shift`.  Zero for `a == 0`.
pub open spec fn binary64_of_fraction(a: nat, b: nat) -> (nat, int) {
    if a == 0 {
        (0, 0)
    } else if a >= b * pow2(53) {
        let j = lower_shift(a, b, 0);
        (round_half_even(a, b * pow2(j)), -(j as int))
    } else {
        let k = lift_shift(a, b, 0);
        (round_half_even(a * pow2(k), b), k as int)
    }
}

proof fn lemma_lift_shift_step(a: nat, b: nat, from: nat)
    requires
        from < 200,
        a * pow2(from) < b * pow2(52),
    ensures
        lift_shift(a, b, from) == lift_shift(a, b, from + 1),
{
}

/// [`binary64_of_fraction`] of `a / b`, for `a` and `b` below `2^100`
/// and `a / b` at least `2^-120`.
pub fn binary64_of_fraction_of(a: u128, b: u128) -> (r: (u128, i32))
    requires
        1 <= b < pow2(100),
        a < pow2(100),
        a == 0 || a * pow2(120) >= b,
    ensures
        (r.0 as nat, r.1 as int) == binary64_of_fraction(a as nat, b as nat),
        normal_or_zero((r.0 as nat, r.1 as int)),
        -48 <= r.1 <= 172,
{
    proof {
        lemma_pow2_values();
        assert(pow2(100) == 0x10_0000_0000_0000_0000_0000_0000) by {
            lemma_pow2_add(64, 36);
            assert(pow2(36) == 0x10_0000_0000) by { reveal_with_fuel(pow2, 37); }
        }
        assert(pow2(53) == 2 * pow2(52));
    }
    if a == 0 {
        return (0, 0);
    }
    let q0 = a / b;
    if q0 >= 0x20_0000_0000_0000 {
        // scale down: the least j with a < b * 2^(53 + j)
        let mut j: u32 = 0;
        let mut bj: u128 = b;
        proof {
            vstd::arithmetic::div_mod::lemma_fundamental_div_mod(a as int, b as int);
            assert(a >= b * pow2(53)) by (nonlinear_arith)
                requires a == b * q0 + a % b, q0 >= pow2(53), a % b >= 0, b >= 1;
        }
        assert(b * pow2(0) == b) by (nonlinear_arith) requires pow2(0) == 1;
        while j < 100 && a / bj >= 0x20_0000_0000_0000
            invariant
                j <= 100,
                bj == b * pow2(j as nat),
                1 <= b,
                1 <= bj,
                a < 0x10_0000_0000_0000_0000_0000_0000,
                bj <= a,
                pow2(53) == 0x20_0000_0000_0000,
                lower_shift(a as nat, b as nat, 0) == lower_shift(a as nat, b as nat, j as nat),
            decreases 100 - j,
        {
            proof {
                lemma_pow2_add(53, j as nat);
                lemma_pow2_positive(j as nat);
                assert(bj >= 1) by (nonlinear_arith) requires bj == b * pow2(j as nat), b >= 1, pow2(j as nat) >= 1;
                vstd::arithmetic::div_mod::lemma_fundamental_div_mod(a as int, bj as int);
                assert(a >= bj * 0x20_0000_0000_0000) by (nonlinear_arith)
                    requires a == bj * (a / bj) + a % bj, a / bj >= 0x20_0000_0000_0000, a % bj >= 0, bj >= 1;
                assert(b * pow2((53 + j) as nat) == bj * 0x20_0000_0000_0000) by (nonlinear_arith)
                    requires bj == b * pow2(j as nat), pow2((53 + j) as nat) == pow2(53) * pow2(j as nat), pow2(53) == 0x20_0000_0000_0000;
                assert(pow2((j + 1) as nat) == 2 * pow2(j as nat));
                assert(bj * 2 <= a) by (nonlinear_arith)
                    requires a >= bj * 0x20_0000_0000_0000;
            }
            j = j + 1;
            bj = bj * 2;
            proof {
                assert(bj == b * pow2(j as nat)) by (nonlinear_arith)
                    requires bj == 2 * (b * pow2((j - 1) as nat)), pow2(j as nat) == 2 * pow2((j - 1) as nat);
            }
        }
        proof {
            lemma_pow2_add(53, j as nat);
            lemma_pow2_positive(j as nat);
            assert(bj >= 1) by (nonlinear_arith) requires bj == b * pow2(j as nat), b >= 1, pow2(j as nat) >= 1;
            vstd::arithmetic::div_mod::lemma_fundamental_div_mod(a as int, bj as int);
            if j < 100 {
                assert(a < bj * 0x20_0000_0000_0000) by (nonlinear_arith)
                    requires a == bj * (a / bj) + a % bj, a / bj < 0x20_0000_0000_0000, a % bj < bj;
            }
            assert(b * pow2((53 + j) as nat) == bj * 0x20_0000_0000_0000) by (nonlinear_arith)
                requires bj == b * pow2(j as nat), pow2((53 + j) as nat) == pow2(53) * pow2(j as nat), pow2(53) == 0x20_0000_0000_0000;
            if j >= 100 {
                lemma_pow2_positive(53);
                assert(bj >= pow2(100)) by (nonlinear_arith)
                    requires bj == b * pow2(100), b >= 1;
                assert(false);
            }
            assert(lower_shift(a as nat, b as nat, j as nat) == j as nat);
            assert(a < bj * pow2(53));
            crate::binary64::lemma_round_at_most(a as nat, bj as nat, pow2(53));
            // the previous scale left the quotient at 2^53 or more
            if j == 0 {
                assert(false);
            }
            assert(pow2(j as nat) == 2 * pow2((j - 1) as nat));
            let bp = b * pow2((j - 1) as nat);
            assert(bj == 2 * bp) by (nonlinear_arith)
                requires bj == b * pow2(j as nat), pow2(j as nat) == 2 * pow2((j - 1) as nat), bp == b * pow2((j - 1) as nat);
            lemma_lower_shift_before(a as nat, b as nat, (j - 1) as nat);
            lemma_pow2_add(53, (j - 1) as nat);
            assert(b * pow2((53 + j - 1) as nat) == bp * pow2(53)) by (nonlinear_arith)
                requires bp == b * pow2((j - 1) as nat), pow2((53 + j - 1) as nat) == pow2(53) * pow2((j - 1) as nat);
            assert(a >= bp * pow2(53));
            assert(a >= pow2(52) * bj) by (nonlinear_arith)
                requires a >= bp * pow2(53), pow2(53) == 2 * pow2(52), bj == 2 * bp;
            if j > 47 {
                lemma_pow2_mono(100, (53 + j - 1) as nat);
                assert(b * pow2((53 + j - 1) as nat) >= pow2(100)) by (nonlinear_arith)
                    requires b >= 1, pow2((53 + j - 1) as nat) >= pow2(100);
                assert(false);
            }
            crate::binary64::lemma_round_at_least(a as nat, bj as nat, pow2(52));
        }
        let m = round_half_even_u128(a, bj);
        return (m, -(j as i32));
    }
    // scale up: long division, one bit at a time, until the quotient has 53 bits
    let mut i: u32 = 0;
    let mut q: u128 = q0;
    let mut r: u128 = a % b;
    proof {
        vstd::arithmetic::div_mod::lemma_fundamental_div_mod(a as int, b as int);
        assert(q * b + r == a * pow2(0)) by (nonlinear_arith)
            requires a == b * q + r, pow2(0) == 1;
        assert(a < b * pow2(53)) by (nonlinear_arith)
            requires a == b * q + r, r < b, q + 1 <= pow2(53);
        lemma_pow2_add(120, 52);
    }
    while q < 0x10_0000_0000_0000
        invariant
            1 <= b < 0x10_0000_0000_0000_0000_0000_0000,
            1 <= a < 0x10_0000_0000_0000_0000_0000_0000,
            a * pow2(120) >= b,
            pow2(172) == pow2(120) * pow2(52),
            i <= 172,
            q * b + r == a * pow2(i as nat),
            r < b,
            q < 0x20_0000_0000_0000,
            pow2(52) == 0x10_0000_0000_0000,
            lift_shift(a as nat, b as nat, 0) == lift_shift(a as nat, b as nat, i as nat),
        decreases 172 - i,
    {
        proof {
            if i == 172 {
                assert(a * pow2(172) >= b * pow2(52)) by (nonlinear_arith)
                    requires a * pow2(120) >= b, pow2(172) == pow2(120) * pow2(52), pow2(52) >= 1;
                assert(q >= pow2(52)) by (nonlinear_arith)
                    requires q * b + r == a * pow2(172), a * pow2(172) >= b * pow2(52), r < b, b >= 1;
                assert(false);
            }
            assert(a * pow2(i as nat) < b * pow2(52)) by (nonlinear_arith)
                requires q * b + r == a * pow2(i as nat), r < b, q < pow2(52), q + 1 <= pow2(52);
            lemma_lift_shift_step(a as nat, b as nat, i as nat);
            assert(pow2((i + 1) as nat) == 2 * pow2(i as nat));
        }
        let ghost q_old = q;
        let ghost r_old = r;
        let r2 = 2 * r;
        if r2 >= b {
            q = 2 * q + 1;
            r = r2 - b;
        } else {
            q = 2 * q;
            r = r2;
        }
        i = i + 1;
        proof {
            assert(q * b + r == 2 * (q_old * b + r_old)) by (nonlinear_arith)
                requires (q == 2 * q_old + 1 && r == 2 * r_old - b) || (q == 2 * q_old && r == 2 * r_old);
            assert(2 * (a * pow2((i - 1) as nat)) == a * pow2(i as nat)) by (nonlinear_arith)
                requires pow2(i as nat) == 2 * pow2((i - 1) as nat);
        }
    }
    proof {
        assert(a * pow2(i as nat) >= b * pow2(52)) by (nonlinear_arith)
            requires q * b + r == a * pow2(i as nat), q >= pow2(52), r >= 0, b >= 0;
        assert(lift_shift(a as nat, b as nat, i as nat) == i as nat);
        vstd::arithmetic::div_mod::lemma_fundamental_div_mod_converse((a * pow2(i as nat)) as int, b as int, q as int, r as int);
        crate::binary64::lemma_round_at_least((a * pow2(i as nat)) as nat, b as nat, q as nat);
    }
    let m = if r > b - r || (r == b - r && q % 2 == 1) { q + 1 } else { q };
    assert(m == round_half_even((a * pow2(i as nat)) as nat, b as nat));
    (m, i as i32)
}

/// Before its scale down is reached, `a / b` is at least `2^53` at that
/// scale.
proof fn lemma_lower_shift_before(a: nat, b: nat, j: nat)
    requires
        lower_shift(a, b, 0) > j,
    ensures
        a >= b * pow2(53 + j),
{
    lemma_lower_shift_before_from(a, b, 0, j);
}

proof fn lemma_lower_shift_before_from(a: nat, b: nat, from: nat, j: nat)
    requires
        from <= j,
        lower_shift(a, b, from) > j,
    ensures
        a >= b * pow2(53 + j),
    decreases j - from,
{
    if from < j {
        lemma_lower_shift_before_from(a, b, from + 1, j);
    }
}

} // verus!
