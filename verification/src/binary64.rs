//! Exact integer model of IEEE 754 binary64 rounding, for rendering
//! quotients the way a 64-bit float division followed by fixed-precision
//! formatting renders them.
//!
//! A binary64 number carries a 53-bit significand.  Rounding an integer `n`
//! keeps its 53 leading bits (ties to even); rounding a quotient
//! `num / den >= 1` scales it by the power of two that puts it in
//! `[2^52, 2^53)` and rounds there.  Formatting with `places` digits then
//! rounds the exact binary value half to even.

use vstd::prelude::*;
use crate::text::{fixed_point, lemma_pow10_positive, pow10, push_fixed_point, round_half_even, round_half_even_u128};

verus! {

/// `2^k`.
pub open spec fn pow2(k: nat) -> nat
    decreases k,
{
    if k == 0 { 1 } else { 2 * pow2((k - 1) as nat) }
}

/// Powers of two are positive.
pub proof fn lemma_pow2_positive(k: nat)
    ensures
        pow2(k) >= 1,
    decreases k,
{
    if k > 0 {
        lemma_pow2_positive((k - 1) as nat);
    }
}

/// Powers of two grow with the exponent.
pub proof fn lemma_pow2_mono(a: nat, b: nat)
    requires
        a <= b,
    ensures
        pow2(a) <= pow2(b),
    decreases b,
{
    lemma_pow2_positive(a);
    if a < b {
        lemma_pow2_mono(a, (b - 1) as nat);
    }
}

/// The powers of two that bound a binary64 significand and a `u64`.
pub proof fn lemma_pow2_values()
    ensures
        pow2(52) == 0x10_0000_0000_0000,
        pow2(53) == 0x20_0000_0000_0000,
        pow2(64) == 0x1_0000_0000_0000_0000,
{
    reveal_with_fuel(pow2, 65);
}

/// The least `t >= from` (and at most 11) with `n < 2^(53 + t)`: how many low
/// bits of `n` fall outside a 53-bit significand.
pub open spec fn excess_bits(n: nat, from: nat) -> nat
    decreases 11 - from,
{
    if from >= 11 || n < pow2(53 + from) {
        from
    } else {
        excess_bits(n, from + 1)
    }
}

/// The binary64 value nearest to the integer `n < 2^64` (ties to even), as an integer.
pub open spec fn binary64_of_int(n: nat) -> nat {
    let t = excess_bits(n, 0);
    round_half_even(n, pow2(t)) * pow2(t)
}

/// The least `s >= from` (and at most 52) with `num * 2^s >= den * 2^52`.
pub open spec fn quotient_shift(num: nat, den: nat, from: nat) -> nat
    decreases 52 - from,
{
    if from >= 52 || num * pow2(from) >= den * pow2(52) {
        from
    } else {
        quotient_shift(num, den, from + 1)
    }
}

/// `num / den` (at least 1) rounded to binary64 and then rendered with
/// `places` digits after the point, the last digit rounded half to even.
pub open spec fn binary64_quotient_fixed(num: nat, den: nat, places: nat) -> Seq<char> {
    let s = quotient_shift(num, den, 0);
    fixed_point(round_half_even(num * pow2(s), den), pow2(s), places)
}

proof fn lemma_round_bound(n: nat, d: nat, b: nat)
    requires
        d > 0,
        n < d * b,
    ensures
        round_half_even(n, d) <= b,
{
    let q = n / d;
    assert(q < b) by (nonlinear_arith)
        requires d > 0, n < d * b, q == n / d;
}

/// The binary64 value nearest to `n`, as an integer.
pub fn binary64_of_u64(n: u64) -> (x: u128)
    ensures
        x == binary64_of_int(n as nat),
        x <= 0x1_0000_0000_0000_0000,
        n >= 1_000_000 ==> x >= 1_000_000,
{
    let mut t: u32 = 0;
    let mut p: u128 = 1;
    let mut lim: u128 = 0x20_0000_0000_0000;
    proof {
        lemma_pow2_values();
        assert(pow2(11) == 2048) by { reveal_with_fuel(pow2, 12); }
    }
    while t < 11 && (n as u128) >= lim
        invariant
            t <= 11,
            p == pow2(t as nat),
            pow2(11) == 2048,
            lim == pow2(53 + t as nat),
            lim == p * 0x20_0000_0000_0000,
            excess_bits(n as nat, 0) == excess_bits(n as nat, t as nat),
            t > 0 ==> n >= 0x20_0000_0000_0000,
        decreases 11 - t,
    {
        proof {
            reveal_with_fuel(pow2, 2);
            assert(pow2(53 + (t + 1) as nat) == 2 * pow2(53 + t as nat));
            lemma_pow2_mono(t as nat, 10);
            assert(pow2(11) == 2 * pow2(10));
        }
        t = t + 1;
        p = p * 2;
        lim = lim * 2;
    }
    proof {
        lemma_pow2_positive(t as nat);
        lemma_pow2_mono(t as nat, 11);
        assert(excess_bits(n as nat, t as nat) == t as nat);
        assert(n < p * 0x20_0000_0000_0000) by {
            if t == 11 {
                assert(n < 0x1_0000_0000_0000_0000);
            }
        }
        lemma_round_bound(n as nat, p as nat, 0x20_0000_0000_0000);
        assert(round_half_even(n as nat, p as nat) * p <= 0x20_0000_0000_0000 * 2048) by (nonlinear_arith)
            requires round_half_even(n as nat, p as nat) <= 0x20_0000_0000_0000, p <= 2048;
    }
    let m = round_half_even_u128(n as u128, p);
    proof {
        if n >= 1_000_000 {
            if t == 0 {
                assert(p == 1);
                assert(m == n) by (nonlinear_arith) requires p == 1, m == round_half_even(n as nat, p as nat);
            } else {
                assert((n as nat) / (p as nat) >= 0x40_0000_0000) by (nonlinear_arith)
                    requires n >= 0x20_0000_0000_0000, 1 <= p <= 2048;
                assert(m >= (n as nat) / (p as nat));
                assert(m * p >= m) by (nonlinear_arith) requires p >= 1;
            }
        }
    }
    m * p
}

/// Appends `num / den` rounded to binary64 and rendered with `places` digits.
pub fn push_binary64_quotient(out: &mut Vec<char>, num: u128, den: u128, places: u32)
    requires
        0 < den <= 1_000_000,
        den <= num,
        num < den * pow2(53),
        places <= 3,
    ensures
        final(out)@ == old(out)@ + binary64_quotient_fixed(num as nat, den as nat, places as nat),
{
    proof {
        lemma_pow2_values();
        assert(num < 0x1_0000_0000_0000_0000 * 0x10_0000) by (nonlinear_arith)
            requires num < den * 0x20_0000_0000_0000, den <= 1_000_000;
    }
    let mut s: u32 = 0;
    let mut p: u128 = 1;
    let top: u128 = den * 0x10_0000_0000_0000;
    while s < 52 && num * p < top
        invariant
            s <= 52,
            p == pow2(s as nat),
            p <= 0x10_0000_0000_0000,
            top == den * pow2(52),
            num < 0x1_0000_0000_0000_0000 * 0x10_0000,
            pow2(52) == 0x10_0000_0000_0000,
            pow2(53) == 0x20_0000_0000_0000,
            0 < den <= 1_000_000,
            num * p < den * pow2(53),
            quotient_shift(num as nat, den as nat, 0) == quotient_shift(num as nat, den as nat, s as nat),
        decreases 52 - s,
    {
        proof {
            reveal_with_fuel(pow2, 2);
            lemma_pow2_mono((s + 1) as nat, 52);
            assert(pow2((s + 1) as nat) == 2 * p);
            assert(num * (2 * p) == 2 * (num * p)) by (nonlinear_arith);
        }
        s = s + 1;
        p = p * 2;
    }
    proof {
        assert(quotient_shift(num as nat, den as nat, s as nat) == s as nat);
        lemma_round_bound((num * p) as nat, den as nat, pow2(53));
        lemma_pow2_positive(s as nat);
        assert(places <= 3);
        assert(pow10(places as nat) <= 1000) by {
            reveal_with_fuel(pow10, 4);
        }
        lemma_pow10_positive(places as nat);
        assert(round_half_even((num * p) as nat, den as nat) * pow10(places as nat) <= u128::MAX) by (nonlinear_arith)
            requires round_half_even((num * p) as nat, den as nat) <= 0x20_0000_0000_0000, pow10(places as nat) <= 1000;
        assert(pow10(places as nat) <= u128::MAX);
    }
    let m = round_half_even_u128(num * p, den);
    push_fixed_point(out, m, p, places);
}

/// The least `s >= from` (and at most 116) with `2^s >= den * 2^52`.
pub open spec fn reciprocal_shift(den: nat, from: nat) -> nat
    decreases 116 - from,
{
    if from >= 116 || pow2(from) >= den * pow2(52) {
        from
    } else {
        reciprocal_shift(den, from + 1)
    }
}

/// `1 / den` (with `den >= 1`) rounded to binary64, as `(significand,
/// shift)`: the value is `significand / 2^shift`.
pub open spec fn binary64_reciprocal(den: nat) -> (nat, nat) {
    let s = reciprocal_shift(den, 0);
    (round_half_even(pow2(s), den), s)
}

/// Rounding to the nearest multiple misses by at most half a step.
pub proof fn lemma_round_close(x: nat, d: nat)
    requires
        d > 0,
    ensures
        -(d as int) <= 2 * (round_half_even(x, d) * d - x) <= d,
{
    let q = x / d;
    let r = x % d;
    assert(x == q * d + r) by (nonlinear_arith)
        requires d > 0, q == x / d, r == x % d;
    if round_half_even(x, d) == q + 1 {
        assert((q + 1) * d == q * d + d) by (nonlinear_arith);
    }
}

/// Rounding `x <= k * d` to a multiple of `d` gives at most `k` steps.
pub proof fn lemma_round_at_most(x: nat, d: nat, k: nat)
    requires
        d > 0,
        x <= k * d,
    ensures
        round_half_even(x, d) <= k,
{
    let q = x / d;
    let r = x % d;
    assert(x == q * d + r) by (nonlinear_arith)
        requires d > 0, q == x / d, r == x % d;
    assert(q <= k) by (nonlinear_arith)
        requires x == q * d + r, x <= k * d, d > 0, r >= 0;
    if q == k {
        assert(r == 0) by (nonlinear_arith)
            requires x == q * d + r, x <= k * d, q == k, r >= 0;
    }
}

/// The binary64 value of an integer is the integer itself below `2^53`,
/// and never more than 2048 below it otherwise.
pub proof fn lemma_binary64_of_int_close(n: nat)
    requires
        n < pow2(64),
    ensures
        n < pow2(53) ==> binary64_of_int(n) == n,
        binary64_of_int(n) + 2048 >= n,
        binary64_of_int(n) <= n + 2048,
{
    lemma_pow2_values();
    let t = excess_bits(n, 0);
    assert(t <= 11) by {
        lemma_excess_bits_bound(n, 0);
    }
    lemma_pow2_mono(t, 11);
    lemma_pow2_positive(t);
    assert(pow2(11) == 2048) by { reveal_with_fuel(pow2, 12); }
    let p = pow2(t);
    let q = n / p;
    let r = n % p;
    assert(n == q * p + r) by (nonlinear_arith)
        requires p > 0, q == n / p, r == n % p;
    assert(round_half_even(n, p) >= q);
    assert(round_half_even(n, p) * p >= q * p) by (nonlinear_arith)
        requires round_half_even(n, p) >= q, p > 0;
    assert(round_half_even(n, p) <= q + 1);
    assert(round_half_even(n, p) * p <= q * p + p) by (nonlinear_arith)
        requires round_half_even(n, p) <= q + 1, p > 0;
    if n < pow2(53) {
        assert(t == 0);
        assert(p == 1);
        assert(q == n && r == 0) by (nonlinear_arith)
            requires n == q * p + r, p == 1, r < p;
    }
}

proof fn lemma_excess_bits_bound(n: nat, from: nat)
    requires
        from <= 11,
    ensures
        from <= excess_bits(n, from) <= 11,
        excess_bits(n, from) < 11 ==> n < pow2(53 + excess_bits(n, from)),
    decreases 11 - from,
{
    if !(from >= 11 || n < pow2(53 + from)) {
        lemma_excess_bits_bound(n, from + 1);
    }
}

proof fn lemma_reciprocal_shift_found(den: nat, from: nat)
    requires
        1 <= den <= pow2(64),
        from <= 116,
    ensures
        from <= reciprocal_shift(den, from) <= 116,
        pow2(reciprocal_shift(den, from)) >= den * pow2(52),
    decreases 116 - from,
{
    if from >= 116 {
        lemma_pow2_values();
        assert(pow2(116) == pow2(64) * pow2(52)) by {
            lemma_pow2_add(64, 52);
        }
        assert(den * pow2(52) <= pow2(64) * pow2(52)) by (nonlinear_arith)
            requires den <= pow2(64), pow2(52) > 0;
    } else if pow2(from) < den * pow2(52) {
        lemma_reciprocal_shift_found(den, from + 1);
    }
}

/// Exponents add when powers of two multiply.
pub proof fn lemma_pow2_add(a: nat, b: nat)
    ensures
        pow2(a + b) == pow2(a) * pow2(b),
    decreases a,
{
    if a > 0 {
        lemma_pow2_add((a - 1) as nat, b);
        assert(pow2(a + b) == 2 * pow2((a - 1 + b) as nat));
        assert(pow2(a) == 2 * pow2((a - 1) as nat));
        assert(2 * (pow2((a - 1) as nat) * pow2(b)) == (2 * pow2((a - 1) as nat)) * pow2(b)) by (nonlinear_arith);
    } else {
        assert(pow2(0) == 1);
        assert(a + b == b);
    }
}

/// `1 / den` rounded to binary64 (see [`binary64_reciprocal`]), as its
/// significand and `2^shift`.
pub fn binary64_reciprocal_of(den: u128) -> (r: (u128, u128))
    requires
        1 <= den <= 0x1_0000_0000_0000_0000,
    ensures
        r.0 == binary64_reciprocal(den as nat).0,
        r.1 == pow2(binary64_reciprocal(den as nat).1),
        r.1 >= den * pow2(52),
        r.0 * den <= 2 * r.1,
        r.0 <= r.1,
        r.0 <= 0x40_0000_0000_0000,
{
    proof {
        lemma_pow2_values();
    }
    let top: u128 = den * 0x10_0000_0000_0000;
    let mut s: u32 = 0;
    let mut p: u128 = 1;
    while s < 116 && p < top
        invariant
            s <= 116,
            p == pow2(s as nat),
            top == den * pow2(52),
            1 <= den <= 0x1_0000_0000_0000_0000,
            pow2(52) == 0x10_0000_0000_0000,
            pow2(64) == 0x1_0000_0000_0000_0000,
            p <= 2 * top,
            reciprocal_shift(den as nat, 0) == reciprocal_shift(den as nat, s as nat),
        decreases 116 - s,
    {
        proof {
            reveal_with_fuel(pow2, 2);
        }
        s = s + 1;
        p = p * 2;
    }
    proof {
        assert(reciprocal_shift(den as nat, s as nat) == s as nat);
        lemma_reciprocal_shift_found(den as nat, 0);
        lemma_round_close(p as nat, den as nat);
        assert(round_half_even(p as nat, den as nat) <= p) by {
            assert(p <= p * den) by (nonlinear_arith) requires den >= 1;
            lemma_round_at_most(p as nat, den as nat, p as nat);
        }
        assert(p <= 2 * den * 0x10_0000_0000_0000) by {
            if s > 0 {
                assert(p <= 2 * top);
            }
        }
        assert(round_half_even(p as nat, den as nat) <= 0x40_0000_0000_0000) by {
            assert(p <= 0x40_0000_0000_0000 * den) by (nonlinear_arith)
                requires p <= 2 * den * 0x10_0000_0000_0000;
            lemma_round_at_most(p as nat, den as nat, 0x40_0000_0000_0000);
        }
    }
    let m = round_half_even_u128(p, den);
    (m, p)
}

/// The search for the reciprocal's scale ends at a power of two no smaller
/// than `den * 2^52`.
pub proof fn lemma_reciprocal_shift_found_pub(den: nat)
    requires
        1 <= den <= pow2(64),
    ensures
        reciprocal_shift(den, 0) <= 116,
        pow2(reciprocal_shift(den, 0)) >= den * pow2(52),
{
    lemma_reciprocal_shift_found(den, 0);
}

/// The binary64 value of an integer below `2^64` is at most `2^64`.
pub proof fn lemma_binary64_of_int_bound(n: nat)
    requires
        n < pow2(64),
    ensures
        binary64_of_int(n) <= pow2(64),
{
    lemma_pow2_values();
    let t = excess_bits(n, 0);
    lemma_excess_bits_bound(n, 0);
    lemma_pow2_mono(t, 11);
    lemma_pow2_positive(t);
    assert(pow2(11) == 2048) by { reveal_with_fuel(pow2, 12); }
    let p = pow2(t);
    assert(n < p * 0x20_0000_0000_0000) by {
        if t < 11 {
            assert(n < pow2(53 + t));
            lemma_pow2_add(53, t);
        }
    }
    lemma_round_bound(n, p, 0x20_0000_0000_0000);
    assert(round_half_even(n, p) * p <= 0x20_0000_0000_0000 * 2048) by (nonlinear_arith)
        requires round_half_even(n, p) <= 0x20_0000_0000_0000, p <= 2048;
}

/// The least `s >= from` (and at most 116) with `num * 2^s >= den * 2^52`.
pub open spec fn division_shift(num: nat, den: nat, from: nat) -> nat
    decreases 116 - from,
{
    if from >= 116 || num * pow2(from) >= den * pow2(52) {
        from
    } else {
        division_shift(num, den, from + 1)
    }
}

/// `num / den` rounded to binary64 for `0 < num <= den`, as `(significand,
/// shift)`: the value is `significand / 2^shift`.
pub open spec fn binary64_div(num: nat, den: nat) -> (nat, nat) {
    let s = division_shift(num, den, 0);
    (round_half_even(num * pow2(s), den), s)
}

/// The fraction `num / den` (at most one) as a percentage with two
/// decimals, computed in 64-bit floats: both integers converted, divided,
/// multiplied by 100, and the product rendered rounding half to even.
pub open spec fn binary64_percent_text(num: nat, den: nat) -> Seq<char> {
    if num == 0 {
        fixed_point(0, 1, 2)
    } else {
        let (m, s) = binary64_div(binary64_of_int(num), binary64_of_int(den));
        fixed_point(binary64_of_int(100 * m), pow2(s), 2)
    }
}

/// The search for the quotient's scale ends, by `2^116` at the latest, at
/// a scale that lifts `num / den` to at least `2^52`.
pub proof fn lemma_division_shift_found(num: nat, den: nat, from: nat)
    requires
        1 <= num,
        den <= pow2(64),
        from <= 116,
    ensures
        from <= division_shift(num, den, from) <= 116,
        num * pow2(division_shift(num, den, from)) >= den * pow2(52),
    decreases 116 - from,
{
    if from >= 116 {
        lemma_pow2_values();
        lemma_pow2_add(64, 52);
        assert(den * pow2(52) <= pow2(64) * pow2(52)) by (nonlinear_arith)
            requires den <= pow2(64), pow2(52) > 0;
        assert(num * pow2(116) >= pow2(116)) by (nonlinear_arith)
            requires num >= 1, pow2(116) > 0;
    } else if num * pow2(from) < den * pow2(52) {
        lemma_division_shift_found(num, den, from + 1);
    }
}

/// The quotient's scale is the least one from `from` on that lifts
/// `num / den` to at least `2^52`: no greater than a scale `j` that does,
/// and every smaller scale falls short.
pub proof fn lemma_division_shift_least(num: nat, den: nat, from: nat, j: nat)
    requires
        from <= j <= 116,
    ensures
        num * pow2(j) >= den * pow2(52) ==> division_shift(num, den, from) <= j,
        division_shift(num, den, from) > j ==> num * pow2(j) < den * pow2(52),
    decreases j - from,
{
    if from < j && num * pow2(from) < den * pow2(52) {
        lemma_division_shift_least(num, den, from + 1, j);
    }
}

/// The quotient's scale passes every scale `j` that leaves `num / den`
/// below `2^52`.
pub proof fn lemma_division_shift_above(num: nat, den: nat, from: nat, j: nat)
    requires
        from <= j < 116,
        num * pow2(j) < den * pow2(52),
    ensures
        division_shift(num, den, from) > j,
    decreases j - from,
{
    lemma_pow2_mono(from, j);
    assert(num * pow2(from) <= num * pow2(j)) by (nonlinear_arith)
        requires pow2(from) <= pow2(j);
    if from < j {
        lemma_division_shift_above(num, den, from + 1, j);
    } else {
        lemma_division_shift_from(num, den, from + 1);
    }
}

/// The quotient's scale is never below where the search starts.
pub proof fn lemma_division_shift_from(num: nat, den: nat, from: nat)
    ensures
        division_shift(num, den, from) >= from,
    decreases 116 - from,
{
    if from < 116 && num * pow2(from) < den * pow2(52) {
        lemma_division_shift_from(num, den, from + 1);
    }
}

/// Rounding `x >= k * d` to a multiple of `d` gives at least `k` steps.
pub proof fn lemma_round_at_least(x: nat, d: nat, k: nat)
    requires
        d > 0,
        x >= k * d,
    ensures
        round_half_even(x, d) >= k,
{
    let q = x / d;
    let r = x % d;
    assert(x == q * d + r) by (nonlinear_arith)
        requires d > 0, q == x / d, r == x % d;
    assert(q >= k) by (nonlinear_arith)
        requires x == q * d + r, x >= k * d, d > 0, r < d;
}

/// `num / den` for `1 <= num <= den < 2^64`, both first converted to
/// binary64 and the quotient rounded to binary64 (see [`binary64_div`]), as
/// `(significand, 2^shift, shift)`.  The significand has 53 bits, or is
/// `2^53` when the rounding carried into the next binade.
pub fn binary64_quotient_of(num: u128, den: u128) -> (r: (u128, u128, u32))
    requires
        1 <= num <= den,
        den <= u64::MAX,
    ensures
        (r.0 as nat, r.2 as nat) == binary64_div(binary64_of_int(num as nat), binary64_of_int(den as nat)),
        r.1 == pow2(r.2 as nat),
        pow2(52) <= r.0 <= pow2(53),
        r.2 <= 116,
{
    proof {
        lemma_pow2_values();
    }
    let a = binary64_of_u64(num as u64);
    let b = binary64_of_u64(den as u64);
    proof {
        lemma_binary64_of_int_order(num as nat, den as nat);
        lemma_binary64_of_int_positive(num as nat);
        lemma_binary64_of_int_positive(den as nat);
    }
    let top: u128 = b * 0x10_0000_0000_0000;
    let mut s: u32 = 0;
    let mut p: u128 = 1;
    while s < 116 && a * p < top
        invariant
            s <= 116,
            p == pow2(s as nat),
            1 <= a <= 2 * b,
            1 <= b <= 0x1_0000_0000_0000_0000,
            top == b * pow2(52),
            pow2(52) == 0x10_0000_0000_0000,
            pow2(64) == 0x1_0000_0000_0000_0000,
            a * p <= 2 * top,
            division_shift(a as nat, b as nat, 0) == division_shift(a as nat, b as nat, s as nat),
        decreases 116 - s,
    {
        proof {
            reveal_with_fuel(pow2, 2);
            assert(a * (p * 2) == 2 * (a * p)) by (nonlinear_arith);
            assert(p <= a * p) by (nonlinear_arith) requires a >= 1;
        }
        s = s + 1;
        p = p * 2;
    }
    proof {
        assert(division_shift(a as nat, b as nat, s as nat) == s as nat);
        lemma_division_shift_found(a as nat, b as nat, 0);
        assert(a * p <= 0x20_0000_0000_0000 * b) by (nonlinear_arith)
            requires a * p <= 2 * top, top == b * 0x10_0000_0000_0000;
        lemma_round_at_most((a * p) as nat, b as nat, 0x20_0000_0000_0000);
        assert(a * p >= 0x10_0000_0000_0000 * b) by (nonlinear_arith)
            requires a * p >= b * 0x10_0000_0000_0000;
        lemma_round_at_least((a * p) as nat, b as nat, 0x10_0000_0000_0000);
        assert(p >= 1) by {
            lemma_pow2_positive(s as nat);
        }
        assert(pow2(53) == 0x20_0000_0000_0000) by {
            reveal_with_fuel(pow2, 2);
            assert(pow2(53) == 2 * pow2(52));
        }
    }
    let m = round_half_even_u128(a * p, b);
    (m, p, s)
}

/// Appends [`binary64_percent_text`] of `num / den`.
pub fn push_binary64_percent(out: &mut Vec<char>, num: u128, den: u128)
    requires
        num <= den,
        1 <= den <= u64::MAX,
    ensures
        final(out)@ == old(out)@ + binary64_percent_text(num as nat, den as nat),
{
    proof {
        lemma_pow2_values();
        reveal_with_fuel(pow10, 3);
    }
    if num == 0 {
        push_fixed_point(out, 0, 1, 2);
        return;
    }
    let (m, p, s) = binary64_quotient_of(num, den);
    proof {
        assert(pow2(53) == 0x20_0000_0000_0000) by {
            reveal_with_fuel(pow2, 2);
            assert(pow2(53) == 2 * pow2(52));
        }
        assert(p >= 1) by {
            lemma_pow2_positive(s as nat);
        }
    }
    let x = binary64_of_u64((100 * m) as u64);
    proof {
        assert(x * pow10(2) <= u128::MAX) by (nonlinear_arith)
            requires x <= 0x1_0000_0000_0000_0000, pow10(2) == 100;
    }
    push_fixed_point(out, x, p, 2);
}

/// Converting integers below `2^64` to binary64 at most doubles the ratio
/// of a smaller one to a larger one.
proof fn lemma_binary64_of_int_order(a: nat, b: nat)
    requires
        a <= b < pow2(64),
    ensures
        binary64_of_int(a) <= 2 * binary64_of_int(b),
{
    lemma_pow2_values();
    lemma_binary64_of_int_close(a);
    lemma_binary64_of_int_close(b);
    if b >= pow2(53) {
        assert(binary64_of_int(b) + 2048 >= b);
        assert(binary64_of_int(a) <= a + 2048);
    }
}

/// Converting a positive integer to binary64 gives a positive value.
pub proof fn lemma_binary64_of_int_positive(n: nat)
    requires
        1 <= n < pow2(64),
    ensures
        binary64_of_int(n) >= 1,
{
    lemma_pow2_values();
    lemma_binary64_of_int_close(n);
    if n >= pow2(53) {
        assert(binary64_of_int(n) + 2048 >= n);
    }
}

} // verus!
