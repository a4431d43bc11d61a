//! Exact non-negative fractions and their comparison without overflow.

use vstd::prelude::*;

verus! {

/// The fraction `num / den`.
#[derive(Debug, Clone, Copy, PartialEq, Eq, Structural)]
pub struct Ratio {
    pub num: u128,
    pub den: u128,
}

impl Ratio {
    /// The denominator is positive.
    pub open spec fn wf(self) -> bool {
        self.den > 0
    }
}

/// `a / b <= c / d`, for positive `b` and `d`.
pub open spec fn frac_le(a: nat, b: nat, c: nat, d: nat) -> bool {
    a * d <= c * b
}

proof fn lemma_frac_le_step(a: nat, b: nat, c: nat, d: nat)
    requires
        b > 0,
        d > 0,
    ensures
        ({
            let q1 = a / b;
            let q2 = c / d;
            let r1 = a % b;
            let r2 = c % d;
            &&& q1 < q2 ==> frac_le(a, b, c, d)
            &&& q1 > q2 ==> !frac_le(a, b, c, d)
            &&& q1 == q2 ==> (frac_le(a, b, c, d) <==> r1 * d <= r2 * b)
        }),
{
    let q1 = a / b;
    let q2 = c / d;
    let r1 = a % b;
    let r2 = c % d;
    vstd::arithmetic::div_mod::lemma_fundamental_div_mod(a as int, b as int);
    vstd::arithmetic::div_mod::lemma_fundamental_div_mod(c as int, d as int);
    assert(a * d == q1 * b * d + r1 * d) by (nonlinear_arith)
        requires a == b * q1 + r1;
    assert(c * b == q2 * d * b + r2 * b) by (nonlinear_arith)
        requires c == d * q2 + r2;
    assert(q1 * b * d == q1 * (b * d) && q2 * d * b == q2 * (b * d)) by (nonlinear_arith);
    if q1 < q2 {
        assert(q1 * (b * d) + b * d <= q2 * (b * d)) by (nonlinear_arith)
            requires q1 < q2, b * d >= 0;
        assert(r1 * d < b * d) by (nonlinear_arith) requires r1 < b, d > 0;
    } else if q1 > q2 {
        assert(q2 * (b * d) + b * d <= q1 * (b * d)) by (nonlinear_arith)
            requires q2 < q1, b * d >= 0;
        assert(r2 * b < b * d) by (nonlinear_arith) requires r2 < d, b > 0;
    }
}

/// Whether `a / b <= c / d`, computed without forming the cross products.
pub fn frac_le_exec(a: u128, b: u128, c: u128, d: u128) -> (r: bool)
    requires
        b > 0,
        d > 0,
    ensures
        r == frac_le(a as nat, b as nat, c as nat, d as nat),
    decreases b + d,
{
    let q1 = a / b;
    let q2 = c / d;
    proof {
        lemma_frac_le_step(a as nat, b as nat, c as nat, d as nat);
    }
    if q1 != q2 {
        return q1 < q2;
    }
    let r1 = a % b;
    let r2 = c % d;
    if r1 == 0 {
        proof {
            assert(r1 * d <= r2 * b) by (nonlinear_arith) requires r1 == 0;
        }
        return true;
    }
    if r2 == 0 {
        proof {
            assert(r1 * d > r2 * b) by (nonlinear_arith) requires r1 > 0, d > 0, r2 == 0;
        }
        return false;
    }
    // r1 / b <= r2 / d  <=>  d / r2 <= b / r1
    let res = frac_le_exec(d, r2, b, r1);
    proof {
        assert((r1 * d <= r2 * b) == (d * r1 <= b * r2)) by (nonlinear_arith);
    }
    res
}

} // verus!
