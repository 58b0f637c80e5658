//! Exact scalar arithmetic: truncating division, integer square root,
//! and comparison of rationals held as numerator/denominator pairs.

use vstd::prelude::*;

verus! {

/// Numerator magnitude accepted by the rational comparisons; together
/// with `RAT_DEN_MAX` the cross products stay inside `i128`.
pub const RAT_NUM_MAX: i128 = 0x2000000000000000;

/// Denominator magnitude accepted by the rational comparisons.
pub const RAT_DEN_MAX: i128 = 0x20000000000000000;

/// Division rounding toward zero, the rounding of every fixed-point
/// division in this library.
pub open spec fn tdiv(a: int, b: int) -> int {
    if a >= 0 {
        a / b
    } else {
        -((-a) / b)
    }
}

/// `n1/d1 < n2/d2` for positive denominators, stated on cross products.
pub open spec fn rat_lt(n1: int, d1: int, n2: int, d2: int) -> bool {
    n1 * d2 < n2 * d1
}

/// `n1/d1 <= n2/d2` for positive denominators, stated on cross products.
pub open spec fn rat_le(n1: int, d1: int, n2: int, d2: int) -> bool {
    n1 * d2 <= n2 * d1
}

/// Bounds on two factors bound their product.
pub proof fn lemma_abs_mul_le(a: int, b: int, aa: int, bb: int)
    by (nonlinear_arith)
    requires
        -aa <= a <= aa,
        -bb <= b <= bb,
        0 <= aa,
        0 <= bb,
    ensures
        -(aa * bb) <= a * b <= aa * bb,
{
}

/// `<` on rationals with positive denominators is transitive.
pub proof fn lemma_rat_lt_trans(n1: int, d1: int, n2: int, d2: int, n3: int, d3: int)
    by (nonlinear_arith)
    requires
        d1 > 0,
        d2 > 0,
        d3 > 0,
        rat_lt(n1, d1, n2, d2),
        rat_lt(n2, d2, n3, d3),
    ensures
        rat_lt(n1, d1, n3, d3),
{
}

/// `<=` then `<` on rationals with positive denominators chains to `<`.
pub proof fn lemma_rat_le_lt_trans(n1: int, d1: int, n2: int, d2: int, n3: int, d3: int)
    by (nonlinear_arith)
    requires
        d1 > 0,
        d2 > 0,
        d3 > 0,
        rat_le(n1, d1, n2, d2),
        rat_lt(n2, d2, n3, d3),
    ensures
        rat_lt(n1, d1, n3, d3),
{
}

/// `<` then `<=` on rationals with positive denominators chains to `<`.
pub proof fn lemma_rat_lt_le_trans(n1: int, d1: int, n2: int, d2: int, n3: int, d3: int)
    by (nonlinear_arith)
    requires
        d1 > 0,
        d2 > 0,
        d3 > 0,
        rat_lt(n1, d1, n2, d2),
        rat_le(n2, d2, n3, d3),
    ensures
        rat_lt(n1, d1, n3, d3),
{
}

/// The mediant-style midpoint of two rationals lies strictly between them.
pub proof fn lemma_rat_midpoint(n1: int, d1: int, n2: int, d2: int)
    by (nonlinear_arith)
    requires
        d1 > 0,
        d2 > 0,
        rat_lt(n1, d1, n2, d2),
    ensures
        rat_lt(n1, d1, n1 * d2 + n2 * d1, 2 * d1 * d2),
        rat_lt(n1 * d2 + n2 * d1, 2 * d1 * d2, n2, d2),
        2 * d1 * d2 > 0,
{
}

/// Exact comparison `n1/d1 < n2/d2` of two rationals.
pub fn rat_lt_exec(n1: i128, d1: i128, n2: i128, d2: i128) -> (r: bool)
    requires
        0 < d1 <= RAT_DEN_MAX,
        0 < d2 <= RAT_DEN_MAX,
        -RAT_NUM_MAX <= n1 <= RAT_NUM_MAX,
        -RAT_NUM_MAX <= n2 <= RAT_NUM_MAX,
    ensures
        r == rat_lt(n1 as int, d1 as int, n2 as int, d2 as int),
{
    proof {
        lemma_abs_mul_le(n1 as int, d2 as int, RAT_NUM_MAX as int, RAT_DEN_MAX as int);
        lemma_abs_mul_le(n2 as int, d1 as int, RAT_NUM_MAX as int, RAT_DEN_MAX as int);
    }
    n1 * d2 < n2 * d1
}

/// `<=` on rationals with positive denominators is transitive.
pub proof fn lemma_rat_le_trans(n1: int, d1: int, n2: int, d2: int, n3: int, d3: int)
    by (nonlinear_arith)
    requires
        d1 > 0,
        d2 > 0,
        d3 > 0,
        rat_le(n1, d1, n2, d2),
        rat_le(n2, d2, n3, d3),
    ensures
        rat_le(n1, d1, n3, d3),
{
}

/// Zero, as the rational `0 / 1`, is below `tn / td` iff `tn > 0`.
pub proof fn lemma_rat_zero_one(tn: int, td: int)
    by (nonlinear_arith)
    requires
        td > 0,
    ensures
        (0int * td < tn * 1int) <==> tn > 0,
{
}

/// All rearrangements of a product of three factors.
pub proof fn lemma_mul3(a: int, b: int, c: int)
    ensures
        a * (b * c) == (a * b) * c,
        a * (b * c) == b * (a * c),
        (a * b) * c == (a * c) * b,
        (a * b) * c == (b * a) * c,
        (a * b) * c == (b * c) * a,
        (a * b) * c == (c * a) * b,
        (a * b) * c == (c * b) * a,
{
    vstd::arithmetic::mul::lemma_mul_is_associative(a, b, c);
    vstd::arithmetic::mul::lemma_mul_is_associative(a, c, b);
    vstd::arithmetic::mul::lemma_mul_is_associative(b, a, c);
    vstd::arithmetic::mul::lemma_mul_is_commutative(a, b);
    vstd::arithmetic::mul::lemma_mul_is_commutative(a, c);
    vstd::arithmetic::mul::lemma_mul_is_commutative(b, c);
    vstd::arithmetic::mul::lemma_mul_is_commutative(a, b * c);
    vstd::arithmetic::mul::lemma_mul_is_commutative(a, c * b);
    vstd::arithmetic::mul::lemma_mul_is_commutative(b, a * c);
}

/// Distributing a trailing factor over a difference of products.
pub proof fn lemma_diff_mul(p: int, q: int, k: int)
    ensures
        (p - q) * k == p * k - q * k,
{
    vstd::arithmetic::mul::lemma_mul_is_distributive_sub_other_way(k, p, q);
}

/// Distributing a trailing factor over a weighted three-term sum,
/// moving the factor inside each product.
pub proof fn lemma_weighted3_mul(k: int, w1: int, m1: int, w2: int, m2: int, w3: int, m3: int)
    ensures
        (w1 * m1 + w2 * m2 + w3 * m3) * k == w1 * (m1 * k) + w2 * (m2 * k) + w3 * (m3 * k),
{
    vstd::arithmetic::mul::lemma_mul_is_distributive_add_other_way(k, w1 * m1 + w2 * m2, w3 * m3);
    vstd::arithmetic::mul::lemma_mul_is_distributive_add_other_way(k, w1 * m1, w2 * m2);
    vstd::arithmetic::mul::lemma_mul_is_associative(w1, m1, k);
    vstd::arithmetic::mul::lemma_mul_is_associative(w2, m2, k);
    vstd::arithmetic::mul::lemma_mul_is_associative(w3, m3, k);
}

/// Gathering a common leading factor across a sum and a difference.
pub proof fn lemma_gather3(k: int, a: int, b: int, c: int)
    ensures
        k * a + k * b - k * c == k * (a + b - c),
{
    vstd::arithmetic::mul::lemma_mul_is_distributive_add(k, a, b);
    vstd::arithmetic::mul::lemma_mul_is_distributive_sub(k, a + b, c);
}

/// `r` is the integer square root of `n`.
pub open spec fn is_isqrt(r: int, n: int) -> bool {
    0 <= r && r * r <= n < (r + 1) * (r + 1)
}

/// The integer square root of `n`, as a spec value.
pub open spec fn spec_isqrt(n: int) -> int {
    choose|r: int| is_isqrt(r, n)
}

/// Squares are nonnegative.
pub proof fn lemma_sq_nonneg(a: int)
    by (nonlinear_arith)
    ensures
        a * a >= 0,
{
}

/// Squaring is monotone on nonnegative integers.
pub proof fn lemma_sq_mono(a: int, b: int)
    by (nonlinear_arith)
    requires
        0 <= a <= b,
    ensures
        a * a <= b * b,
{
}

/// Integer square roots are unique, so any witness is `spec_isqrt`.
pub proof fn lemma_isqrt_unique(r: int, n: int)
    requires
        is_isqrt(r, n),
    ensures
        r == spec_isqrt(n),
{
    assert(exists|x: int| is_isqrt(x, n)) by {
        assert(is_isqrt(r, n));
    }
    let r2 = spec_isqrt(n);
    assert(is_isqrt(r2, n));
    if r < r2 {
        lemma_sq_mono(r + 1, r2);
        assert(false);
    }
    if r2 < r {
        lemma_sq_mono(r2 + 1, r);
        assert(false);
    }
}

/// A bound `|a| <= c * b` on the dividend bounds the truncating quotient.
pub proof fn lemma_tdiv_bound(a: int, b: int, c: int)
    requires
        b > 0,
        0 <= c,
        -(c * b) <= a <= c * b,
    ensures
        -c <= tdiv(a, b) <= c,
{
    if a >= 0 {
        vstd::arithmetic::div_mod::lemma_div_is_ordered(a, c * b, b);
        vstd::arithmetic::div_mod::lemma_div_by_multiple(c, b);
        vstd::arithmetic::div_mod::lemma_div_pos_is_pos(a, b);
    } else {
        vstd::arithmetic::div_mod::lemma_div_is_ordered(-a, c * b, b);
        vstd::arithmetic::div_mod::lemma_div_by_multiple(c, b);
        vstd::arithmetic::div_mod::lemma_div_pos_is_pos(-a, b);
    }
}

/// Dividing zero by anything positive gives zero.
pub proof fn lemma_tdiv_zero(b: int)
    requires
        b > 0,
    ensures
        tdiv(0, b) == 0,
{
    vstd::arithmetic::div_mod::lemma_div_of0(b);
}

/// Division of `a` by positive `b`, rounding toward zero.
pub fn tdiv128(a: i128, b: i128) -> (r: i128)
    requires
        b > 0,
        -0x40000000000000000000000000000000 <= a <= 0x40000000000000000000000000000000,
    ensures
        r == tdiv(a as int, b as int),
{
    if a >= 0 {
        let q: u128 = (a as u128) / (b as u128);
        proof {
            vstd::arithmetic::div_mod::lemma_div_nonincreasing(a as int, b as int);
            vstd::arithmetic::div_mod::lemma_div_pos_is_pos(a as int, b as int);
        }
        q as i128
    } else {
        let q: u128 = ((-a) as u128) / (b as u128);
        proof {
            vstd::arithmetic::div_mod::lemma_div_nonincreasing(-a as int, b as int);
            vstd::arithmetic::div_mod::lemma_div_pos_is_pos(-a as int, b as int);
        }
        -(q as i128)
    }
}

/// Integer square root: the greatest `r` with `r * r <= n`.
pub fn isqrt(n: u128) -> (r: u64)
    requires
        n < 0x40000000000000000000000000000000,
    ensures
        is_isqrt(r as int, n as int),
        r == spec_isqrt(n as int),
{
    let mut lo: u128 = 0;
    let mut hi: u128 = 0x7fffffffffffffff;
    proof {
        assert((0x7fffffffffffffffint + 1) * (0x7fffffffffffffffint + 1) > n) by (nonlinear_arith)
            requires
                n < 0x40000000000000000000000000000000,
        ;
    }
    while lo < hi
        invariant
            lo <= hi,
            hi <= 0x7fffffffffffffff,
            (lo as int) * (lo as int) <= n,
            n < ((hi as int) + 1) * ((hi as int) + 1),
        decreases hi - lo,
    {
        let mid: u128 = lo + (hi - lo + 1) / 2;
        proof {
            assert(lo < mid <= hi);
            lemma_abs_mul_le(mid as int, mid as int, 0x7fffffffffffffff, 0x7fffffffffffffff);
        }
        if mid * mid <= n {
            lo = mid;
        } else {
            hi = mid - 1;
        }
    }
    proof {
        lemma_isqrt_unique(lo as int, n as int);
    }
    lo as u64
}

} // verus!
