//! Common divisors and common multiples of natural numbers, and the
//! executable arithmetic that the breathing cycle needs.

use vstd::prelude::*;
use vstd::arithmetic::div_mod::{
    lemma_add_mod_noop, lemma_fundamental_div_mod, lemma_mod_multiples_basic, lemma_mod_self_0,
    lemma_mul_mod_noop_right, lemma_small_mod, lemma_sub_mod_noop,
};

verus! {

/// `m` is a positive multiple of both `a` and `b`.
pub open spec fn is_common_multiple(a: nat, b: nat, m: nat) -> bool {
    &&& a > 0
    &&& b > 0
    &&& m > 0
    &&& m % a == 0
    &&& m % b == 0
}

/// `m` is the least positive number that both `a` and `b` divide.
pub open spec fn is_lcm(a: nat, b: nat, m: nat) -> bool {
    &&& is_common_multiple(a, b, m)
    &&& forall|k: nat| is_common_multiple(a, b, k) ==> m <= k
}

/// The least common multiple of `a` and `b`; zero when either is zero.
pub open spec fn lcm(a: nat, b: nat) -> nat {
    if a == 0 || b == 0 {
        0
    } else {
        choose|m: nat| is_lcm(a, b, m)
    }
}

/// `d` is positive and divides both `a` and `b`.
pub open spec fn is_common_divisor(a: nat, b: nat, d: nat) -> bool {
    &&& d > 0
    &&& a % d == 0
    &&& b % d == 0
}

/// `g` is the greatest number that divides both `a` and `b`.
pub open spec fn is_gcd(a: nat, b: nat, g: nat) -> bool {
    &&& is_common_divisor(a, b, g)
    &&& forall|d: nat| is_common_divisor(a, b, d) ==> d <= g
}

/// A multiple of a multiple of `a` is a multiple of `a`.
pub proof fn lemma_multiple_of_multiple(a: nat, m: nat, q: nat)
    requires
        a > 0,
        m % a == 0,
    ensures
        (q * m) % a == 0,
{
    lemma_mul_mod_noop_right(q as int, m as int, a as int);
    assert(q * 0 == 0);
    lemma_small_mod(0, a);
}

/// The difference of two multiples of `a` is a multiple of `a`.
pub proof fn lemma_difference_of_multiples(a: nat, x: nat, y: nat)
    requires
        a > 0,
        y <= x,
        x % a == 0,
        y % a == 0,
    ensures
        ((x - y) as nat) % a == 0,
{
    lemma_sub_mod_noop(x as int, y as int, a as int);
    lemma_small_mod(0, a);
}

/// A multiple of `a` is `a` times its quotient by `a`.
pub proof fn lemma_multiple_is_product(a: nat, m: nat)
    requires
        a > 0,
        m % a == 0,
    ensures
        m == a * (m / a),
{
    lemma_fundamental_div_mod(m as int, a as int);
}

/// Whenever two positive numbers have a common multiple, they have a least
/// one.
proof fn lemma_least_common_multiple_below(a: nat, b: nat, n: nat)
    requires
        is_common_multiple(a, b, n),
    ensures
        exists|m: nat| is_lcm(a, b, m),
    decreases n,
{
    if forall|k: nat| is_common_multiple(a, b, k) ==> n <= k {
        assert(is_lcm(a, b, n));
    } else {
        let k = choose|k: nat| is_common_multiple(a, b, k) && k < n;
        lemma_least_common_multiple_below(a, b, k);
    }
}

/// Two positive numbers have a least common multiple, and `lcm` names it.
pub proof fn lemma_lcm_exists(a: nat, b: nat)
    requires
        a > 0,
        b > 0,
    ensures
        is_lcm(a, b, lcm(a, b)),
{
    lemma_mod_multiples_basic(a as int, b as int);
    lemma_mod_multiples_basic(b as int, a as int);
    assert(a * b == b * a) by (nonlinear_arith);
    assert(a * b > 0) by (nonlinear_arith)
        requires
            a > 0,
            b > 0,
    ;
    assert(is_common_multiple(a, b, a * b));
    lemma_least_common_multiple_below(a, b, a * b);
}

/// The least common multiple is unique.
pub proof fn lemma_lcm_unique(a: nat, b: nat, m: nat)
    requires
        is_lcm(a, b, m),
    ensures
        m == lcm(a, b),
{
    lemma_lcm_exists(a, b);
}

/// The least common multiple does not depend on the order of its
/// arguments.
pub proof fn lemma_lcm_commutes(a: nat, b: nat)
    ensures
        lcm(a, b) == lcm(b, a),
{
    if a > 0 && b > 0 {
        lemma_lcm_exists(a, b);
        lemma_lcm_exists(b, a);
        assert(is_common_multiple(a, b, lcm(b, a)));
        assert(is_common_multiple(b, a, lcm(a, b)));
    }
}

/// The least common multiple of one and a positive number is that number.
pub proof fn lemma_lcm_of_one(a: nat)
    requires
        a > 0,
    ensures
        lcm(1, a) == a,
{
    lemma_mod_self_0(a as int);
    assert(a % 1 == 0);
    assert forall|k: nat| is_common_multiple(1, a, k) implies a <= k by {
        if k < a {
            lemma_small_mod(k, a);
        }
    }
    lemma_lcm_unique(1, a, a);
}

/// Every common multiple of `a` and `b` is a multiple of their least common
/// multiple.
pub proof fn lemma_lcm_divides_common_multiples(a: nat, b: nat, k: nat)
    requires
        is_common_multiple(a, b, k),
    ensures
        k % lcm(a, b) == 0,
{
    lemma_lcm_exists(a, b);
    let m = lcm(a, b);
    let r = k % m;
    if r > 0 {
        let q = k / m;
        lemma_fundamental_div_mod(k as int, m as int);
        assert(m * q == q * m) by (nonlinear_arith);
        assert(r == k - q * m);
        lemma_multiple_of_multiple(a, m, q);
        lemma_multiple_of_multiple(b, m, q);
        lemma_difference_of_multiples(a, k, q * m);
        lemma_difference_of_multiples(b, k, q * m);
        assert(is_common_multiple(a, b, r));
        assert(r < m);
    }
}

/// The common divisors of `x` and `y` are those of `y` and `x % y`.
proof fn lemma_euclid_step(x: nat, y: nat, d: nat)
    requires
        y > 0,
        d > 0,
    ensures
        is_common_divisor(x, y, d) <==> is_common_divisor(y, x % y, d),
{
    let q = x / y;
    let r = x % y;
    lemma_fundamental_div_mod(x as int, y as int);
    assert(y * q == q * y) by (nonlinear_arith);
    assert(x == q * y + r);
    if y % d == 0 {
        lemma_multiple_of_multiple(d, y, q);
        if x % d == 0 {
            lemma_difference_of_multiples(d, x, q * y);
        }
        if r % d == 0 {
            lemma_add_mod_noop((q * y) as int, r as int, d as int);
            lemma_small_mod(0, d);
        }
    }
}

/// A positive number is the greatest divisor of itself.
proof fn lemma_gcd_with_zero(x: nat)
    requires
        x > 0,
    ensures
        is_gcd(x, 0, x),
{
    lemma_mod_self_0(x as int);
    lemma_small_mod(0, x);
    assert forall|d: nat| is_common_divisor(x, 0, d) implies d <= x by {
        if d > x {
            lemma_small_mod(x, d);
        }
    }
}

/// With `g` the greatest common divisor of `a` and `b`, their least common
/// multiple is `a / g * b`.
pub proof fn lemma_lcm_from_gcd(a: nat, b: nat, g: nat)
    requires
        a > 0,
        b > 0,
        is_gcd(a, b, g),
    ensures
        lcm(a, b) == (a / g) * b,
{
    let p = a / g;
    let q = b / g;
    let l = p * b;
    lemma_multiple_is_product(g, a);
    lemma_multiple_is_product(g, b);
    assert(l == a * q) by (nonlinear_arith)
        requires
            l == p * b,
            a == g * p,
            b == g * q,
    ;
    assert(p > 0) by (nonlinear_arith)
        requires
            a == g * p,
            a > 0,
    ;
    assert(l > 0) by (nonlinear_arith)
        requires
            l == p * b,
            p > 0,
            b > 0,
    ;
    lemma_mod_multiples_basic(p as int, b as int);
    lemma_mod_multiples_basic(q as int, a as int);
    assert(a * q == q * a) by (nonlinear_arith);
    assert(is_common_multiple(a, b, l));

    lemma_lcm_exists(a, b);
    let m = lcm(a, b);
    assert(m <= l);
    // The quotient of `a * b` by `m` divides both `a` and `b`.
    lemma_mod_multiples_basic(a as int, b as int);
    lemma_mod_multiples_basic(b as int, a as int);
    assert(a * b == b * a) by (nonlinear_arith);
    assert(a * b > 0) by (nonlinear_arith)
        requires
            a > 0,
            b > 0,
    ;
    assert(is_common_multiple(a, b, a * b));
    lemma_lcm_divides_common_multiples(a, b, a * b);
    let d = (a * b) / m;
    lemma_multiple_is_product(m, a * b);
    let ma = m / a;
    let mb = m / b;
    lemma_multiple_is_product(a, m);
    lemma_multiple_is_product(b, m);
    assert(d > 0) by (nonlinear_arith)
        requires
            a * b == m * d,
            a * b > 0,
    ;
    assert(a == d * mb) by (nonlinear_arith)
        requires
            a * b == m * d,
            m == b * mb,
            b > 0,
    ;
    assert(b == d * ma) by (nonlinear_arith)
        requires
            a * b == m * d,
            m == a * ma,
            a > 0,
    ;
    lemma_mod_multiples_basic(mb as int, d as int);
    lemma_mod_multiples_basic(ma as int, d as int);
    assert(d * mb == mb * d) by (nonlinear_arith);
    assert(d * ma == ma * d) by (nonlinear_arith);
    assert(is_common_divisor(a, b, d));
    assert(d <= g);
    assert(l <= m) by (nonlinear_arith)
        requires
            l == p * b,
            a == g * p,
            a * b == m * d,
            d <= g,
            g > 0,
    ;
}

/// The greatest common divisor of `a` and `b`, by Euclid's algorithm; zero
/// when both are zero, where every number is a common divisor.
pub fn gcd_u64(a: u64, b: u64) -> (g: u64)
    ensures
        a > 0 || b > 0 ==> is_gcd(a as nat, b as nat, g as nat),
        a == 0 && b == 0 ==> g == 0,
{
    let mut x: u64 = a;
    let mut y: u64 = b;
    while y != 0
        invariant
            (x > 0 || y > 0) <==> (a > 0 || b > 0),
            forall|d: nat|
                is_common_divisor(x as nat, y as nat, d) <==> is_common_divisor(
                    a as nat,
                    b as nat,
                    d,
                ),
        decreases y,
    {
        let r: u64 = x % y;
        proof {
            assert forall|d: nat|
                is_common_divisor(y as nat, r as nat, d) <==> is_common_divisor(
                    a as nat,
                    b as nat,
                    d,
                ) by {
                if d > 0 {
                    lemma_euclid_step(x as nat, y as nat, d);
                }
            }
        }
        x = y;
        y = r;
    }
    proof {
        if x > 0 {
            lemma_gcd_with_zero(x as nat);
        }
    }
    x
}

/// Calls `num_integer::lcm` on two `u64` values. That function returns zero
/// when both arguments are zero and otherwise `a * (b / gcd(a, b))`, computed
/// in `u64`: the least common multiple of `a` and `b` (zero when one of them
/// is zero), provided that it fits the type, which is what `requires` asks.
#[verifier::external_body]
pub(crate) fn lcm_u64(a: u64, b: u64) -> (m: u64)
    requires
        lcm(a as nat, b as nat) <= u64::MAX,
    ensures
        m == lcm(a as nat, b as nat),
{
    num_integer::lcm(a, b)
}

/// The least common multiple of `a` and `b` (zero when either is zero), or
/// `None` when it does not fit in a `u64`.
pub fn checked_lcm(a: u64, b: u64) -> (r: Option<u64>)
    ensures
        match r {
            Some(m) => m == lcm(a as nat, b as nat),
            None => lcm(a as nat, b as nat) > u64::MAX,
        },
{
    if a == 0 || b == 0 {
        return Some(lcm_u64(a, b));
    }
    let g: u64 = gcd_u64(a, b);
    proof {
        lemma_lcm_from_gcd(a as nat, b as nat, g as nat);
    }
    match (a / g).checked_mul(b) {
        Some(_) => Some(lcm_u64(a, b)),
        None => None,
    }
}

} // verus!
