//! Greatest-common-divisor arithmetic used to bring fractions to lowest terms.

use vstd::prelude::*;
use vstd::arithmetic::div_mod::lemma_fundamental_div_mod;
use vstd::arithmetic::div_mod::lemma_fundamental_div_mod_converse;
use vstd::arithmetic::div_mod::lemma_mod_multiples_basic;

verus! {

/// Greatest common divisor of two naturals by Euclid's rule;
/// `spec_gcd(a, 0) == a`, so `spec_gcd(0, 0) == 0`.
pub open spec fn spec_gcd(a: nat, b: nat) -> nat
    decreases b,
{
    if b == 0 {
        a
    } else {
        spec_gcd(b, a % b)
    }
}

/// The gcd of two naturals that are not both zero is positive.
pub proof fn lemma_gcd_pos(a: nat, b: nat)
    requires
        a > 0 || b > 0,
    ensures
        spec_gcd(a, b) > 0,
    decreases b,
{
    if b > 0 {
        lemma_gcd_pos(b, a % b);
    }
}

/// The gcd of two naturals divides both of them.
pub proof fn lemma_gcd_divides(a: nat, b: nat)
    requires
        a > 0 || b > 0,
    ensures
        spec_gcd(a, b) > 0,
        a % spec_gcd(a, b) == 0,
        b % spec_gcd(a, b) == 0,
    decreases b,
{
    lemma_gcd_pos(a, b);
    let g = spec_gcd(a, b);
    if b == 0 {
        lemma_mod_multiples_basic(1, a as int);
        lemma_mod_multiples_basic(0, a as int);
    } else {
        lemma_gcd_divides(b, a % b);
        // b and a % b are both multiples of g, hence so is a.
        lemma_fundamental_div_mod(a as int, b as int);
        lemma_fundamental_div_mod(b as int, g as int);
        lemma_fundamental_div_mod((a % b) as int, g as int);
        let qb = b as int / g as int;
        let qr = (a % b) as int / g as int;
        let q0 = a as int / b as int;
        let q = q0 * qb + qr;
        assert(a as int == q * g as int) by (nonlinear_arith)
            requires
                a as int == (b as int) * q0 + (a % b) as int,
                b as int == (g as int) * qb,
                (a % b) as int == (g as int) * qr,
                q == q0 * qb + qr,
        ;
        lemma_mod_multiples_basic(q, g as int);
    }
}

/// Scaling both arguments scales the gcd: `gcd(k*a, k*b) == k * gcd(a, b)`.
pub proof fn lemma_gcd_scale(k: nat, a: nat, b: nat)
    requires
        k > 0,
    ensures
        spec_gcd(k * a, k * b) == k * spec_gcd(a, b),
    decreases b,
{
    if b == 0 {
        assert(k * b == 0) by (nonlinear_arith)
            requires b == 0,
        ;
    } else {
        assert(k * b > 0) by (nonlinear_arith)
            requires k > 0, b > 0,
        ;
        // (k*a) % (k*b) == k * (a % b)
        lemma_fundamental_div_mod(a as int, b as int);
        let q = a as int / b as int;
        let r = (a % b) as int;
        assert(k * a as int == q * (k * b as int) + k * r) by (nonlinear_arith)
            requires a as int == q * (b as int) + r,
        ;
        assert(0 <= k * r < k * b as int) by (nonlinear_arith)
            requires k > 0, 0 <= r < b as int,
        ;
        lemma_fundamental_div_mod_converse(k * a as int, k * b as int, q, k * r);
        assert((k * a) % (k * b) == k * (a % b));
        lemma_gcd_scale(k, b, a % b);
    }
}

/// Dividing two naturals by their gcd leaves numbers whose gcd is one.
pub proof fn lemma_gcd_coprime(a: nat, b: nat)
    requires
        a > 0 || b > 0,
    ensures
        spec_gcd(a, b) > 0,
        spec_gcd(a / spec_gcd(a, b), b / spec_gcd(a, b)) == 1,
{
    lemma_gcd_divides(a, b);
    let g = spec_gcd(a, b);
    lemma_fundamental_div_mod(a as int, g as int);
    lemma_fundamental_div_mod(b as int, g as int);
    let qa = a / g;
    let qb = b / g;
    assert(a == g * qa && b == g * qb);
    lemma_gcd_scale(g, qa, qb);
    assert(g * spec_gcd(qa, qb) == g * 1 ==> spec_gcd(qa, qb) == 1) by (nonlinear_arith)
        requires g > 0,
    ;
    if qa == 0 && qb == 0 {
        assert(g * qa == 0) by (nonlinear_arith)
            requires qa == 0,
        ;
        assert(g * qb == 0) by (nonlinear_arith)
            requires qb == 0,
        ;
        assert(false);
    }
    lemma_gcd_pos(qa, qb);
}

/// If `b` divides `a`, the gcd of `a` and `b` is `b` itself.
pub proof fn lemma_gcd_of_multiple(a: nat, b: nat)
    requires
        b > 0,
        a % b == 0,
    ensures
        spec_gcd(a, b) == b,
{
    assert(spec_gcd(a, b) == spec_gcd(b, 0));
    assert(spec_gcd(b, 0) == b);
}

/// Euclid's algorithm; the executable mirror of `spec_gcd`.
pub fn gcd(a: u64, b: u64) -> (g: u64)
    ensures
        g == spec_gcd(a as nat, b as nat),
{
    let mut x: u64 = a;
    let mut y: u64 = b;
    while y != 0
        invariant
            spec_gcd(x as nat, y as nat) == spec_gcd(a as nat, b as nat),
        decreases y,
    {
        let t: u64 = x % y;
        x = y;
        y = t;
    }
    x
}

} // verus!
