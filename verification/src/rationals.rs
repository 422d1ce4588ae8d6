//! Exact fractions over 64-bit integers: construction, scaling to a common
//! denominator, reduction to a canonical form, and value-based equality and
//! ordering.
//!
//! A `Rationals` value carries a numerator (`over`) and a denominator
//! (`under`) with no invariant on construction; `reduce` canonicalizes.
//! Zero denominators are not errors: `0/0` reduces to the indeterminate
//! sentinel `0/0`, and `n/0` (n nonzero) reduces to the saturating infinity
//! sentinel `MAX/1`, losing the numerator's sign.

use vstd::prelude::*;
use core::cmp::Ordering;
use crate::math::gcd;
use crate::math::spec_gcd;
use crate::math::lemma_gcd_divides;
use crate::math::lemma_gcd_coprime;

verus! {

/// An exact fraction: `over` is the numerator, `under` the denominator.
#[derive(Debug, Clone, Copy)]
pub struct Rationals {
    pub under: i64,
    pub over: i64,
}

/// Magnitude of an integer, as a natural.
pub open spec fn abs_nat(x: int) -> nat {
    if x >= 0 {
        x as nat
    } else {
        (-x) as nat
    }
}

/// Value equality of two fractions given as numerator/denominator parts:
/// equal denominators compare numerators directly; a zero denominator makes
/// a fraction comparable only to one with the same denominator; otherwise
/// cross-multiplication decides.
pub open spec fn rat_eq_frac(ao: int, au: int, bo: int, bu: int) -> bool {
    if au == bu {
        ao == bo
    } else if au == 0 || bu == 0 {
        false
    } else {
        ao * bu == bo * au
    }
}

/// Value equality of two `Rationals`; this is what `==` means.
pub open spec fn rat_eq(a: Rationals, b: Rationals) -> bool {
    rat_eq_frac(a.over as int, a.under as int, b.over as int, b.under as int)
}

/// True fraction comparison: cross-multiply and compare, with the direction
/// flipped when exactly one denominator is negative. Fractions with a zero
/// denominator order against nothing except their structural equals.
pub open spec fn rat_cmp(a: Rationals, b: Rationals) -> Option<Ordering> {
    if a.under == 0 && b.under == 0 {
        if a.over == b.over {
            Some(Ordering::Equal)
        } else {
            None
        }
    } else if a.under == 0 || b.under == 0 {
        None
    } else {
        let l = (a.over as int) * (b.under as int);
        let r = (b.over as int) * (a.under as int);
        let flip = (a.under < 0) != (b.under < 0);
        if l == r {
            Some(Ordering::Equal)
        } else if (l < r) != flip {
            Some(Ordering::Less)
        } else {
            Some(Ordering::Greater)
        }
    }
}

/// Canonical form of a fraction given as parts: the sentinel cases of the
/// reduction, or division of both parts by their gcd with the sign carried
/// by the numerator.
pub open spec fn spec_reduce_parts(over: int, under: int) -> (int, int) {
    if over == 0 && under == 0 {
        (0int, 0int)
    } else if over == 0 {
        (0int, 1int)
    } else if under == 0 {
        (i64::MAX as int, 1int)
    } else {
        let g = spec_gcd(abs_nat(over), abs_nat(under)) as int;
        let q = abs_nat(over) as int / g;
        let o = if (over < 0) == (under < 0) {
            q
        } else {
            -q
        };
        (o, abs_nat(under) as int / g)
    }
}

/// Canonical form of a `Rationals`.
pub open spec fn spec_reduce(r: Rationals) -> Rationals {
    let (o, u) = spec_reduce_parts(r.over as int, r.under as int);
    Rationals { under: u as i64, over: o as i64 }
}

/// A fraction is canonical when it is the `0/0` sentinel or has a positive
/// denominator coprime with the numerator's magnitude.
pub open spec fn rat_canonical(r: Rationals) -> bool {
    (r.over == 0 && r.under == 0) || (r.under >= 1 && spec_gcd(
        abs_nat(r.over as int),
        r.under as nat,
    ) == 1)
}

/// Products of two `i64`s stay within `i128`.
pub proof fn lemma_i64_prod_fits(x: int, y: int)
    requires
        i64::MIN <= x <= i64::MAX,
        i64::MIN <= y <= i64::MAX,
    ensures
        i128::MIN < x * y < i128::MAX,
{
    assert(i128::MIN < x * y < i128::MAX) by (nonlinear_arith)
        requires
            -0x8000_0000_0000_0000 <= x <= 0x7fff_ffff_ffff_ffff,
            -0x8000_0000_0000_0000 <= y <= 0x7fff_ffff_ffff_ffff,
    ;
}

impl Rationals {
    /// Store the parts as given, unreduced.
    pub fn new(under: i64, over: i64) -> (r: Self)
        ensures
            r.under == under,
            r.over == over,
    {
        Rationals { under, over }
    }

    /// Multiply numerator and denominator by `n`; for nonzero `n` and a
    /// nonzero denominator the result is value-equal to `self`.
    pub fn put_to_denominator(&self, n: i64) -> (r: Self)
        requires
            i64::MIN <= self.under * n <= i64::MAX,
            i64::MIN <= self.over * n <= i64::MAX,
        ensures
            r.under == self.under * n,
            r.over == self.over * n,
            n != 0 && self.under != 0 ==> rat_eq(r, *self),
    {
        proof {
            if n != 0 && self.under != 0 {
                lemma_scale_preserves_value(self.over as int, self.under as int, n as int);
            }
        }
        Rationals { under: self.under * n, over: self.over * n }
    }

    /// Canonicalize: `0/0` stays the indeterminate sentinel, a zero numerator
    /// becomes `0/1`, a zero denominator becomes the `MAX/1` infinity
    /// sentinel, and otherwise both parts are divided by their gcd with the
    /// sign normalized onto the numerator. The preconditions only exclude
    /// inputs whose canonical parts cannot be represented in an `i64`.
    pub fn reduce(self) -> (r: Self)
        requires
            i64::MIN <= spec_reduce_parts(self.over as int, self.under as int).0 <= i64::MAX,
            spec_reduce_parts(self.over as int, self.under as int).1 <= i64::MAX,
        ensures
            r == spec_reduce(self),
            rat_canonical(r),
    {
        let a = self.over;
        let b = self.under;
        proof {
            assert(spec_gcd(0, 1) == spec_gcd(1, 0));
            assert(spec_gcd(i64::MAX as nat, 1) == spec_gcd(1, 0));
        }
        if a == 0 && b == 0 {
            Rationals { under: 0, over: 0 }
        } else if a == 0 {
            Rationals { under: 1, over: 0 }
        } else if b == 0 {
            Rationals { under: 1, over: i64::MAX }
        } else {
            let ma: u64 = abs_u64(a);
            let mb: u64 = abs_u64(b);
            proof {
                lemma_gcd_divides(ma as nat, mb as nat);
                lemma_gcd_coprime(ma as nat, mb as nat);
            }
            let g: u64 = gcd(ma, mb);
            let qo: u64 = ma / g;
            let qu: u64 = mb / g;
            proof {
                vstd::arithmetic::div_mod::lemma_div_nonincreasing(ma as int, g as int);
                vstd::arithmetic::div_mod::lemma_div_nonincreasing(mb as int, g as int);
                vstd::arithmetic::div_mod::lemma_div_pos_is_pos(mb as int, g as int);
                vstd::arithmetic::div_mod::lemma_fundamental_div_mod(mb as int, g as int);
                assert((mb as int) / (g as int) > 0) by (nonlinear_arith)
                    requires
                        mb as int == (g as int) * ((mb as int) / (g as int)),
                        mb > 0,
                        g > 0,
                ;
            }
            let over: i64 = if (a < 0) != (b < 0) {
                (-(qo as i128)) as i64
            } else {
                qo as i64
            };
            proof {
                assert(abs_nat(over as int) == qo as nat);
                assert(spec_gcd(qo as nat, qu as nat) == 1);
            }
            Rationals { under: qu as i64, over }
        }
    }
}

/// Convert an `i64` to its magnitude as a `u64`.
pub fn abs_u64(x: i64) -> (r: u64)
    ensures
        r == abs_nat(x as int),
{
    if x >= 0 {
        x as u64
    } else {
        (-(x as i128)) as u64
    }
}

impl PartialEq for Rationals {
    fn eq(&self, other: &Self) -> (r: bool) {
        if self.under == other.under {
            self.over == other.over
        } else if self.under == 0 || other.under == 0 {
            false
        } else {
            proof {
                lemma_i64_prod_fits(self.over as int, other.under as int);
                lemma_i64_prod_fits(other.over as int, self.under as int);
            }
            let l: i128 = (self.over as i128) * (other.under as i128);
            let r2: i128 = (other.over as i128) * (self.under as i128);
            l == r2
        }
    }

    fn ne(&self, other: &Self) -> (r: bool) {
        !self.eq(other)
    }
}

impl vstd::std_specs::cmp::PartialEqSpecImpl for Rationals {
    open spec fn obeys_eq_spec() -> bool {
        true
    }

    open spec fn eq_spec(&self, other: &Self) -> bool {
        rat_eq(*self, *other)
    }
}

impl PartialOrd for Rationals {
    fn partial_cmp(&self, other: &Self) -> (r: Option<Ordering>) {
        if self.under == 0 && other.under == 0 {
            if self.over == other.over {
                Some(Ordering::Equal)
            } else {
                None
            }
        } else if self.under == 0 || other.under == 0 {
            None
        } else {
            proof {
                lemma_i64_prod_fits(self.over as int, other.under as int);
                lemma_i64_prod_fits(other.over as int, self.under as int);
            }
            let l: i128 = (self.over as i128) * (other.under as i128);
            let r2: i128 = (other.over as i128) * (self.under as i128);
            let flip: bool = (self.under < 0) != (other.under < 0);
            if l == r2 {
                Some(Ordering::Equal)
            } else if (l < r2) != flip {
                Some(Ordering::Less)
            } else {
                Some(Ordering::Greater)
            }
        }
    }

    fn le(&self, other: &Self) -> (r: bool) {
        match self.partial_cmp(other) {
            Some(Ordering::Less) => true,
            Some(Ordering::Equal) => true,
            _ => false,
        }
    }

    fn ge(&self, other: &Self) -> (r: bool) {
        match self.partial_cmp(other) {
            Some(Ordering::Greater) => true,
            Some(Ordering::Equal) => true,
            _ => false,
        }
    }
}

impl vstd::std_specs::cmp::PartialOrdSpecImpl for Rationals {
    open spec fn obeys_partial_cmp_spec() -> bool {
        true
    }

    open spec fn partial_cmp_spec(&self, other: &Self) -> Option<Ordering> {
        rat_cmp(*self, *other)
    }
}

/// For parts of ordinary magnitude — anything but `i64::MIN` — the
/// canonical parts stay in range, so `reduce` accepts the fraction.
pub proof fn lemma_reduce_in_range(over: int, under: int)
    requires
        -0x7fff_ffff_ffff_ffff <= over <= 0x7fff_ffff_ffff_ffff,
        -0x7fff_ffff_ffff_ffff <= under <= 0x7fff_ffff_ffff_ffff,
    ensures
        i64::MIN <= spec_reduce_parts(over, under).0 <= i64::MAX,
        0 <= spec_reduce_parts(over, under).1 <= i64::MAX,
{
    if over != 0 && under != 0 {
        let ma = abs_nat(over);
        let mb = abs_nat(under);
        lemma_gcd_divides(ma, mb);
        let g = spec_gcd(ma, mb) as int;
        vstd::arithmetic::div_mod::lemma_div_nonincreasing(ma as int, g);
        vstd::arithmetic::div_mod::lemma_div_nonincreasing(mb as int, g);
        vstd::arithmetic::div_mod::lemma_div_pos_is_pos(ma as int, g);
        vstd::arithmetic::div_mod::lemma_div_pos_is_pos(mb as int, g);
    }
}

/// Scaling numerator and denominator by one nonzero factor preserves the
/// fraction's value.
pub proof fn lemma_scale_preserves_value(o: int, u: int, n: int)
    requires
        u != 0,
        n != 0,
    ensures
        rat_eq_frac(o * n, u * n, o, u),
{
    assert(u * n != 0) by (nonlinear_arith)
        requires
            u != 0,
            n != 0,
    ;
    if u * n == u {
        assert(o * n == o) by (nonlinear_arith)
            requires
                u * n == u,
                u != 0,
                n != 0,
        ;
    } else {
        assert((o * n) * u == o * (u * n)) by (nonlinear_arith);
    }
}

/// Value equality is reflexive, sentinels included.
pub proof fn lemma_eq_reflexive(x: Rationals)
    ensures
        rat_eq(x, x),
{
}

/// The ordering is true fraction comparison: for nonzero denominators the
/// result is `Greater` exactly when the sign-adjusted cross products say so,
/// and `Equal` exactly when the fractions are value-equal. With positive
/// denominators this is the plain cross-multiplication test.
pub proof fn lemma_cmp_true_fraction(x: Rationals, y: Rationals)
    requires
        x.under != 0,
        y.under != 0,
    ensures
        rat_cmp(x, y) is Some,
        rat_cmp(x, y) == Some(Ordering::Greater) <==> ((x.over as int) * (y.under as int) - (
        y.over as int) * (x.under as int)) * ((x.under as int) * (y.under as int)) > 0,
        rat_cmp(x, y) == Some(Ordering::Equal) <==> rat_eq(x, y),
        x.under > 0 && y.under > 0 ==> (rat_cmp(x, y) == Some(Ordering::Greater) <==> (
        x.over as int) * (y.under as int) > (y.over as int) * (x.under as int)),
{
    let xo = x.over as int;
    let xu = x.under as int;
    let yo = y.over as int;
    let yu = y.under as int;
    let l = xo * yu;
    let r = yo * xu;
    let p = xu * yu;
    let flip = (x.under < 0) != (y.under < 0);
    assert(flip <==> p < 0) by (nonlinear_arith)
        requires
            xu != 0,
            yu != 0,
            p == xu * yu,
            flip == ((xu < 0) != (yu < 0)),
    ;
    assert(p != 0) by (nonlinear_arith)
        requires
            xu != 0,
            yu != 0,
            p == xu * yu,
    ;
    assert((l - r) * p > 0 <==> (if p > 0 {
        l > r
    } else {
        l < r
    })) by (nonlinear_arith)
        requires
            p != 0,
    ;
    if x.under == y.under {
        assert(l == r <==> xo == yo) by (nonlinear_arith)
            requires
                l == xo * yu,
                r == yo * xu,
                xu == yu,
                xu != 0,
        ;
    }
}

/// Reducing a fraction with a zero denominator and a nonzero numerator gives
/// the saturating infinity sentinel `MAX/1`, whatever the numerator's sign.
pub proof fn lemma_reduce_zero_denominator(x: Rationals)
    requires
        x.under == 0,
        x.over != 0,
    ensures
        spec_reduce(x) == (Rationals { under: 1, over: i64::MAX }),
{
}

} // verus!
