//! The evaluable numeric domain: a closed tagged union over exact integers,
//! exact rationals and the absence-of-value marker, with the promotion rules
//! for binary arithmetic between them.
//!
//! Integer op Integer stays an integer, except inexact division, which turns
//! rational; anything involving a rational stays rational. Every rational
//! result is reduced to canonical form before it is returned. Division by an
//! exact zero is not an error: it yields the zero-denominator sentinels of
//! the rational reduction. Results outside the 64-bit range are reported as
//! an overflow error.

use vstd::prelude::*;
use crate::math::spec_gcd;
use crate::math::lemma_gcd_divides;
use crate::math::lemma_gcd_coprime;
use crate::rationals::Rationals;
use crate::rationals::abs_nat;
use crate::rationals::rat_canonical;
use crate::rationals::spec_reduce_parts;
use crate::rationals::abs_u64;

verus! {

/// A value of the numeric domain. `Absence` is what a statement that
/// produces nothing printable (an assignment) evaluates to.
#[derive(Debug, Clone, Copy, PartialEq)]
pub enum Value {
    Integer(i64),
    Rational(Rationals),
    Absence,
}

/// Why an evaluation step failed.
#[derive(Debug, PartialEq)]
pub enum EvalError {
    /// An identifier was not bound in the environment; carries the name.
    UnknownIdentifier(String),
    /// `Absence` was used as an operand.
    AbsentOperand,
    /// A result does not fit in the 64-bit domain.
    Overflow,
}

/// Ghost mirror of `EvalError`, with the name as a character sequence.
pub enum EvalErrorV {
    UnknownIdentifier(Seq<char>),
    AbsentOperand,
    Overflow,
}

impl View for EvalError {
    type V = EvalErrorV;

    open spec fn view(&self) -> EvalErrorV {
        match self {
            EvalError::UnknownIdentifier(name) => EvalErrorV::UnknownIdentifier(name@),
            EvalError::AbsentOperand => EvalErrorV::AbsentOperand,
            EvalError::Overflow => EvalErrorV::Overflow,
        }
    }
}

/// Well-formed values carry only canonical rationals. All arithmetic
/// results, and everything the interpreter stores, satisfy this.
pub open spec fn val_wf(v: Value) -> bool {
    match v {
        Value::Rational(r) => rat_canonical(r),
        _ => true,
    }
}

/// Whether an integer fits the signed 64-bit range.
pub open spec fn fits_i64(x: int) -> bool {
    i64::MIN <= x <= i64::MAX
}

/// Reduce the exact fraction `num/den` and return it as a value, or an
/// overflow error when the canonical parts leave the 64-bit range.
pub open spec fn spec_make_rat(num: int, den: int) -> Result<Value, EvalError> {
    let (o, u) = spec_reduce_parts(num, den);
    if fits_i64(o) && fits_i64(u) {
        Ok(Value::Rational(Rationals { under: u as i64, over: o as i64 }))
    } else {
        Err(EvalError::Overflow)
    }
}

/// Addition under the promotion rules.
pub open spec fn spec_add_values(a: Value, b: Value) -> Result<Value, EvalError> {
    match (a, b) {
        (Value::Integer(x), Value::Integer(y)) => if fits_i64(x + y) {
            Ok(Value::Integer((x + y) as i64))
        } else {
            Err(EvalError::Overflow)
        },
        (Value::Integer(x), Value::Rational(r)) => spec_make_rat(
            x * r.under + r.over,
            r.under as int,
        ),
        (Value::Rational(r), Value::Integer(y)) => spec_make_rat(
            r.over + y * r.under,
            r.under as int,
        ),
        (Value::Rational(p), Value::Rational(q)) => spec_make_rat(
            p.over * q.under + q.over * p.under,
            p.under * q.under,
        ),
        _ => Err(EvalError::AbsentOperand),
    }
}

/// Subtraction under the promotion rules.
pub open spec fn spec_sub_values(a: Value, b: Value) -> Result<Value, EvalError> {
    match (a, b) {
        (Value::Integer(x), Value::Integer(y)) => if fits_i64(x - y) {
            Ok(Value::Integer((x - y) as i64))
        } else {
            Err(EvalError::Overflow)
        },
        (Value::Integer(x), Value::Rational(r)) => spec_make_rat(
            x * r.under - r.over,
            r.under as int,
        ),
        (Value::Rational(r), Value::Integer(y)) => spec_make_rat(
            r.over - y * r.under,
            r.under as int,
        ),
        (Value::Rational(p), Value::Rational(q)) => spec_make_rat(
            p.over * q.under - q.over * p.under,
            p.under * q.under,
        ),
        _ => Err(EvalError::AbsentOperand),
    }
}

/// Multiplication under the promotion rules.
pub open spec fn spec_mul_values(a: Value, b: Value) -> Result<Value, EvalError> {
    match (a, b) {
        (Value::Integer(x), Value::Integer(y)) => if fits_i64(x * y) {
            Ok(Value::Integer((x * y) as i64))
        } else {
            Err(EvalError::Overflow)
        },
        (Value::Integer(x), Value::Rational(r)) => spec_make_rat(x * r.over, r.under as int),
        (Value::Rational(r), Value::Integer(y)) => spec_make_rat(r.over * y, r.under as int),
        (Value::Rational(p), Value::Rational(q)) => spec_make_rat(
            p.over * q.over,
            p.under * q.under,
        ),
        _ => Err(EvalError::AbsentOperand),
    }
}

/// Division under the promotion rules: integer division is exact or turns
/// rational, and a zero divisor routes through the sentinel reduction.
pub open spec fn spec_div_values(a: Value, b: Value) -> Result<Value, EvalError> {
    match (a, b) {
        (Value::Integer(x), Value::Integer(y)) => if y != 0 && abs_nat(x as int) % abs_nat(
            y as int,
        ) == 0 {
            let q = if (x < 0) == (y < 0) {
                abs_nat(x as int) as int / abs_nat(y as int) as int
            } else {
                -(abs_nat(x as int) as int / abs_nat(y as int) as int)
            };
            if fits_i64(q) {
                Ok(Value::Integer(q as i64))
            } else {
                Err(EvalError::Overflow)
            }
        } else {
            spec_make_rat(x as int, y as int)
        },
        (Value::Integer(x), Value::Rational(r)) => spec_make_rat(x * r.under, r.over as int),
        (Value::Rational(r), Value::Integer(y)) => spec_make_rat(r.over as int, r.under * y),
        (Value::Rational(p), Value::Rational(q)) => spec_make_rat(
            p.over * q.under,
            p.under * q.over,
        ),
        _ => Err(EvalError::AbsentOperand),
    }
}

/// Arithmetic negation.
pub open spec fn spec_neg_value(a: Value) -> Result<Value, EvalError> {
    match a {
        Value::Integer(x) => if fits_i64(-x) {
            Ok(Value::Integer((-x) as i64))
        } else {
            Err(EvalError::Overflow)
        },
        Value::Rational(r) => spec_make_rat(-r.over, r.under as int),
        Value::Absence => Err(EvalError::AbsentOperand),
    }
}

/// Magnitude of an `i128` as a `u128`.
fn abs_u128(x: i128) -> (r: u128)
    ensures
        r == abs_nat(x as int),
{
    if x >= 0 {
        x as u128
    } else {
        ((-(x + 1)) as u128) + 1
    }
}

/// Euclid's algorithm at 128 bits, for reducing cross products.
fn gcd_u128(a: u128, b: u128) -> (g: u128)
    ensures
        g == spec_gcd(a as nat, b as nat),
{
    let mut x: u128 = a;
    let mut y: u128 = b;
    while y != 0
        invariant
            spec_gcd(x as nat, y as nat) == spec_gcd(a as nat, b as nat),
        decreases y,
    {
        let t: u128 = x % y;
        x = y;
        y = t;
    }
    x
}

/// Reduce the exact fraction `num/den` to a canonical rational value, or
/// report overflow; the executable mirror of `spec_make_rat`.
pub(crate) fn reduce_i128(num: i128, den: i128) -> (r: Result<Value, EvalError>)
    ensures
        r == spec_make_rat(num as int, den as int),
        r matches Ok(v) ==> val_wf(v),
{
    proof {
        assert(spec_gcd(0, 1) == spec_gcd(1, 0));
        assert(spec_gcd(i64::MAX as nat, 1) == spec_gcd(1, 0));
    }
    if num == 0 && den == 0 {
        Ok(Value::Rational(Rationals { under: 0, over: 0 }))
    } else if num == 0 {
        Ok(Value::Rational(Rationals { under: 1, over: 0 }))
    } else if den == 0 {
        Ok(Value::Rational(Rationals { under: 1, over: i64::MAX }))
    } else {
        let mn: u128 = abs_u128(num);
        let md: u128 = abs_u128(den);
        proof {
            lemma_gcd_divides(mn as nat, md as nat);
            lemma_gcd_coprime(mn as nat, md as nat);
        }
        let g: u128 = gcd_u128(mn, md);
        let qo: u128 = mn / g;
        let qu: u128 = md / g;
        proof {
            vstd::arithmetic::div_mod::lemma_div_nonincreasing(mn as int, g as int);
            vstd::arithmetic::div_mod::lemma_div_nonincreasing(md as int, g as int);
            vstd::arithmetic::div_mod::lemma_div_pos_is_pos(md as int, g as int);
            vstd::arithmetic::div_mod::lemma_fundamental_div_mod(md as int, g as int);
            assert((md as int) / (g as int) > 0) by (nonlinear_arith)
                requires
                    md as int == (g as int) * ((md as int) / (g as int)),
                    md > 0,
                    g > 0,
            ;
        }
        if qu > i64::MAX as u128 {
            Err(EvalError::Overflow)
        } else if (num < 0) != (den < 0) {
            if qo > 0x8000_0000_0000_0000u128 {
                Err(EvalError::Overflow)
            } else {
                let over: i64 = (-(qo as i128)) as i64;
                proof {
                    assert(abs_nat(over as int) == qo as nat);
                }
                Ok(Value::Rational(Rationals { under: qu as i64, over }))
            }
        } else {
            if qo > i64::MAX as u128 {
                Err(EvalError::Overflow)
            } else {
                Ok(Value::Rational(Rationals { under: qu as i64, over: qo as i64 }))
            }
        }
    }
}

/// Cross products of well-formed rational parts stay far inside `i128`.
/// A zero denominator only occurs on the `0/0` sentinel, whose numerator is
/// zero as well.
proof fn lemma_cross_bounds(ao: int, au: int, bo: int, bu: int)
    requires
        i64::MIN <= ao <= i64::MAX,
        i64::MIN <= bo <= i64::MAX,
        0 <= au <= i64::MAX,
        0 <= bu <= i64::MAX,
        au == 0 ==> ao == 0,
        bu == 0 ==> bo == 0,
    ensures
        -0x4000_0000_0000_0000_0000_0000_0000_0000 < ao * bu
            < 0x4000_0000_0000_0000_0000_0000_0000_0000,
        -0x4000_0000_0000_0000_0000_0000_0000_0000 < bo * au
            < 0x4000_0000_0000_0000_0000_0000_0000_0000,
        0 <= au * bu < 0x4000_0000_0000_0000_0000_0000_0000_0000,
{
    assert((-0x4000_0000_0000_0000_0000_0000_0000_0000 < ao * bu
        < 0x4000_0000_0000_0000_0000_0000_0000_0000)
        && (-0x4000_0000_0000_0000_0000_0000_0000_0000 < bo * au
        < 0x4000_0000_0000_0000_0000_0000_0000_0000)
        && (0 <= au * bu < 0x4000_0000_0000_0000_0000_0000_0000_0000)) by (nonlinear_arith)
        requires
            -0x8000_0000_0000_0000 <= ao <= 0x7fff_ffff_ffff_ffff,
            -0x8000_0000_0000_0000 <= bo <= 0x7fff_ffff_ffff_ffff,
            0 <= au <= 0x7fff_ffff_ffff_ffff,
            0 <= bu <= 0x7fff_ffff_ffff_ffff,
    ;
}

/// Add two values; the executable mirror of `spec_add_values`.
pub fn add_values(a: &Value, b: &Value) -> (r: Result<Value, EvalError>)
    requires
        val_wf(*a),
        val_wf(*b),
    ensures
        r == spec_add_values(*a, *b),
        r matches Ok(v) ==> val_wf(v),
{
    match (a, b) {
        (Value::Integer(x), Value::Integer(y)) => {
            let s: i128 = (*x as i128) + (*y as i128);
            if i64::MIN as i128 <= s && s <= i64::MAX as i128 {
                Ok(Value::Integer(s as i64))
            } else {
                Err(EvalError::Overflow)
            }
        },
        (Value::Integer(x), Value::Rational(r)) => {
            proof {
                lemma_cross_bounds(*x as int, 1, r.over as int, r.under as int);
            }
            reduce_i128((*x as i128) * (r.under as i128) + (r.over as i128), r.under as i128)
        },
        (Value::Rational(r), Value::Integer(y)) => {
            proof {
                lemma_cross_bounds(r.over as int, r.under as int, *y as int, 1);
            }
            reduce_i128((r.over as i128) + (*y as i128) * (r.under as i128), r.under as i128)
        },
        (Value::Rational(p), Value::Rational(q)) => {
            proof {
                lemma_cross_bounds(p.over as int, p.under as int, q.over as int, q.under as int);
            }
            reduce_i128(
                (p.over as i128) * (q.under as i128) + (q.over as i128) * (p.under as i128),
                (p.under as i128) * (q.under as i128),
            )
        },
        _ => Err(EvalError::AbsentOperand),
    }
}

/// Subtract two values; the executable mirror of `spec_sub_values`.
pub fn sub_values(a: &Value, b: &Value) -> (r: Result<Value, EvalError>)
    requires
        val_wf(*a),
        val_wf(*b),
    ensures
        r == spec_sub_values(*a, *b),
        r matches Ok(v) ==> val_wf(v),
{
    match (a, b) {
        (Value::Integer(x), Value::Integer(y)) => {
            let s: i128 = (*x as i128) - (*y as i128);
            if i64::MIN as i128 <= s && s <= i64::MAX as i128 {
                Ok(Value::Integer(s as i64))
            } else {
                Err(EvalError::Overflow)
            }
        },
        (Value::Integer(x), Value::Rational(r)) => {
            proof {
                lemma_cross_bounds(*x as int, 1, r.over as int, r.under as int);
            }
            reduce_i128((*x as i128) * (r.under as i128) - (r.over as i128), r.under as i128)
        },
        (Value::Rational(r), Value::Integer(y)) => {
            proof {
                lemma_cross_bounds(r.over as int, r.under as int, *y as int, 1);
            }
            reduce_i128((r.over as i128) - (*y as i128) * (r.under as i128), r.under as i128)
        },
        (Value::Rational(p), Value::Rational(q)) => {
            proof {
                lemma_cross_bounds(p.over as int, p.under as int, q.over as int, q.under as int);
            }
            reduce_i128(
                (p.over as i128) * (q.under as i128) - (q.over as i128) * (p.under as i128),
                (p.under as i128) * (q.under as i128),
            )
        },
        _ => Err(EvalError::AbsentOperand),
    }
}

/// Multiply two values; the executable mirror of `spec_mul_values`.
pub fn mul_values(a: &Value, b: &Value) -> (r: Result<Value, EvalError>)
    requires
        val_wf(*a),
        val_wf(*b),
    ensures
        r == spec_mul_values(*a, *b),
        r matches Ok(v) ==> val_wf(v),
{
    match (a, b) {
        (Value::Integer(x), Value::Integer(y)) => {
            proof {
                crate::rationals::lemma_i64_prod_fits(*x as int, *y as int);
            }
            let s: i128 = (*x as i128) * (*y as i128);
            if i64::MIN as i128 <= s && s <= i64::MAX as i128 {
                Ok(Value::Integer(s as i64))
            } else {
                Err(EvalError::Overflow)
            }
        },
        (Value::Integer(x), Value::Rational(r)) => {
            proof {
                crate::rationals::lemma_i64_prod_fits(*x as int, r.over as int);
            }
            reduce_i128((*x as i128) * (r.over as i128), r.under as i128)
        },
        (Value::Rational(r), Value::Integer(y)) => {
            proof {
                crate::rationals::lemma_i64_prod_fits(r.over as int, *y as int);
            }
            reduce_i128((r.over as i128) * (*y as i128), r.under as i128)
        },
        (Value::Rational(p), Value::Rational(q)) => {
            proof {
                crate::rationals::lemma_i64_prod_fits(p.over as int, q.over as int);
                crate::rationals::lemma_i64_prod_fits(p.under as int, q.under as int);
            }
            reduce_i128(
                (p.over as i128) * (q.over as i128),
                (p.under as i128) * (q.under as i128),
            )
        },
        _ => Err(EvalError::AbsentOperand),
    }
}

/// Divide two values; the executable mirror of `spec_div_values`.
pub fn div_values(a: &Value, b: &Value) -> (r: Result<Value, EvalError>)
    requires
        val_wf(*a),
        val_wf(*b),
    ensures
        r == spec_div_values(*a, *b),
        r matches Ok(v) ==> val_wf(v),
{
    match (a, b) {
        (Value::Integer(x), Value::Integer(y)) => {
            if *y == 0 {
                reduce_i128(*x as i128, 0)
            } else {
                let mx: u64 = abs_u64(*x);
                let my: u64 = abs_u64(*y);
                if mx % my == 0 {
                    let qm: u64 = mx / my;
                    proof {
                        vstd::arithmetic::div_mod::lemma_div_nonincreasing(mx as int, my as int);
                    }
                    if (*x < 0) == (*y < 0) {
                        if qm <= i64::MAX as u64 {
                            Ok(Value::Integer(qm as i64))
                        } else {
                            Err(EvalError::Overflow)
                        }
                    } else {
                        Ok(Value::Integer((-(qm as i128)) as i64))
                    }
                } else {
                    reduce_i128(*x as i128, *y as i128)
                }
            }
        },
        (Value::Integer(x), Value::Rational(r)) => {
            proof {
                crate::rationals::lemma_i64_prod_fits(*x as int, r.under as int);
            }
            reduce_i128((*x as i128) * (r.under as i128), r.over as i128)
        },
        (Value::Rational(r), Value::Integer(y)) => {
            proof {
                crate::rationals::lemma_i64_prod_fits(r.under as int, *y as int);
            }
            reduce_i128(r.over as i128, (r.under as i128) * (*y as i128))
        },
        (Value::Rational(p), Value::Rational(q)) => {
            proof {
                crate::rationals::lemma_i64_prod_fits(p.over as int, q.under as int);
                crate::rationals::lemma_i64_prod_fits(p.under as int, q.over as int);
            }
            reduce_i128(
                (p.over as i128) * (q.under as i128),
                (p.under as i128) * (q.over as i128),
            )
        },
        _ => Err(EvalError::AbsentOperand),
    }
}

/// Negate a value; the executable mirror of `spec_neg_value`.
pub fn neg_value(a: &Value) -> (r: Result<Value, EvalError>)
    requires
        val_wf(*a),
    ensures
        r == spec_neg_value(*a),
        r matches Ok(v) ==> val_wf(v),
{
    match a {
        Value::Integer(x) => {
            if *x == i64::MIN {
                Err(EvalError::Overflow)
            } else {
                Ok(Value::Integer(-*x))
            }
        },
        Value::Rational(r) => reduce_i128(-(r.over as i128), r.under as i128),
        Value::Absence => Err(EvalError::AbsentOperand),
    }
}

} // verus!
