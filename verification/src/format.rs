//! Pretty-printing of values: an integer as a bare decimal, a canonical
//! rational as `numerator/denominator`, and the two zero-denominator
//! sentinels as distinct markers — `undefined` for the indeterminate `0/0`
//! and `infinity` for the saturating `MAX/1`. `Absence` must never reach
//! the printer; callers check for it and suppress output.

use vstd::prelude::*;
use crate::value::Value;
use crate::value::val_wf;
use crate::rationals::abs_nat;
use crate::rationals::abs_u64;

verus! {

/// The decimal digit character for `d`.
pub open spec fn digit_char(d: nat) -> char {
    ((48 + d) as u8) as char
}

/// The decimal digits of `n`, most significant first.
pub open spec fn dec_digits(n: nat) -> Seq<char>
    decreases n,
{
    if n < 10 {
        seq![digit_char(n)]
    } else {
        dec_digits(n / 10) + seq![digit_char(n % 10)]
    }
}

/// The decimal rendering of a signed integer.
pub open spec fn int_str(x: int) -> Seq<char> {
    if x >= 0 {
        dec_digits(x as nat)
    } else {
        seq!['-'] + dec_digits((-x) as nat)
    }
}

/// The distinct marker of the indeterminate sentinel.
pub open spec fn undefined_str() -> Seq<char> {
    seq!['u', 'n', 'd', 'e', 'f', 'i', 'n', 'e', 'd']
}

/// The distinct marker of the saturating infinity sentinel.
pub open spec fn infinity_str() -> Seq<char> {
    seq!['i', 'n', 'f', 'i', 'n', 'i', 't', 'y']
}

/// What a value prints as. `Absence` is excluded by the printer's
/// precondition; here it renders as the empty sequence.
pub open spec fn val_str(v: Value) -> Seq<char> {
    match v {
        Value::Integer(x) => int_str(x as int),
        Value::Rational(r) => if r.over == 0 && r.under == 0 {
            undefined_str()
        } else if r.over == i64::MAX && r.under == 1 {
            infinity_str()
        } else {
            int_str(r.over as int) + seq!['/'] + dec_digits(r.under as nat)
        },
        Value::Absence => Seq::empty(),
    }
}

/// The decimal digit character for `d`, executably.
fn digit_str(d: u64) -> (s: &'static str)
    requires
        d <= 9,
    ensures
        s@ =~= seq![digit_char(d as nat)],
{
    proof {
        reveal_strlit("0");
        reveal_strlit("1");
        reveal_strlit("2");
        reveal_strlit("3");
        reveal_strlit("4");
        reveal_strlit("5");
        reveal_strlit("6");
        reveal_strlit("7");
        reveal_strlit("8");
        reveal_strlit("9");
    }
    if d == 0 {
        "0"
    } else if d == 1 {
        "1"
    } else if d == 2 {
        "2"
    } else if d == 3 {
        "3"
    } else if d == 4 {
        "4"
    } else if d == 5 {
        "5"
    } else if d == 6 {
        "6"
    } else if d == 7 {
        "7"
    } else if d == 8 {
        "8"
    } else {
        "9"
    }
}

/// The decimal rendering of a `u64`; the executable mirror of
/// `dec_digits`.
pub fn u64_dec(n: u64) -> (s: String)
    ensures
        s@ == dec_digits(n as nat),
    decreases n,
{
    if n < 10 {
        String::from_str(digit_str(n))
    } else {
        let mut s = u64_dec(n / 10);
        s.append(digit_str(n % 10));
        s
    }
}

/// The decimal rendering of an `i64`; the executable mirror of `int_str`.
pub fn i64_dec(x: i64) -> (s: String)
    ensures
        s@ == int_str(x as int),
{
    if x >= 0 {
        u64_dec(x as u64)
    } else {
        proof {
            reveal_strlit("-");
        }
        let mut s = String::from_str("-");
        let m = abs_u64(x);
        s.append(u64_dec(m).as_str());
        proof {
            assert(s@ =~= int_str(x as int));
        }
        s
    }
}

/// Render a value for the user; the executable mirror of `val_str`. The
/// value must be well-formed and printable: `Absence` never reaches the
/// printer.
pub fn format_value(v: &Value) -> (s: String)
    requires
        val_wf(*v),
        !(*v is Absence),
    ensures
        s@ == val_str(*v),
{
    match v {
        Value::Integer(x) => i64_dec(*x),
        Value::Rational(r) => {
            if r.over == 0 && r.under == 0 {
                proof {
                    reveal_strlit("undefined");
                }
                let s = String::from_str("undefined");
                proof {
                    assert(s@ =~= undefined_str());
                }
                s
            } else if r.over == i64::MAX && r.under == 1 {
                proof {
                    reveal_strlit("infinity");
                }
                let s = String::from_str("infinity");
                proof {
                    assert(s@ =~= infinity_str());
                }
                s
            } else {
                proof {
                    reveal_strlit("/");
                }
                let mut s = i64_dec(r.over);
                s.append("/");
                s.append(u64_dec(r.under as u64).as_str());
                proof {
                    assert(s@ =~= val_str(*v));
                }
                s
            }
        },
        Value::Absence => String::new(),
    }
}

} // verus!
