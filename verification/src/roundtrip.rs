//! The print/read round trip: formatting an integer value, or a canonical
//! rational value with a denominator of at least two, and evaluating the
//! printed text gives back exactly the original value, with the
//! environment untouched.

use vstd::prelude::*;
use vstd::arithmetic::div_mod::lemma_fundamental_div_mod;
use crate::math::spec_gcd;
use crate::math::lemma_gcd_of_multiple;
use crate::rationals::Rationals;
use crate::rationals::abs_nat;
use crate::rationals::rat_canonical;
use crate::rationals::spec_reduce_parts;
use crate::value::Value;
use crate::value::spec_make_rat;
use crate::value::spec_div_values;
use crate::value::spec_neg_value;
use crate::value::fits_i64;
use crate::lexer::TokenV;
use crate::lexer::OpSymbol;
use crate::lexer::LexError;
use crate::lexer::is_digit;
use crate::lexer::is_ident_char;
use crate::lexer::is_space;
use crate::lexer::digit_val;
use crate::lexer::scan_int;
use crate::lexer::lex_from;
use crate::lexer::lex_spec;
use crate::lexer::cons_tok;
use crate::parser::ExprV;
use crate::parser::UnOp;
use crate::parser::BinOp;
use crate::parser::ParseError;
use crate::parser::parse_spec;
use crate::parser::parse_expr;
use crate::parser::parse_additive;
use crate::parser::parse_additive_rest;
use crate::parser::parse_mul;
use crate::parser::parse_mul_rest;
use crate::parser::parse_unary;
use crate::parser::parse_primary;
use crate::interp::eval_spec;
use crate::format::digit_char;
use crate::format::dec_digits;
use crate::format::int_str;
use crate::format::val_str;
use crate::CalcErrorV;
use crate::evaluate_spec;

verus! {

/// Powers of ten.
spec fn pow10(k: nat) -> nat
    decreases k,
{
    if k == 0 {
        1nat
    } else {
        10 * pow10((k - 1) as nat)
    }
}

/// A digit character is a digit and nothing else the lexer branches on.
proof fn lemma_digit_char_facts(d: nat)
    requires
        d <= 9,
    ensures
        is_digit(digit_char(d)),
        digit_val(digit_char(d)) == d,
        !is_space(digit_char(d)),
        !is_ident_char(digit_char(d)),
        digit_char(d) != '.',
        digit_char(d) != '/',
        digit_char(d) != '-',
{
    assert(digit_char(d) as u32 == 48 + d);
}

/// Every character of a decimal rendering is a digit, and there is at
/// least one.
proof fn lemma_dec_digits_are_digits(n: nat)
    ensures
        dec_digits(n).len() >= 1,
        forall|k: int|
            0 <= k < dec_digits(n).len() ==> is_digit(#[trigger] dec_digits(n)[k])
                && !is_space(dec_digits(n)[k]) && !is_ident_char(dec_digits(n)[k])
                && dec_digits(n)[k] != '.' && dec_digits(n)[k] != '/' && dec_digits(n)[k]
                != '-',
    decreases n,
{
    if n < 10 {
        lemma_digit_char_facts(n);
    } else {
        lemma_dec_digits_are_digits(n / 10);
        lemma_digit_char_facts(n % 10);
    }
}

/// Scanning the decimal rendering of `n` from accumulator `a` lands just
/// past it with `a * 10^len + n` accumulated, never overflowing.
proof fn lemma_scan_digits(s: Seq<char>, i: int, n: nat, a: u64)
    requires
        0 <= i,
        i + dec_digits(n).len() <= s.len(),
        forall|k: int|
            0 <= k < dec_digits(n).len() ==> s[i + k] == #[trigger] dec_digits(n)[k],
        (a as nat) * pow10(dec_digits(n).len()) + n <= u64::MAX as nat,
    ensures
        scan_int(s, i, Some(a)) == scan_int(
            s,
            i + dec_digits(n).len(),
            Some((((a as nat) * pow10(dec_digits(n).len()) + n) as u64)),
        ),
    decreases n,
{
    let ll = dec_digits(n).len();
    assert(pow10(0) == 1);
    if n < 10 {
        lemma_digit_char_facts(n);
        assert(ll == 1);
        assert(pow10(1) == 10);
        assert(s[i] == digit_char(n)) by {
            assert(s[i + 0] == dec_digits(n)[0]);
        }
        let d = digit_val(s[i]);
        assert(d == n);
        // The guard `a <= (u64::MAX - d) / 10` holds exactly when
        // `a * 10 + d` stays in range.
        lemma_fundamental_div_mod((u64::MAX - d) as int, 10);
        assert((a as nat) * 10 + n <= u64::MAX as nat) by (nonlinear_arith)
            requires
                (a as nat) * pow10(1nat) + n <= u64::MAX as nat,
                pow10(1nat) == 10,
        ;
        assert(a as int <= ((u64::MAX - d) as int) / 10) by (nonlinear_arith)
            requires
                (a as int) * 10 + d as int <= u64::MAX as int,
                (u64::MAX - d) as int == 10 * (((u64::MAX - d) as int) / 10) + ((u64::MAX
                    - d) as int) % 10,
                0 <= ((u64::MAX - d) as int) % 10 < 10,
        ;
        assert(scan_int(s, i, Some(a)) == scan_int(s, i + 1, Some((a * 10 + d) as u64)));
        assert((a * 10 + d) as u64 == ((a as nat) * pow10(1nat) + n) as u64);
    } else {
        let n1 = n / 10;
        let d0 = dec_digits(n1);
        let l1 = d0.len();
        assert(dec_digits(n) == d0 + seq![digit_char(n % 10)]);
        assert(ll == l1 + 1);
        assert(pow10(ll) == 10 * pow10(l1));
        lemma_fundamental_div_mod(n as int, 10);
        // The prefix bound for the inductive call.
        let a1n = (a as nat) * pow10(l1) + n1;
        assert(a1n * 10 + n % 10 == (a as nat) * pow10(ll) + n) by (nonlinear_arith)
            requires
                a1n == (a as nat) * pow10(l1) + n1,
                pow10(ll) == 10 * pow10(l1),
                n as int == 10 * (n1 as int) + (n % 10) as int,
        ;
        assert(a1n <= u64::MAX as nat) by (nonlinear_arith)
            requires
                a1n * 10 + n % 10 == (a as nat) * pow10(ll) + n,
                (a as nat) * pow10(ll) + n <= u64::MAX as nat,
        ;
        assert forall|k: int| 0 <= k < l1 implies s[i + k] == #[trigger] d0[k] by {
            assert(s[i + k] == dec_digits(n)[k]);
            assert(dec_digits(n)[k] == d0[k]);
        }
        lemma_scan_digits(s, i, n1, a);
        let a1 = (a1n) as u64;
        // One more digit: the last one.
        let j = i + l1;
        assert(s[j] == digit_char(n % 10)) by {
            assert(s[i + l1 as int] == dec_digits(n)[l1 as int]);
            assert(dec_digits(n)[l1 as int] == digit_char(n % 10));
        }
        lemma_digit_char_facts(n % 10);
        let d = digit_val(s[j]);
        assert(d == n % 10);
        lemma_fundamental_div_mod((u64::MAX - d) as int, 10);
        assert(a1 as int <= ((u64::MAX - d) as int) / 10) by (nonlinear_arith)
            requires
                (a1 as int) * 10 + d as int <= u64::MAX as int,
                (u64::MAX - d) as int == 10 * (((u64::MAX - d) as int) / 10) + ((u64::MAX
                    - d) as int) % 10,
                0 <= ((u64::MAX - d) as int) % 10 < 10,
        ;
        assert(scan_int(s, j, Some(a1)) == scan_int(s, j + 1, Some((a1 * 10 + d) as u64)));
        assert((a1 * 10 + d) as u64 == (((a as nat) * pow10(ll) + n) as u64));
    }
}

/// Lexing at the start of a decimal rendering takes exactly its digits as
/// one integer number token, provided no digit or dot follows.
proof fn lemma_lex_digits_token(s: Seq<char>, i: int, n: nat)
    requires
        0 <= i,
        i + dec_digits(n).len() <= s.len(),
        forall|k: int|
            0 <= k < dec_digits(n).len() ==> s[i + k] == #[trigger] dec_digits(n)[k],
        n <= u64::MAX as nat,
        i + dec_digits(n).len() == s.len() || (!is_digit(s[i + dec_digits(n).len()]) && s[i
            + dec_digits(n).len()] != '.'),
    ensures
        lex_from(s, i) == cons_tok(
            TokenV::Number { num: n as u64, den: 1 },
            lex_from(s, i + dec_digits(n).len()),
        ),
{
    let ll = dec_digits(n).len();
    lemma_dec_digits_are_digits(n);
    assert(s[i] == dec_digits(n)[0]);
    assert(pow10(0) == 1);
    lemma_scan_digits(s, i, n, 0);
    assert((0 as nat) * pow10(ll) + n == n) by (nonlinear_arith);
    // Past the digits the scan stops.
    assert(scan_int(s, i + ll, Some(n as u64)) == (i + ll, Some(n as u64)));
    assert(scan_int(s, i, Some(0u64)) == (i + ll, Some(n as u64)));
}

/// The tokens of the decimal rendering of an integer.
proof fn lemma_lex_int_str(x: i64)
    requires
        x != i64::MIN,
    ensures
        x >= 0 ==> lex_spec(int_str(x as int)) == Ok::<Seq<TokenV>, LexError>(
            seq![
                TokenV::Number { num: x as u64, den: 1 },
                TokenV::EndOfInput,
            ],
        ),
        x < 0 ==> lex_spec(int_str(x as int)) == Ok::<Seq<TokenV>, LexError>(
            seq![
                TokenV::Operator(OpSymbol::Minus),
                TokenV::Number { num: ((-x) as u64), den: 1 },
                TokenV::EndOfInput,
            ],
        ),
{
    let s = int_str(x as int);
    if x >= 0 {
        let n = x as nat;
        assert(s == dec_digits(n));
        lemma_lex_digits_token(s, 0, n);
        assert(lex_from(s, s.len() as int) == Ok::<Seq<TokenV>, LexError>(
            seq![TokenV::EndOfInput],
        ));
        assert(seq![TokenV::Number { num: x as u64, den: 1 }] + seq![TokenV::EndOfInput]
            =~= seq![TokenV::Number { num: x as u64, den: 1 }, TokenV::EndOfInput]);
    } else {
        let n = (-x) as nat;
        let d = dec_digits(n);
        assert(s == seq!['-'] + d);
        assert(s[0] == '-');
        assert(s.len() == 1 + d.len());
        assert(!is_space('-') && !is_digit('-') && !is_ident_char('-')) by {
            assert('-' as u32 == 45);
        }
        assert(lex_from(s, 0) == cons_tok(TokenV::Operator(OpSymbol::Minus), lex_from(s, 1)));
        assert(forall|k: int| 0 <= k < d.len() ==> s[1 + k] == #[trigger] d[k]);
        lemma_lex_digits_token(s, 1, n);
        assert(lex_from(s, s.len() as int) == Ok::<Seq<TokenV>, LexError>(
            seq![TokenV::EndOfInput],
        ));
        assert(seq![TokenV::Operator(OpSymbol::Minus)] + (seq![
            TokenV::Number { num: (-x) as u64, den: 1 },
        ] + seq![TokenV::EndOfInput]) =~= seq![
            TokenV::Operator(OpSymbol::Minus),
            TokenV::Number { num: ((-x) as u64), den: 1 },
            TokenV::EndOfInput,
        ]);
    }
}

/// Parsing a lone integer literal token list.
proof fn lemma_parse_int_tokens(x: i64)
    requires
        0 <= x,
    ensures
        parse_spec(seq![TokenV::Number { num: x as u64, den: 1 }, TokenV::EndOfInput])
            == Ok::<ExprV, ParseError>(ExprV::Literal(Value::Integer(x))),
{
    let ts = seq![TokenV::Number { num: x as u64, den: 1 }, TokenV::EndOfInput];
    let lit = ExprV::Literal(Value::Integer(x));
    assert(parse_primary(ts, 0) == Ok::<(ExprV, int), ParseError>((lit, 1)));
    assert(parse_unary(ts, 0) == Ok::<(ExprV, int), ParseError>((lit, 1)));
    assert(parse_mul_rest(ts, 1, lit) == Ok::<(ExprV, int), ParseError>((lit, 1)));
    assert(parse_mul(ts, 0) == Ok::<(ExprV, int), ParseError>((lit, 1)));
    assert(parse_additive_rest(ts, 1, lit) == Ok::<(ExprV, int), ParseError>((lit, 1)));
    assert(parse_additive(ts, 0) == Ok::<(ExprV, int), ParseError>((lit, 1)));
    assert(parse_expr(ts, 0) == Ok::<(ExprV, int), ParseError>((lit, 1)));
}

/// Parsing a minus sign before an integer literal.
proof fn lemma_parse_neg_int_tokens(nx: u64)
    requires
        nx <= i64::MAX as u64,
    ensures
        parse_spec(
            seq![
                TokenV::Operator(OpSymbol::Minus),
                TokenV::Number { num: nx, den: 1 },
                TokenV::EndOfInput,
            ],
        ) == Ok::<ExprV, ParseError>(
            ExprV::Unary(UnOp::Neg, Box::new(ExprV::Literal(Value::Integer(nx as i64)))),
        ),
{
    let ts = seq![
        TokenV::Operator(OpSymbol::Minus),
        TokenV::Number { num: nx, den: 1 },
        TokenV::EndOfInput,
    ];
    let lit = ExprV::Literal(Value::Integer(nx as i64));
    let neg = ExprV::Unary(UnOp::Neg, Box::new(lit));
    assert(parse_primary(ts, 1) == Ok::<(ExprV, int), ParseError>((lit, 2)));
    assert(parse_unary(ts, 1) == Ok::<(ExprV, int), ParseError>((lit, 2)));
    assert(parse_unary(ts, 0) == Ok::<(ExprV, int), ParseError>((neg, 2)));
    assert(parse_mul_rest(ts, 2, neg) == Ok::<(ExprV, int), ParseError>((neg, 2)));
    assert(parse_mul(ts, 0) == Ok::<(ExprV, int), ParseError>((neg, 2)));
    assert(parse_additive_rest(ts, 2, neg) == Ok::<(ExprV, int), ParseError>((neg, 2)));
    assert(parse_additive(ts, 0) == Ok::<(ExprV, int), ParseError>((neg, 2)));
    assert(parse_expr(ts, 0) == Ok::<(ExprV, int), ParseError>((neg, 2)));
}

/// The tokens of the printed form of a non-sentinel canonical rational.
proof fn lemma_lex_rat_str(r: Rationals)
    requires
        r.over != 0,
        r.over != i64::MIN,
        2 <= r.under,
    ensures
        r.over > 0 ==> lex_spec(
            int_str(r.over as int) + seq!['/'] + dec_digits(r.under as nat),
        ) == Ok::<Seq<TokenV>, LexError>(
            seq![
                TokenV::Number { num: r.over as u64, den: 1 },
                TokenV::Operator(OpSymbol::Slash),
                TokenV::Number { num: r.under as u64, den: 1 },
                TokenV::EndOfInput,
            ],
        ),
        r.over < 0 ==> lex_spec(
            int_str(r.over as int) + seq!['/'] + dec_digits(r.under as nat),
        ) == Ok::<Seq<TokenV>, LexError>(
            seq![
                TokenV::Operator(OpSymbol::Minus),
                TokenV::Number { num: (-r.over) as u64, den: 1 },
                TokenV::Operator(OpSymbol::Slash),
                TokenV::Number { num: r.under as u64, den: 1 },
                TokenV::EndOfInput,
            ],
        ),
{
    let s = int_str(r.over as int) + seq!['/'] + dec_digits(r.under as nat);
    let du = dec_digits(r.under as nat);
    let lu = du.len();
    assert('/' as u32 == 47);
    assert(!is_space('/') && !is_digit('/') && !is_ident_char('/'));
    assert('-' as u32 == 45);
    assert(!is_space('-') && !is_digit('-') && !is_ident_char('-'));
    if r.over > 0 {
        let mo = r.over as nat;
        let d0 = dec_digits(mo);
        let l0 = d0.len();
        assert(int_str(r.over as int) == d0);
        assert(s.len() == l0 + 1 + lu);
        assert forall|k: int| 0 <= k < l0 implies s[0 + k] == #[trigger] d0[k] by {}
        assert(s[l0 as int] == '/');
        lemma_lex_digits_token(s, 0, mo);
        assert(lex_from(s, l0 as int) == cons_tok(
            TokenV::Operator(OpSymbol::Slash),
            lex_from(s, l0 as int + 1),
        ));
        assert forall|k: int| 0 <= k < lu implies s[l0 + 1 + k] == #[trigger] du[k] by {}
        lemma_lex_digits_token(s, l0 as int + 1, r.under as nat);
        assert(lex_from(s, s.len() as int) == Ok::<Seq<TokenV>, LexError>(
            seq![TokenV::EndOfInput],
        ));
        assert(seq![TokenV::Number { num: r.over as u64, den: 1 }] + (seq![
            TokenV::Operator(OpSymbol::Slash),
        ] + (seq![TokenV::Number { num: r.under as u64, den: 1 }] + seq![
            TokenV::EndOfInput,
        ])) =~= seq![
            TokenV::Number { num: r.over as u64, den: 1 },
            TokenV::Operator(OpSymbol::Slash),
            TokenV::Number { num: r.under as u64, den: 1 },
            TokenV::EndOfInput,
        ]);
    } else {
        let mo = (-r.over) as nat;
        let d0 = dec_digits(mo);
        let l0 = d0.len();
        assert(int_str(r.over as int) == seq!['-'] + d0);
        assert(s.len() == 1 + l0 + 1 + lu);
        assert(s[0] == '-');
        assert(lex_from(s, 0) == cons_tok(TokenV::Operator(OpSymbol::Minus), lex_from(s, 1)));
        assert forall|k: int| 0 <= k < l0 implies s[1 + k] == #[trigger] d0[k] by {}
        assert(s[1 + l0 as int] == '/');
        lemma_lex_digits_token(s, 1, mo);
        assert(lex_from(s, 1 + l0 as int) == cons_tok(
            TokenV::Operator(OpSymbol::Slash),
            lex_from(s, 2 + l0 as int),
        ));
        assert forall|k: int| 0 <= k < lu implies s[1 + l0 + 1 + k] == #[trigger] du[k] by {}
        lemma_lex_digits_token(s, 2 + l0 as int, r.under as nat);
        assert(lex_from(s, s.len() as int) == Ok::<Seq<TokenV>, LexError>(
            seq![TokenV::EndOfInput],
        ));
        assert(seq![TokenV::Operator(OpSymbol::Minus)] + (seq![
            TokenV::Number { num: mo as u64, den: 1 },
        ] + (seq![TokenV::Operator(OpSymbol::Slash)] + (seq![
            TokenV::Number { num: r.under as u64, den: 1 },
        ] + seq![TokenV::EndOfInput]))) =~= seq![
            TokenV::Operator(OpSymbol::Minus),
            TokenV::Number { num: ((-r.over) as u64), den: 1 },
            TokenV::Operator(OpSymbol::Slash),
            TokenV::Number { num: r.under as u64, den: 1 },
            TokenV::EndOfInput,
        ]);
    }
}

/// Parsing `a / b` from tokens.
proof fn lemma_parse_div_tokens(a: u64, b: u64)
    requires
        a <= i64::MAX as u64,
        b <= i64::MAX as u64,
    ensures
        parse_spec(
            seq![
                TokenV::Number { num: a, den: 1 },
                TokenV::Operator(OpSymbol::Slash),
                TokenV::Number { num: b, den: 1 },
                TokenV::EndOfInput,
            ],
        ) == Ok::<ExprV, ParseError>(
            ExprV::Binary(
                BinOp::Div,
                Box::new(ExprV::Literal(Value::Integer(a as i64))),
                Box::new(ExprV::Literal(Value::Integer(b as i64))),
            ),
        ),
{
    let ts = seq![
        TokenV::Number { num: a, den: 1 },
        TokenV::Operator(OpSymbol::Slash),
        TokenV::Number { num: b, den: 1 },
        TokenV::EndOfInput,
    ];
    let la = ExprV::Literal(Value::Integer(a as i64));
    let lb = ExprV::Literal(Value::Integer(b as i64));
    let bin = ExprV::Binary(BinOp::Div, Box::new(la), Box::new(lb));
    assert(parse_primary(ts, 0) == Ok::<(ExprV, int), ParseError>((la, 1)));
    assert(parse_unary(ts, 0) == Ok::<(ExprV, int), ParseError>((la, 1)));
    assert(parse_primary(ts, 2) == Ok::<(ExprV, int), ParseError>((lb, 3)));
    assert(parse_unary(ts, 2) == Ok::<(ExprV, int), ParseError>((lb, 3)));
    assert(parse_mul_rest(ts, 3, bin) == Ok::<(ExprV, int), ParseError>((bin, 3)));
    assert(parse_mul_rest(ts, 1, la) == Ok::<(ExprV, int), ParseError>((bin, 3)));
    assert(parse_mul(ts, 0) == Ok::<(ExprV, int), ParseError>((bin, 3)));
    assert(parse_additive_rest(ts, 3, bin) == Ok::<(ExprV, int), ParseError>((bin, 3)));
    assert(parse_additive(ts, 0) == Ok::<(ExprV, int), ParseError>((bin, 3)));
    assert(parse_expr(ts, 0) == Ok::<(ExprV, int), ParseError>((bin, 3)));
}

/// Parsing `- a / b` from tokens: the minus binds to the left literal.
proof fn lemma_parse_neg_div_tokens(a: u64, b: u64)
    requires
        a <= i64::MAX as u64,
        b <= i64::MAX as u64,
    ensures
        parse_spec(
            seq![
                TokenV::Operator(OpSymbol::Minus),
                TokenV::Number { num: a, den: 1 },
                TokenV::Operator(OpSymbol::Slash),
                TokenV::Number { num: b, den: 1 },
                TokenV::EndOfInput,
            ],
        ) == Ok::<ExprV, ParseError>(
            ExprV::Binary(
                BinOp::Div,
                Box::new(
                    ExprV::Unary(
                        UnOp::Neg,
                        Box::new(ExprV::Literal(Value::Integer(a as i64))),
                    ),
                ),
                Box::new(ExprV::Literal(Value::Integer(b as i64))),
            ),
        ),
{
    let ts = seq![
        TokenV::Operator(OpSymbol::Minus),
        TokenV::Number { num: a, den: 1 },
        TokenV::Operator(OpSymbol::Slash),
        TokenV::Number { num: b, den: 1 },
        TokenV::EndOfInput,
    ];
    let la = ExprV::Literal(Value::Integer(a as i64));
    let neg = ExprV::Unary(UnOp::Neg, Box::new(la));
    let lb = ExprV::Literal(Value::Integer(b as i64));
    let bin = ExprV::Binary(BinOp::Div, Box::new(neg), Box::new(lb));
    assert(parse_primary(ts, 1) == Ok::<(ExprV, int), ParseError>((la, 2)));
    assert(parse_unary(ts, 1) == Ok::<(ExprV, int), ParseError>((la, 2)));
    assert(parse_unary(ts, 0) == Ok::<(ExprV, int), ParseError>((neg, 2)));
    assert(parse_primary(ts, 3) == Ok::<(ExprV, int), ParseError>((lb, 4)));
    assert(parse_unary(ts, 3) == Ok::<(ExprV, int), ParseError>((lb, 4)));
    assert(parse_mul_rest(ts, 4, bin) == Ok::<(ExprV, int), ParseError>((bin, 4)));
    assert(parse_mul_rest(ts, 2, neg) == Ok::<(ExprV, int), ParseError>((bin, 4)));
    assert(parse_mul(ts, 0) == Ok::<(ExprV, int), ParseError>((bin, 4)));
    assert(parse_additive_rest(ts, 4, bin) == Ok::<(ExprV, int), ParseError>((bin, 4)));
    assert(parse_additive(ts, 0) == Ok::<(ExprV, int), ParseError>((bin, 4)));
    assert(parse_expr(ts, 0) == Ok::<(ExprV, int), ParseError>((bin, 4)));
}

/// Dividing a canonical rational's parts as integers gives the rational
/// back: the division is inexact and reduces to the original fraction.
proof fn lemma_div_recovers(r: Rationals)
    requires
        rat_canonical(r),
        2 <= r.under,
        r.over != i64::MIN,
        r.over != 0,
    ensures
        spec_div_values(Value::Integer(r.over), Value::Integer(r.under)) == Ok::<
            Value,
            crate::value::EvalError,
        >(Value::Rational(r)),
{
    let mo = abs_nat(r.over as int);
    let mu = abs_nat(r.under as int);
    assert(mu == r.under as nat);
    assert(spec_gcd(mo, mu) == 1);
    if mo % mu == 0 {
        lemma_gcd_of_multiple(mo, mu);
        assert(false);
    }
    // The fraction reduces onto itself: the gcd is one.
    lemma_fundamental_div_mod(mo as int, 1);
    lemma_fundamental_div_mod(mu as int, 1);
    assert(mo as int / 1 == mo as int);
    assert(mu as int / 1 == mu as int);
    assert(spec_reduce_parts(r.over as int, r.under as int) == (r.over as int, r.under as int));
    assert(fits_i64(r.over as int) && fits_i64(r.under as int));
    assert(spec_make_rat(r.over as int, r.under as int) == Ok::<Value, crate::value::EvalError>(
        Value::Rational(Rationals { under: r.under, over: r.over }),
    ));
    assert(Rationals { under: r.under, over: r.over } == r);
}

/// Formatting a canonical rational with a denominator of at least two and
/// evaluating the printed text yields the value back, in any environment,
/// which it leaves unchanged.
pub proof fn lemma_roundtrip_rational(r: Rationals, m: Map<Seq<char>, Value>)
    requires
        rat_canonical(r),
        2 <= r.under,
        r.over != i64::MIN,
    ensures
        evaluate_spec(val_str(Value::Rational(r)), m) == (
            Ok::<Value, CalcErrorV>(Value::Rational(r)),
            m,
        ),
{
    // A zero numerator cannot be coprime with a denominator of two or more.
    if r.over == 0 {
        assert(abs_nat(0) == 0);
        assert(0nat % (r.under as nat) == 0);
        assert(spec_gcd(0, r.under as nat) == spec_gcd(r.under as nat, 0));
        assert(false);
    }
    assert(val_str(Value::Rational(r)) == int_str(r.over as int) + seq!['/'] + dec_digits(
        r.under as nat,
    ));
    lemma_lex_rat_str(r);
    lemma_div_recovers(r);
    if r.over > 0 {
        lemma_parse_div_tokens(r.over as u64, r.under as u64);
        let la = ExprV::Literal(Value::Integer(r.over));
        let lb = ExprV::Literal(Value::Integer(r.under));
        let bin = ExprV::Binary(BinOp::Div, Box::new(la), Box::new(lb));
        assert(eval_spec(la, m) == (Ok::<Value, crate::value::EvalErrorV>(Value::Integer(r.over)), m));
        assert(eval_spec(lb, m) == (
            Ok::<Value, crate::value::EvalErrorV>(Value::Integer(r.under)),
            m,
        ));
        assert(eval_spec(bin, m) == (
            Ok::<Value, crate::value::EvalErrorV>(Value::Rational(r)),
            m,
        ));
    } else {
        let nx = (-r.over) as u64;
        lemma_parse_neg_div_tokens(nx, r.under as u64);
        let la = ExprV::Literal(Value::Integer(nx as i64));
        let neg = ExprV::Unary(UnOp::Neg, Box::new(la));
        let lb = ExprV::Literal(Value::Integer(r.under));
        let bin = ExprV::Binary(BinOp::Div, Box::new(neg), Box::new(lb));
        assert(spec_neg_value(Value::Integer(nx as i64)) == Ok::<
            Value,
            crate::value::EvalError,
        >(Value::Integer(r.over)));
        assert(eval_spec(la, m) == (
            Ok::<Value, crate::value::EvalErrorV>(Value::Integer(nx as i64)),
            m,
        ));
        assert(eval_spec(neg, m) == (
            Ok::<Value, crate::value::EvalErrorV>(Value::Integer(r.over)),
            m,
        ));
        assert(eval_spec(lb, m) == (
            Ok::<Value, crate::value::EvalErrorV>(Value::Integer(r.under)),
            m,
        ));
        assert(eval_spec(bin, m) == (
            Ok::<Value, crate::value::EvalErrorV>(Value::Rational(r)),
            m,
        ));
    }
}

/// Formatting an integer value and evaluating the printed text yields the
/// value back, in any environment, which it leaves unchanged.
pub proof fn lemma_roundtrip_integer(x: i64, m: Map<Seq<char>, Value>)
    requires
        x != i64::MIN,
    ensures
        evaluate_spec(val_str(Value::Integer(x)), m) == (
            Ok::<Value, CalcErrorV>(Value::Integer(x)),
            m,
        ),
{
    lemma_lex_int_str(x);
    if x >= 0 {
        lemma_parse_int_tokens(x);
        let lit = ExprV::Literal(Value::Integer(x));
        assert(eval_spec(lit, m) == (Ok::<Value, crate::value::EvalErrorV>(Value::Integer(x)), m));
    } else {
        let nx = (-x) as u64;
        lemma_parse_neg_int_tokens(nx);
        let lit = ExprV::Literal(Value::Integer(nx as i64));
        let neg = ExprV::Unary(UnOp::Neg, Box::new(lit));
        assert(eval_spec(lit, m) == (
            Ok::<Value, crate::value::EvalErrorV>(Value::Integer(nx as i64)),
            m,
        ));
        assert(spec_neg_value(Value::Integer(nx as i64)) == Ok::<Value, crate::value::EvalError>(
            Value::Integer(x),
        ));
        assert(eval_spec(neg, m) == (Ok::<Value, crate::value::EvalErrorV>(Value::Integer(x)), m));
    }
}

} // verus!
