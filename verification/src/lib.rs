//! An exact-arithmetic expression calculator: a line of text is lexed into
//! tokens, parsed into an expression tree, and evaluated against a mutable
//! variable environment, yielding a typed numeric value.

use vstd::prelude::*;

mod math;
mod rationals;
mod value;
mod env;
mod lexer;
mod parser;
mod interp;
mod format;
mod roundtrip;

pub use math::gcd;
pub use math::spec_gcd;
pub use rationals::Rationals;
pub use rationals::abs_nat;
pub use rationals::rat_eq;
pub use rationals::rat_eq_frac;
pub use rationals::rat_cmp;
pub use rationals::rat_canonical;
pub use rationals::spec_reduce;
pub use rationals::spec_reduce_parts;
pub use rationals::lemma_scale_preserves_value;
pub use rationals::lemma_eq_reflexive;
pub use rationals::lemma_cmp_true_fraction;
pub use rationals::lemma_reduce_zero_denominator;
pub use rationals::lemma_reduce_in_range;
pub use value::Value;
pub use value::EvalError;
pub use value::EvalErrorV;
pub use value::val_wf;
pub use value::fits_i64;
pub use value::spec_make_rat;
pub use value::spec_add_values;
pub use value::spec_sub_values;
pub use value::spec_mul_values;
pub use value::spec_div_values;
pub use value::spec_neg_value;
pub use value::add_values;
pub use value::sub_values;
pub use value::mul_values;
pub use value::div_values;
pub use value::neg_value;
pub use env::Environment;
pub use lexer::Token;
pub use lexer::TokenV;
pub use lexer::OpSymbol;
pub use lexer::PunctSymbol;
pub use lexer::LexError;
pub use lexer::lex;
pub use lexer::lex_spec;
pub use lexer::lex_from;
pub use lexer::lex_result_view;
pub use lexer::toks_view;
pub use lexer::is_digit;
pub use lexer::is_ident_char;
pub use lexer::is_space;
pub use lexer::digit_val;
pub use lexer::scan_int;
pub use lexer::scan_frac;
pub use lexer::ident_end;
pub use parser::Expr;
pub use parser::ExprV;
pub use parser::UnOp;
pub use parser::BinOp;
pub use parser::ParseError;
pub use parser::parse;
pub use parser::parse_spec;
pub use parser::parse_expr;
pub use parser::parse_additive;
pub use parser::parse_additive_rest;
pub use parser::parse_mul;
pub use parser::parse_mul_rest;
pub use parser::parse_unary;
pub use parser::parse_primary;
pub use parser::parse_result_view;
pub use parser::exprv_wf;
pub use interp::eval_expr;
pub use interp::eval_spec;
pub use interp::spec_apply_bin;
pub use interp::evres_view;
pub use format::format_value;
pub use format::val_str;
pub use format::int_str;
pub use format::dec_digits;
pub use format::digit_char;
pub use format::undefined_str;
pub use format::infinity_str;
pub use format::u64_dec;
pub use format::i64_dec;
pub use roundtrip::lemma_roundtrip_integer;
pub use roundtrip::lemma_roundtrip_rational;

verus! {

/// Why a line failed to evaluate: in the lexer, the parser, or the
/// interpreter. A failing line leaves the environment exactly as it was.
#[derive(Debug, PartialEq)]
pub enum CalcError {
    Lex(LexError),
    Parse(ParseError),
    Eval(EvalError),
}

/// Ghost mirror of `CalcError`.
pub enum CalcErrorV {
    Lex(LexError),
    Parse(ParseError),
    Eval(EvalErrorV),
}

impl View for CalcError {
    type V = CalcErrorV;

    open spec fn view(&self) -> CalcErrorV {
        match self {
            CalcError::Lex(e) => CalcErrorV::Lex(*e),
            CalcError::Parse(e) => CalcErrorV::Parse(*e),
            CalcError::Eval(e) => CalcErrorV::Eval(e@),
        }
    }
}

/// The view of a whole-line evaluation result.
pub open spec fn calc_result_view(r: Result<Value, CalcError>) -> Result<Value, CalcErrorV> {
    match r {
        Ok(v) => Ok(v),
        Err(e) => Err(e@),
    }
}

/// What one line does to a value and an environment mapping: lex, parse,
/// evaluate. On any error the mapping is unchanged.
pub open spec fn evaluate_spec(line: Seq<char>, m: Map<Seq<char>, Value>) -> (
    Result<Value, CalcErrorV>,
    Map<Seq<char>, Value>,
) {
    match lex_spec(line) {
        Err(le) => (Err(CalcErrorV::Lex(le)), m),
        Ok(toks) => match parse_spec(toks) {
            Err(pe) => (Err(CalcErrorV::Parse(pe)), m),
            Ok(e) => {
                let (r, m2) = eval_spec(e, m);
                match r {
                    Ok(v) => (Ok(v), m2),
                    Err(ee) => (Err(CalcErrorV::Eval(ee)), m),
                }
            },
        },
    }
}

/// Evaluate one line against the environment: the composed
/// lex → parse → interpret pipeline. A failing line reports its error and
/// leaves the environment exactly as it was before the line.
pub fn evaluate(line: &str, env: &mut Environment) -> (r: Result<Value, CalcError>)
    requires
        old(env).wf(),
    ensures
        final(env).wf(),
        calc_result_view(r) == evaluate_spec(line@, old(env)@).0,
        final(env)@ == evaluate_spec(line@, old(env)@).1,
        r matches Ok(v) ==> val_wf(v),
{
    match lex(line) {
        Err(le) => Err(CalcError::Lex(le)),
        Ok(toks) => {
            match parse(&toks) {
                Err(pe) => Err(CalcError::Parse(pe)),
                Ok(e) => {
                    let mut scratch = env.duplicate();
                    match eval_expr(&e, &mut scratch) {
                        Ok(v) => {
                            *env = scratch;
                            Ok(v)
                        },
                        Err(ee) => Err(CalcError::Eval(ee)),
                    }
                },
            }
        },
    }
}

} // verus!
