//! The parser: tokens into an expression tree. One expression grammar with
//! standard precedence — assignment lowest and right-associative, then
//! additive, then multiplicative, then unary minus, then primaries (numeric
//! literals, identifiers, parenthesized sub-expressions). Binary operators
//! associate to the left. Malformed input fails atomically with a parse
//! error carrying the offending token position; there is no recovery.

use vstd::prelude::*;
use crate::value::Value;
use crate::value::val_wf;
use crate::value::spec_make_rat;
use crate::value::reduce_i128;
use crate::lexer::Token;
use crate::lexer::TokenV;
use crate::lexer::OpSymbol;
use crate::lexer::PunctSymbol;
use crate::lexer::toks_view;

verus! {

/// Unary operators.
#[derive(Debug, Clone, Copy, PartialEq, Eq, Structural)]
pub enum UnOp {
    Neg,
}

/// Binary operators.
#[derive(Debug, Clone, Copy, PartialEq, Eq, Structural)]
pub enum BinOp {
    Add,
    Sub,
    Mul,
    Div,
}

/// An expression tree node; a line parses to exactly one such tree.
#[derive(Debug, PartialEq)]
pub enum Expr {
    Literal(Value),
    Variable(String),
    Unary(UnOp, Box<Expr>),
    Binary(BinOp, Box<Expr>, Box<Expr>),
    Assignment(String, Box<Expr>),
}

/// Ghost mirror of `Expr`, with names as character sequences.
pub enum ExprV {
    Literal(Value),
    Variable(Seq<char>),
    Unary(UnOp, Box<ExprV>),
    Binary(BinOp, Box<ExprV>, Box<ExprV>),
    Assignment(Seq<char>, Box<ExprV>),
}

impl View for Expr {
    type V = ExprV;

    open spec fn view(&self) -> ExprV
        decreases self,
    {
        match self {
            Expr::Literal(v) => ExprV::Literal(*v),
            Expr::Variable(name) => ExprV::Variable(name@),
            Expr::Unary(op, inner) => ExprV::Unary(*op, Box::new((**inner).view())),
            Expr::Binary(op, l, r) => ExprV::Binary(
                *op,
                Box::new((**l).view()),
                Box::new((**r).view()),
            ),
            Expr::Assignment(name, inner) => ExprV::Assignment(
                name@,
                Box::new((**inner).view()),
            ),
        }
    }
}

/// Every literal in the tree is a well-formed, printable value.
pub open spec fn exprv_wf(e: ExprV) -> bool
    decreases e,
{
    match e {
        ExprV::Literal(v) => val_wf(v) && !(v is Absence),
        ExprV::Variable(_) => true,
        ExprV::Unary(_, inner) => exprv_wf(*inner),
        ExprV::Binary(_, l, r) => exprv_wf(*l) && exprv_wf(*r),
        ExprV::Assignment(_, inner) => exprv_wf(*inner),
    }
}

/// Why parsing failed; positions are token indices.
#[derive(Debug, Clone, Copy, PartialEq)]
pub enum ParseError {
    /// A token that no grammar rule expects here.
    UnexpectedToken { position: usize },
    /// A parenthesized sub-expression without its closing parenthesis.
    MissingClosingParen { position: usize },
    /// A numeric literal outside the 64-bit domain.
    LiteralOutOfRange { position: usize },
    /// A complete expression followed by more than the end of input.
    TrailingTokens { position: usize },
}

/// Tokens remaining from position `i`, clamped at zero; the recursion
/// measure of the grammar functions.
pub open spec fn rem(n: int, i: int) -> nat {
    if i <= n {
        (n - i) as nat
    } else {
        0
    }
}

/// An expression: an assignment `name = expression` (right-associative), or
/// an additive expression.
pub open spec fn parse_expr(ts: Seq<TokenV>, i: int) -> Result<(ExprV, int), ParseError>
    decreases rem(ts.len() as int, i), 6int,
    when 0 <= i
{
    if i < ts.len() && i + 1 < ts.len() && ts[i + 1] == TokenV::Operator(OpSymbol::Equal) {
        match ts[i] {
            TokenV::Identifier(name) => match parse_expr(ts, i + 2) {
                Ok((e, j)) => Ok((ExprV::Assignment(name, Box::new(e)), j)),
                Err(p) => Err(p),
            },
            _ => parse_additive(ts, i),
        }
    } else {
        parse_additive(ts, i)
    }
}

/// A left-associative chain of `+` and `-` over multiplicative expressions.
pub open spec fn parse_additive(ts: Seq<TokenV>, i: int) -> Result<(ExprV, int), ParseError>
    decreases rem(ts.len() as int, i), 5int,
    when 0 <= i
{
    match parse_mul(ts, i) {
        Ok((e, j)) => parse_additive_rest(
            ts,
            if i < j {
                j
            } else {
                i + 1
            },
            e,
        ),
        Err(p) => Err(p),
    }
}

/// Fold further `+`/`-` operands onto `acc`, left-associatively.
pub open spec fn parse_additive_rest(ts: Seq<TokenV>, j: int, acc: ExprV) -> Result<
    (ExprV, int),
    ParseError,
>
    decreases rem(ts.len() as int, j), 4int,
    when 0 <= j
{
    if j < ts.len() && (ts[j] == TokenV::Operator(OpSymbol::Plus) || ts[j]
        == TokenV::Operator(OpSymbol::Minus)) {
        let op = if ts[j] == TokenV::Operator(OpSymbol::Plus) {
            BinOp::Add
        } else {
            BinOp::Sub
        };
        match parse_mul(ts, j + 1) {
            Ok((rhs, k)) => parse_additive_rest(
                ts,
                if j + 1 < k {
                    k
                } else {
                    j + 2
                },
                ExprV::Binary(op, Box::new(acc), Box::new(rhs)),
            ),
            Err(p) => Err(p),
        }
    } else {
        Ok((acc, j))
    }
}

/// A left-associative chain of `*` and `/` over unary expressions.
pub open spec fn parse_mul(ts: Seq<TokenV>, i: int) -> Result<(ExprV, int), ParseError>
    decreases rem(ts.len() as int, i), 3int,
    when 0 <= i
{
    match parse_unary(ts, i) {
        Ok((e, j)) => parse_mul_rest(
            ts,
            if i < j {
                j
            } else {
                i + 1
            },
            e,
        ),
        Err(p) => Err(p),
    }
}

/// Fold further `*`/`/` operands onto `acc`, left-associatively.
pub open spec fn parse_mul_rest(ts: Seq<TokenV>, j: int, acc: ExprV) -> Result<
    (ExprV, int),
    ParseError,
>
    decreases rem(ts.len() as int, j), 2int,
    when 0 <= j
{
    if j < ts.len() && (ts[j] == TokenV::Operator(OpSymbol::Star) || ts[j]
        == TokenV::Operator(OpSymbol::Slash)) {
        let op = if ts[j] == TokenV::Operator(OpSymbol::Star) {
            BinOp::Mul
        } else {
            BinOp::Div
        };
        match parse_unary(ts, j + 1) {
            Ok((rhs, k)) => parse_mul_rest(
                ts,
                if j + 1 < k {
                    k
                } else {
                    j + 2
                },
                ExprV::Binary(op, Box::new(acc), Box::new(rhs)),
            ),
            Err(p) => Err(p),
        }
    } else {
        Ok((acc, j))
    }
}

/// A unary expression: any number of prefixed minus signs on a primary.
pub open spec fn parse_unary(ts: Seq<TokenV>, i: int) -> Result<(ExprV, int), ParseError>
    decreases rem(ts.len() as int, i), 2int,
    when 0 <= i
{
    if i < ts.len() && ts[i] == TokenV::Operator(OpSymbol::Minus) {
        match parse_unary(ts, i + 1) {
            Ok((e, j)) => Ok((ExprV::Unary(UnOp::Neg, Box::new(e)), j)),
            Err(p) => Err(p),
        }
    } else {
        parse_primary(ts, i)
    }
}

/// A primary: a numeric literal, an identifier, or a parenthesized
/// expression. An integer literal becomes an `Integer` value; a decimal
/// literal becomes the reduced exact rational it denotes.
pub open spec fn parse_primary(ts: Seq<TokenV>, i: int) -> Result<(ExprV, int), ParseError>
    decreases rem(ts.len() as int, i), 1int,
    when 0 <= i
{
    if i >= ts.len() {
        Err(ParseError::UnexpectedToken { position: i as usize })
    } else {
        match ts[i] {
            TokenV::Number { num, den } => if den == 1 {
                if num <= i64::MAX as u64 {
                    Ok((ExprV::Literal(Value::Integer(num as i64)), i + 1))
                } else {
                    Err(ParseError::LiteralOutOfRange { position: i as usize })
                }
            } else {
                match spec_make_rat(num as int, den as int) {
                    Ok(v) => Ok((ExprV::Literal(v), i + 1)),
                    Err(_) => Err(ParseError::LiteralOutOfRange { position: i as usize }),
                }
            },
            TokenV::Identifier(name) => Ok((ExprV::Variable(name), i + 1)),
            TokenV::Punctuation(PunctSymbol::LeftParen) => match parse_expr(ts, i + 1) {
                Ok((e, j)) => if j < ts.len() && ts[j] == TokenV::Punctuation(
                    PunctSymbol::RightParen,
                ) {
                    Ok((e, j + 1))
                } else {
                    Err(ParseError::MissingClosingParen { position: j as usize })
                },
                Err(p) => Err(p),
            },
            _ => Err(ParseError::UnexpectedToken { position: i as usize }),
        }
    }
}

/// What a whole token list parses to: one expression, then the end of
/// input; anything more is a trailing-token error.
pub open spec fn parse_spec(ts: Seq<TokenV>) -> Result<ExprV, ParseError> {
    match parse_expr(ts, 0) {
        Ok((e, j)) => if j >= ts.len() || ts[j] == TokenV::EndOfInput {
            Ok(e)
        } else {
            Err(ParseError::TrailingTokens { position: j as usize })
        },
        Err(p) => Err(p),
    }
}

/// The view of a grammar-function result.
pub open spec fn pres_view(r: Result<(Expr, usize), ParseError>) -> Result<
    (ExprV, int),
    ParseError,
> {
    match r {
        Ok((e, j)) => Ok((e@, j as int)),
        Err(p) => Err(p),
    }
}

/// The view of a whole-parse result.
pub open spec fn parse_result_view(r: Result<Expr, ParseError>) -> Result<ExprV, ParseError> {
    match r {
        Ok(e) => Ok(e@),
        Err(p) => Err(p),
    }
}

/// Executable mirror of `parse_expr`.
fn parse_expr_ex(ts: &Vec<Token>, i: usize) -> (r: Result<(Expr, usize), ParseError>)
    requires
        i <= ts@.len(),
    ensures
        pres_view(r) == parse_expr(toks_view(ts@), i as int),
        r matches Ok(p) ==> i < p.1 <= ts@.len() && exprv_wf(p.0@),
    decreases ts@.len() - i, 6int,
{
    let n = ts.len();
    let mut is_assign = false;
    if i < n && i + 1 < n {
        if matches!(&ts[i], Token::Identifier(_)) && matches!(
            &ts[i + 1],
            Token::Operator(OpSymbol::Equal),
        ) {
            is_assign = true;
        }
    }
    proof {
        if i < n {
            assert(toks_view(ts@)[i as int] == ts@[i as int]@);
        }
        if i + 1 < n {
            assert(toks_view(ts@)[i as int + 1] == ts@[i as int + 1]@);
        }
    }
    if is_assign {
        let name: String = match &ts[i] {
            Token::Identifier(name) => name.clone(),
            _ => String::new(),
        };
        match parse_expr_ex(ts, i + 2) {
            Ok((e, j)) => Ok((Expr::Assignment(name, Box::new(e)), j)),
            Err(p) => Err(p),
        }
    } else {
        parse_additive_ex(ts, i)
    }
}

/// Executable mirror of `parse_additive`.
fn parse_additive_ex(ts: &Vec<Token>, i: usize) -> (r: Result<(Expr, usize), ParseError>)
    requires
        i <= ts@.len(),
    ensures
        pres_view(r) == parse_additive(toks_view(ts@), i as int),
        r matches Ok(p) ==> i < p.1 <= ts@.len() && exprv_wf(p.0@),
    decreases ts@.len() - i, 5int,
{
    match parse_mul_ex(ts, i) {
        Ok((e, j)) => parse_additive_rest_ex(ts, j, e),
        Err(p) => Err(p),
    }
}

/// Executable mirror of `parse_additive_rest`.
fn parse_additive_rest_ex(ts: &Vec<Token>, j: usize, acc: Expr) -> (r: Result<
    (Expr, usize),
    ParseError,
>)
    requires
        j <= ts@.len(),
        exprv_wf(acc@),
    ensures
        pres_view(r) == parse_additive_rest(toks_view(ts@), j as int, acc@),
        r matches Ok(p) ==> j <= p.1 <= ts@.len() && exprv_wf(p.0@),
    decreases ts@.len() - j, 4int,
{
    let n = ts.len();
    proof {
        if j < n {
            assert(toks_view(ts@)[j as int] == ts@[j as int]@);
        }
    }
    if j < n && matches!(&ts[j], Token::Operator(OpSymbol::Plus | OpSymbol::Minus)) {
        let op = if matches!(&ts[j], Token::Operator(OpSymbol::Plus)) {
            BinOp::Add
        } else {
            BinOp::Sub
        };
        match parse_mul_ex(ts, j + 1) {
            Ok((rhs, k)) => parse_additive_rest_ex(
                ts,
                k,
                Expr::Binary(op, Box::new(acc), Box::new(rhs)),
            ),
            Err(p) => Err(p),
        }
    } else {
        Ok((acc, j))
    }
}

/// Executable mirror of `parse_mul`.
fn parse_mul_ex(ts: &Vec<Token>, i: usize) -> (r: Result<(Expr, usize), ParseError>)
    requires
        i <= ts@.len(),
    ensures
        pres_view(r) == parse_mul(toks_view(ts@), i as int),
        r matches Ok(p) ==> i < p.1 <= ts@.len() && exprv_wf(p.0@),
    decreases ts@.len() - i, 3int,
{
    match parse_unary_ex(ts, i) {
        Ok((e, j)) => parse_mul_rest_ex(ts, j, e),
        Err(p) => Err(p),
    }
}

/// Executable mirror of `parse_mul_rest`.
fn parse_mul_rest_ex(ts: &Vec<Token>, j: usize, acc: Expr) -> (r: Result<
    (Expr, usize),
    ParseError,
>)
    requires
        j <= ts@.len(),
        exprv_wf(acc@),
    ensures
        pres_view(r) == parse_mul_rest(toks_view(ts@), j as int, acc@),
        r matches Ok(p) ==> j <= p.1 <= ts@.len() && exprv_wf(p.0@),
    decreases ts@.len() - j, 2int,
{
    let n = ts.len();
    proof {
        if j < n {
            assert(toks_view(ts@)[j as int] == ts@[j as int]@);
        }
    }
    if j < n && matches!(&ts[j], Token::Operator(OpSymbol::Star | OpSymbol::Slash)) {
        let op = if matches!(&ts[j], Token::Operator(OpSymbol::Star)) {
            BinOp::Mul
        } else {
            BinOp::Div
        };
        match parse_unary_ex(ts, j + 1) {
            Ok((rhs, k)) => parse_mul_rest_ex(
                ts,
                k,
                Expr::Binary(op, Box::new(acc), Box::new(rhs)),
            ),
            Err(p) => Err(p),
        }
    } else {
        Ok((acc, j))
    }
}

/// Executable mirror of `parse_unary`.
fn parse_unary_ex(ts: &Vec<Token>, i: usize) -> (r: Result<(Expr, usize), ParseError>)
    requires
        i <= ts@.len(),
    ensures
        pres_view(r) == parse_unary(toks_view(ts@), i as int),
        r matches Ok(p) ==> i < p.1 <= ts@.len() && exprv_wf(p.0@),
    decreases ts@.len() - i, 2int,
{
    let n = ts.len();
    proof {
        if i < n {
            assert(toks_view(ts@)[i as int] == ts@[i as int]@);
        }
    }
    if i < n && matches!(&ts[i], Token::Operator(OpSymbol::Minus)) {
        match parse_unary_ex(ts, i + 1) {
            Ok((e, j)) => Ok((Expr::Unary(UnOp::Neg, Box::new(e)), j)),
            Err(p) => Err(p),
        }
    } else {
        parse_primary_ex(ts, i)
    }
}

/// Executable mirror of `parse_primary`.
fn parse_primary_ex(ts: &Vec<Token>, i: usize) -> (r: Result<(Expr, usize), ParseError>)
    requires
        i <= ts@.len(),
    ensures
        pres_view(r) == parse_primary(toks_view(ts@), i as int),
        r matches Ok(p) ==> i < p.1 <= ts@.len() && exprv_wf(p.0@),
    decreases ts@.len() - i, 1int,
{
    let n = ts.len();
    if i >= n {
        return Err(ParseError::UnexpectedToken { position: i });
    }
    proof {
        assert(toks_view(ts@)[i as int] == ts@[i as int]@);
    }
    match &ts[i] {
        Token::Number { num, den } => {
            if *den == 1 {
                if *num <= i64::MAX as u64 {
                    Ok((Expr::Literal(Value::Integer(*num as i64)), i + 1))
                } else {
                    Err(ParseError::LiteralOutOfRange { position: i })
                }
            } else {
                match reduce_i128(*num as i128, *den as i128) {
                    Ok(v) => Ok((Expr::Literal(v), i + 1)),
                    Err(_) => Err(ParseError::LiteralOutOfRange { position: i }),
                }
            }
        },
        Token::Identifier(name) => Ok((Expr::Variable(name.clone()), i + 1)),
        Token::Punctuation(PunctSymbol::LeftParen) => {
            match parse_expr_ex(ts, i + 1) {
                Ok((e, j)) => {
                    proof {
                        if j < n {
                            assert(toks_view(ts@)[j as int] == ts@[j as int]@);
                        }
                    }
                    if j < n && matches!(&ts[j], Token::Punctuation(PunctSymbol::RightParen)) {
                        Ok((e, j + 1))
                    } else {
                        Err(ParseError::MissingClosingParen { position: j })
                    }
                },
                Err(p) => Err(p),
            }
        },
        _ => Err(ParseError::UnexpectedToken { position: i }),
    }
}

/// Parse a whole token list into one expression tree; the executable mirror
/// of `parse_spec`.
pub fn parse(ts: &Vec<Token>) -> (r: Result<Expr, ParseError>)
    ensures
        parse_result_view(r) == parse_spec(toks_view(ts@)),
        r matches Ok(e) ==> exprv_wf(e@),
{
    match parse_expr_ex(ts, 0) {
        Ok((e, j)) => {
            proof {
                if j < ts@.len() {
                    assert(toks_view(ts@)[j as int] == ts@[j as int]@);
                }
            }
            if j >= ts.len() || matches!(&ts[j], Token::EndOfInput) {
                Ok(e)
            } else {
                Err(ParseError::TrailingTokens { position: j })
            }
        },
        Err(p) => Err(p),
    }
}

} // verus!
