//! The interpreter: an expression tree is evaluated depth-first against the
//! environment. Literals are their own value; an identifier resolves
//! against the environment or fails naming itself; an assignment stores its
//! right-hand side's value and yields `Absence`; operators follow the
//! promotion rules of the value domain.

use vstd::prelude::*;
use crate::value::Value;
use crate::value::EvalError;
use crate::value::EvalErrorV;
use crate::value::val_wf;
use crate::value::spec_add_values;
use crate::value::spec_sub_values;
use crate::value::spec_mul_values;
use crate::value::spec_div_values;
use crate::value::spec_neg_value;
use crate::value::add_values;
use crate::value::sub_values;
use crate::value::mul_values;
use crate::value::div_values;
use crate::value::neg_value;
use crate::parser::Expr;
use crate::parser::ExprV;
use crate::parser::UnOp;
use crate::parser::BinOp;
use crate::parser::exprv_wf;
use crate::env::Environment;

verus! {

/// The view of an evaluation result.
pub open spec fn evres_view(r: Result<Value, EvalError>) -> Result<Value, EvalErrorV> {
    match r {
        Ok(v) => Ok(v),
        Err(e) => Err(e@),
    }
}

/// Apply a binary operator to two evaluated operands.
pub open spec fn spec_apply_bin(op: BinOp, a: Value, b: Value) -> Result<Value, EvalError> {
    match op {
        BinOp::Add => spec_add_values(a, b),
        BinOp::Sub => spec_sub_values(a, b),
        BinOp::Mul => spec_mul_values(a, b),
        BinOp::Div => spec_div_values(a, b),
    }
}

/// Evaluate an expression against an environment mapping: the result and
/// the mapping afterwards. Operands evaluate left to right, so an
/// assignment nested in a left operand is visible to the right one.
pub open spec fn eval_spec(e: ExprV, m: Map<Seq<char>, Value>) -> (
    Result<Value, EvalErrorV>,
    Map<Seq<char>, Value>,
)
    decreases e,
{
    match e {
        ExprV::Literal(v) => (Ok(v), m),
        ExprV::Variable(name) => if m.contains_key(name) {
            (Ok(m[name]), m)
        } else {
            (Err(EvalErrorV::UnknownIdentifier(name)), m)
        },
        ExprV::Unary(UnOp::Neg, inner) => {
            let (r1, m1) = eval_spec(*inner, m);
            match r1 {
                Ok(v) => (evres_view(spec_neg_value(v)), m1),
                Err(er) => (Err(er), m1),
            }
        },
        ExprV::Binary(op, l, r) => {
            let (r1, m1) = eval_spec(*l, m);
            match r1 {
                Ok(v1) => {
                    let (r2, m2) = eval_spec(*r, m1);
                    match r2 {
                        Ok(v2) => (evres_view(spec_apply_bin(op, v1, v2)), m2),
                        Err(er) => (Err(er), m2),
                    }
                },
                Err(er) => (Err(er), m1),
            }
        },
        ExprV::Assignment(name, rhs) => {
            let (r1, m1) = eval_spec(*rhs, m);
            match r1 {
                Ok(v) => (Ok(Value::Absence), m1.insert(name, v)),
                Err(er) => (Err(er), m1),
            }
        },
    }
}

/// Evaluate an expression, mutating the environment in place; the
/// executable mirror of `eval_spec`.
pub fn eval_expr(e: &Expr, env: &mut Environment) -> (r: Result<Value, EvalError>)
    requires
        old(env).wf(),
        exprv_wf(e@),
    ensures
        final(env).wf(),
        evres_view(r) == eval_spec(e@, old(env)@).0,
        final(env)@ == eval_spec(e@, old(env)@).1,
        r matches Ok(v) ==> val_wf(v),
    decreases *e,
{
    match e {
        Expr::Literal(v) => Ok(*v),
        Expr::Variable(name) => {
            match env.lookup(name) {
                Some(v) => Ok(v),
                None => Err(EvalError::UnknownIdentifier(name.clone())),
            }
        },
        Expr::Unary(op, inner) => {
            match *op {
                UnOp::Neg => {
                    match eval_expr(inner, env) {
                        Ok(v) => neg_value(&v),
                        Err(er) => Err(er),
                    }
                },
            }
        },
        Expr::Binary(op, l, r) => {
            match eval_expr(l, env) {
                Ok(v1) => {
                    match eval_expr(r, env) {
                        Ok(v2) => {
                            match *op {
                                BinOp::Add => add_values(&v1, &v2),
                                BinOp::Sub => sub_values(&v1, &v2),
                                BinOp::Mul => mul_values(&v1, &v2),
                                BinOp::Div => div_values(&v1, &v2),
                            }
                        },
                        Err(er) => Err(er),
                    }
                },
                Err(er) => Err(er),
            }
        },
        Expr::Assignment(name, rhs) => {
            match eval_expr(rhs, env) {
                Ok(v) => {
                    env.insert(name.clone(), v);
                    Ok(Value::Absence)
                },
                Err(er) => Err(er),
            }
        },
    }
}

} // verus!
