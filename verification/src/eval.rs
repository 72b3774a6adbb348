//! The evaluation of expressions.

use vstd::prelude::*;
use crate::ast::{ExprModel, Expression, Value};
use crate::error::{EvalError, EvalErrorModel, Outcome, outcome_of};
use crate::namespace::{NameSpace, Scopes, lookup};
use crate::operator::{apply, apply_operator};

verus! {

/// The outcome of an expression in given scopes. The left operand of an
/// operation is evaluated first, and the first failure is the outcome.
pub open spec fn value_of(e: ExprModel, s: Scopes) -> Outcome
    decreases e,
{
    match e {
        ExprModel::Const(v) => Ok(v),
        ExprModel::Var(name) => match lookup(s, name) {
            Some(v) => Ok(v),
            None => Err(EvalErrorModel::UndefinedVariable(name)),
        },
        ExprModel::BinOp(left, op, right) => match value_of(*left, s) {
            Err(e) => Err(e),
            Ok(l) => match value_of(*right, s) {
                Err(e) => Err(e),
                Ok(r) => apply(l, op, r),
            },
        },
    }
}

/// Evaluates an expression. The namespace is only read.
pub fn eval_expr<NS: NameSpace>(expr: &Expression, ns: &NS) -> (r: Result<Value, EvalError>)
    requires
        ns.wf(),
    ensures
        outcome_of(r) == value_of(expr@, ns.scopes()),
    decreases expr,
{
    match expr {
        Expression::Const(v) => Ok(*v),
        Expression::Var(name) => match ns.get(name.as_str()) {
            Some(v) => Ok(v),
            None => Err(EvalError::UndefinedVariable(name.clone())),
        },
        Expression::BinOp(left, op, right) => {
            let l = match eval_expr(left, ns) {
                Ok(v) => v,
                Err(e) => {
                    return Err(e);
                },
            };
            let r = match eval_expr(right, ns) {
                Ok(v) => v,
                Err(e) => {
                    return Err(e);
                },
            };
            apply_operator(l, op, r)
        },
    }
}

} // verus!
