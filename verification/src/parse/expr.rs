//! Arithmetic expressions and their evaluation.

use super::error::Error;
use vstd::prelude::*;
use vstd::string::StringExecFns;

verus! {

/// An arithmetic expression over integer constants.
#[derive(Debug)]
pub enum Expression {
    Constant(Value),
    Sum(Box<Expression>, Box<Expression>),
    Difference(Box<Expression>, Box<Expression>),
    UnaryPlus(Box<Expression>),
    UnaryMinus(Box<Expression>),
}

/// A computed value.
#[derive(Debug, PartialEq, Eq, Structural)]
pub enum Value {
    Integer(i64),
}

/// The mathematical value of an expression, over unbounded integers.
pub open spec fn eval_spec(e: Expression) -> int
    decreases e
{
    match e {
        Expression::Constant(Value::Integer(n)) => n as int,
        Expression::Sum(l, r) => eval_spec(*l) + eval_spec(*r),
        Expression::Difference(l, r) => eval_spec(*l) - eval_spec(*r),
        Expression::UnaryPlus(inner) => eval_spec(*inner),
        Expression::UnaryMinus(inner) => -eval_spec(*inner),
    }
}

/// Whether every intermediate value of the evaluation stays within `i64`.
pub open spec fn eval_fits(e: Expression) -> bool
    decreases e
{
    match e {
        Expression::Constant(_) => true,
        Expression::Sum(l, r) => eval_fits(*l) && eval_fits(*r) && i64::MIN <= eval_spec(*l)
            + eval_spec(*r) <= i64::MAX,
        Expression::Difference(l, r) => eval_fits(*l) && eval_fits(*r) && i64::MIN
            <= eval_spec(*l) - eval_spec(*r) <= i64::MAX,
        Expression::UnaryPlus(inner) => eval_fits(*inner),
        Expression::UnaryMinus(inner) => eval_fits(*inner) && i64::MIN <= -eval_spec(*inner)
            <= i64::MAX,
    }
}

/// An expression whose every intermediate result fits also has its own
/// value within `i64`.
proof fn lemma_eval_fits_range(e: Expression)
    requires
        eval_fits(e),
    ensures
        i64::MIN <= eval_spec(e) <= i64::MAX,
    decreases e,
{
    match e {
        Expression::UnaryPlus(inner) => lemma_eval_fits_range(*inner),
        _ => {},
    }
}

impl Expression {
    /// Evaluate the expression. Returns its value exactly when every
    /// intermediate result fits in `i64`, and [`Error::EvalError`]
    /// otherwise.
    pub fn eval(self) -> (r: Result<Value, Error>)
        ensures
            eval_fits(self) ==> r == Ok::<Value, Error>(
                Value::Integer(eval_spec(self) as i64),
            ),
            !eval_fits(self) ==> r is Err,
            r matches Err(err) ==> err is EvalError,
        decreases self,
    {
        match self {
            Expression::Constant(c) => Ok(c),
            Expression::Sum(left, right) => {
                proof {
                    if eval_fits(*left) {
                        lemma_eval_fits_range(*left);
                    }
                    if eval_fits(*right) {
                        lemma_eval_fits_range(*right);
                    }
                }
                let Value::Integer(l) = (*left).eval()?;
                let Value::Integer(r) = (*right).eval()?;
                match l.checked_add(r) {
                    Some(v) => Ok(Value::Integer(v)),
                    None => Err(overflow_error()),
                }
            },
            Expression::Difference(left, right) => {
                proof {
                    if eval_fits(*left) {
                        lemma_eval_fits_range(*left);
                    }
                    if eval_fits(*right) {
                        lemma_eval_fits_range(*right);
                    }
                }
                let Value::Integer(l) = (*left).eval()?;
                let Value::Integer(r) = (*right).eval()?;
                match l.checked_sub(r) {
                    Some(v) => Ok(Value::Integer(v)),
                    None => Err(overflow_error()),
                }
            },
            Expression::UnaryPlus(inner) => (*inner).eval(),
            Expression::UnaryMinus(inner) => {
                proof {
                    if eval_fits(*inner) {
                        lemma_eval_fits_range(*inner);
                    }
                }
                let Value::Integer(v) = (*inner).eval()?;
                match 0i64.checked_sub(v) {
                    Some(n) => Ok(Value::Integer(n)),
                    None => Err(overflow_error()),
                }
            },
        }
    }
}

/// The error for an evaluation that leaves the integer range.
fn overflow_error() -> (r: Error)
    ensures
        r is EvalError,
{
    Error::EvalError(String::from_str("value out of range"))
}

} // verus!
