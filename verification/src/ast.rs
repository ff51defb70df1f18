//! Expression trees and their evaluation.

use crate::floats::{Halt, Known, Request};
use crate::operator::{BinaryOp, ScalarFn, UnaryOp};
use crate::units::{seen, Measure, Quantity};
use vstd::prelude::*;
use vstd::string::*;

verus! {

/// Why an evaluation failed, in words.
#[derive(Debug, PartialEq, Eq)]
pub struct EvalError {
    pub error: String,
}

/// A result with the error taken by its message.
pub open spec fn told<T>(r: Result<T, Halt<EvalError>>) -> Result<T, Halt<Seq<char>>> {
    match r {
        Ok(v) => Ok(v),
        Err(Halt::Failed(e)) => Err(Halt::Failed(e.error@)),
        Err(Halt::Awaits(q)) => Err(Halt::Awaits(q)),
    }
}

/// A result that may await an answer, as a result that may also fail.
pub open spec fn waiting<T>(r: Result<T, Request>) -> Result<T, Halt<Seq<char>>> {
    match r {
        Ok(v) => Ok(v),
        Err(q) => Err(Halt::Awaits(q)),
    }
}

/// The failure with the given message.
pub fn failure<T>(message: &str) -> (r: Result<T, Halt<EvalError>>)
    ensures
        told(r) == Err::<T, Halt<Seq<char>>>(Halt::Failed(message@)),
{
    Err(Halt::Failed(EvalError { error: String::from_str(message) }))
}

/// A result that may await an answer, as a result that may also fail.
pub fn or_await<T>(r: Result<T, Request>) -> (out: Result<T, Halt<EvalError>>)
    ensures
        told(out) == waiting(r),
{
    match r {
        Ok(v) => Ok(v),
        Err(q) => Err(Halt::Awaits(q)),
    }
}


/// An operation on the values of two expressions.
#[derive(Debug, PartialEq, Eq)]
pub struct Binary {
    pub op: BinaryOp,
    pub lhs: Expr,
    pub rhs: Expr,
}

/// An operation on the value of one expression.
#[derive(Debug, PartialEq, Eq)]
pub struct Unary {
    pub op: UnaryOp,
    pub operand: Expr,
}

/// An expression: a quantity, or an operation on expressions.
#[derive(Debug, PartialEq, Eq)]
pub enum Expr {
    Quantity(Quantity),
    Binary(Box<Binary>),
    Unary(Box<Unary>),
}

/// `op` on two quantities.
pub open spec fn apply_binary(op: BinaryOp, left: Measure, right: Measure, known: Known) -> Result<
    Measure,
    Halt<Seq<char>>,
> {
    match op {
        BinaryOp::Add => left.sum(right, known),
        BinaryOp::Sub => left.difference(right, known),
        BinaryOp::Mul => left.product(right, known),
        BinaryOp::Div => left.quotient(right, known),
        BinaryOp::Pow => left.power(right, known),
    }
}

/// `op` on one quantity.
pub open spec fn apply_unary(op: UnaryOp, operand: Measure, known: Known) -> Result<
    Measure,
    Halt<Seq<char>>,
> {
    match op {
        UnaryOp::Positive => Ok(operand),
        UnaryOp::Negative => operand.negation(known),
        UnaryOp::Percent => operand.function(ScalarFn::Percent, known),
        UnaryOp::Factorial => operand.function(ScalarFn::Factorial, known),
        UnaryOp::RootN(n) => operand.root(n, known),
        UnaryOp::Sin => operand.function(ScalarFn::Sin, known),
        UnaryOp::Cos => operand.function(ScalarFn::Cos, known),
        UnaryOp::Tan => operand.function(ScalarFn::Tan, known),
        UnaryOp::Exp => operand.function(ScalarFn::Exp, known),
        UnaryOp::Ln => operand.function(ScalarFn::Ln, known),
        UnaryOp::Log => operand.function(ScalarFn::Log, known),
        UnaryOp::Undim => Ok(operand.stripped()),
    }
}

impl Expr {
    /// The value of the expression: that of a quantity is the quantity; an
    /// operation is applied to the values of its operands, taken from left
    /// to right, and the first operand without a value decides.
    pub open spec fn value(self, known: Known) -> Result<Measure, Halt<Seq<char>>>
        decreases self,
    {
        match self {
            Expr::Quantity(q) => Ok(q@),
            Expr::Binary(b) => b.value(known),
            Expr::Unary(u) => u.value(known),
        }
    }

    /// The value of the expression.
    pub fn eval(&self, known: &Known) -> (r: Result<Quantity, Halt<EvalError>>)
        ensures
            seen(r) == self.value(*known),
        decreases self,
    {
        match self {
            Expr::Quantity(x) => Ok(*x),
            Expr::Binary(b) => b.eval(known),
            Expr::Unary(u) => u.eval(known),
        }
    }

    /// The operation `op` on `lhs` and `rhs`.
    pub fn binary(op: BinaryOp, lhs: Expr, rhs: Expr) -> (r: Expr)
        ensures
            r == Expr::Binary(Box::new(Binary { op, lhs, rhs })),
    {
        Expr::Binary(Box::new(Binary { op, lhs, rhs }))
    }

    /// The operation `op` on `operand`.
    pub fn unary(op: UnaryOp, operand: Expr) -> (r: Expr)
        ensures
            r == Expr::Unary(Box::new(Unary { op, operand })),
    {
        Expr::Unary(Box::new(Unary { op, operand }))
    }

    /// The product of `operand` and the quantity `units`.
    pub fn with_units(operand: Expr, units: Quantity) -> (r: Expr)
        ensures
            r == Expr::Binary(
                Box::new(Binary { op: BinaryOp::Mul, lhs: operand, rhs: Expr::Quantity(units) }),
            ),
    {
        Expr::binary(BinaryOp::Mul, operand, Expr::Quantity(units))
    }
}

impl Binary {
    /// The value: the operation on the values of the two operands, the left
    /// one taken first; the first operand without a value decides.
    pub open spec fn value(self, known: Known) -> Result<Measure, Halt<Seq<char>>>
        decreases self,
    {
        match self.lhs.value(known) {
            Err(h) => Err(h),
            Ok(left) => match self.rhs.value(known) {
                Err(h) => Err(h),
                Ok(right) => apply_binary(self.op, left, right, known),
            },
        }
    }

    /// The value of the operation on the values of the two operands.
    pub fn eval(&self, known: &Known) -> (r: Result<Quantity, Halt<EvalError>>)
        ensures
            seen(r) == self.value(*known),
        decreases self,
    {
        let left = self.lhs.eval(known)?;
        let right = self.rhs.eval(known)?;
        match self.op {
            BinaryOp::Add => left.add_quantity(&right, known),
            BinaryOp::Sub => left.sub_quantity(&right, known),
            BinaryOp::Mul => left.mul_quantity(&right, known),
            BinaryOp::Div => left.div_quantity(&right, known),
            BinaryOp::Pow => left.pow_quantity(&right, known),
        }
    }
}

impl Unary {
    /// The value: the operation on the value of the operand.
    pub open spec fn value(self, known: Known) -> Result<Measure, Halt<Seq<char>>>
        decreases self,
    {
        match self.operand.value(known) {
            Err(h) => Err(h),
            Ok(operand) => apply_unary(self.op, operand, known),
        }
    }

    /// The value of the operation on the value of the operand.
    pub fn eval(&self, known: &Known) -> (r: Result<Quantity, Halt<EvalError>>)
        ensures
            seen(r) == self.value(*known),
        decreases self,
    {
        let operand_result = self.operand.eval(known)?;
        match self.op {
            UnaryOp::Positive => Ok(operand_result),
            UnaryOp::Negative => operand_result.negative(known),
            UnaryOp::RootN(n) => operand_result.root_n(n, known),
            UnaryOp::Percent => operand_result.unitless_op(ScalarFn::Percent, known),
            UnaryOp::Factorial => operand_result.unitless_op(ScalarFn::Factorial, known),
            UnaryOp::Sin => operand_result.unitless_op(ScalarFn::Sin, known),
            UnaryOp::Cos => operand_result.unitless_op(ScalarFn::Cos, known),
            UnaryOp::Tan => operand_result.unitless_op(ScalarFn::Tan, known),
            UnaryOp::Exp => operand_result.unitless_op(ScalarFn::Exp, known),
            UnaryOp::Ln => operand_result.unitless_op(ScalarFn::Ln, known),
            UnaryOp::Log => operand_result.unitless_op(ScalarFn::Log, known),
            UnaryOp::Undim => Ok(operand_result.undim()),
        }
    }
}

} // verus!
