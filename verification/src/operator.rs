//! The operators and functions of the expression language.

use crate::text::same_text;
use vstd::prelude::*;

verus! {

/// An operation on two operands.
#[derive(Clone, Copy, Debug, PartialEq, Eq, Structural)]
pub enum BinaryOp {
    Add,
    Sub,
    Mul,
    Div,
    Pow,
}

/// An operation on one operand.
#[derive(Clone, Copy, Debug, PartialEq, Eq, Structural)]
pub enum UnaryOp {
    Positive,
    Negative,
    Percent,
    Factorial,
    RootN(i8),
    Sin,
    Cos,
    Tan,
    Exp,
    Ln,
    Log,
    /// The value without its units.
    Undim,
}

/// A function of a number without units.
#[derive(Clone, Copy, Debug, PartialEq, Eq, Structural)]
pub enum ScalarFn {
    Percent,
    Factorial,
    Sin,
    Cos,
    Tan,
    Exp,
    Ln,
    Log,
}

/// The operation that the symbol `c` stands for between two operands, with
/// its precedence and whether it groups to the right.
pub open spec fn binary_operator(c: char) -> Option<(BinaryOp, u8, bool)> {
    if c == '+' {
        Some((BinaryOp::Add, 10u8, false))
    } else if c == '-' {
        Some((BinaryOp::Sub, 10u8, false))
    } else if c == '*' {
        Some((BinaryOp::Mul, 20u8, false))
    } else if c == '/' {
        Some((BinaryOp::Div, 20u8, false))
    } else {
        None
    }
}

/// The operation that the symbol `c` stands for before an operand.
pub open spec fn prefix_operator(c: char) -> Option<UnaryOp> {
    if c == '+' {
        Some(UnaryOp::Positive)
    } else if c == '-' {
        Some(UnaryOp::Negative)
    } else {
        None
    }
}

/// The operation that the symbol `c` stands for after an operand.
pub open spec fn postfix_operator(c: char) -> Option<UnaryOp> {
    if c == '%' {
        Some(UnaryOp::Percent)
    } else if c == '!' {
        Some(UnaryOp::Factorial)
    } else {
        None
    }
}

/// The function that the word `w` names.
pub open spec fn function_named(w: Seq<char>) -> Option<UnaryOp> {
    if w == "sqrt"@ {
        Some(UnaryOp::RootN(2))
    } else if w == "cbrt"@ {
        Some(UnaryOp::RootN(3))
    } else if w == "sin"@ {
        Some(UnaryOp::Sin)
    } else if w == "cos"@ {
        Some(UnaryOp::Cos)
    } else if w == "tan"@ {
        Some(UnaryOp::Tan)
    } else if w == "exp"@ {
        Some(UnaryOp::Exp)
    } else if w == "ln"@ {
        Some(UnaryOp::Ln)
    } else if w == "log"@ {
        Some(UnaryOp::Log)
    } else {
        None
    }
}

/// The operation that the symbol `data` stands for between two operands,
/// with its precedence and whether it groups to the right.
pub fn try_get_binary_operator(data: char) -> (r: Option<(BinaryOp, u8, bool)>)
    ensures
        r == binary_operator(data),
{
    if data == '+' {
        Some((BinaryOp::Add, 10, false))
    } else if data == '-' {
        Some((BinaryOp::Sub, 10, false))
    } else if data == '*' {
        Some((BinaryOp::Mul, 20, false))
    } else if data == '/' {
        Some((BinaryOp::Div, 20, false))
    } else {
        None
    }
}

/// The operation that the symbol `data` stands for before an operand.
pub fn try_get_prefix_operator(data: char) -> (r: Option<UnaryOp>)
    ensures
        r == prefix_operator(data),
{
    if data == '+' {
        Some(UnaryOp::Positive)
    } else if data == '-' {
        Some(UnaryOp::Negative)
    } else {
        None
    }
}

/// The operation that the symbol `data` stands for after an operand.
pub fn try_get_postfix_operator(data: char) -> (r: Option<UnaryOp>)
    ensures
        r == postfix_operator(data),
{
    if data == '%' {
        Some(UnaryOp::Percent)
    } else if data == '!' {
        Some(UnaryOp::Factorial)
    } else {
        None
    }
}

/// The function that the word `w` names.
pub fn try_get_function(w: &str) -> (r: Option<UnaryOp>)
    ensures
        r == function_named(w@),
{
    if same_text(w, "sqrt") {
        Some(UnaryOp::RootN(2))
    } else if same_text(w, "cbrt") {
        Some(UnaryOp::RootN(3))
    } else if same_text(w, "sin") {
        Some(UnaryOp::Sin)
    } else if same_text(w, "cos") {
        Some(UnaryOp::Cos)
    } else if same_text(w, "tan") {
        Some(UnaryOp::Tan)
    } else if same_text(w, "exp") {
        Some(UnaryOp::Exp)
    } else if same_text(w, "ln") {
        Some(UnaryOp::Ln)
    } else if same_text(w, "log") {
        Some(UnaryOp::Log)
    } else {
        None
    }
}

} // verus!
