//! A calculator for arithmetic expressions that carry physical units.
//!
//! A query is an expression, such as `3 km / 2 min`, and directions for how
//! to show its value, such as `in m s^-1 round 2`. [`query::parse`] reads a
//! query from its text, and [`query::Query::get_answer`] gives the answer
//! as a text.
//!
//! A number is an integer for as long as every operation on it gives an
//! integer that fits in 64 bits, and a floating-point number from the first
//! operation that does not ([`autonum`]). A dimension holds the exponents
//! of the seven base quantities as fractions in lowest terms ([`units`]).
//!
//! Binary floating-point arithmetic is not performed here. A function that
//! needs the result of a floating-point operation looks it up in what its
//! caller has supplied ([`floats::Known`]); where the result is missing the
//! function names the operation, and the caller performs it, records the
//! result and calls the function again. What a function has decided stands
//! whatever more the caller supplies, and it never asks for what it was
//! given ([`supply`]).
//!
//! The contracts of the functions that read a query say which query a text
//! stands for ([`grammar`], [`lex`]); those of the functions that compute
//! say which value an expression has ([`ast`]) and how a value is written
//! ([`query`]). [`laws`] holds what follows for the library as a whole.

pub mod arith;
pub mod ast;
pub mod autonum;
pub mod binary64;
pub mod consts;
pub mod error;
pub mod floats;
pub mod grammar;
pub mod laws;
pub mod lex;
pub mod operator;
pub mod parse;
pub mod query;
pub mod supply;
pub mod text;
pub mod units;
