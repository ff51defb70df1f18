//! The language of expressions: which expression a text stands for.
//!
//! An expression is read by precedence climbing. From the loosest binding
//! to the tightest: `+` and `-` between operands, `*` and `/` between
//! operands, a sign before an operand, and what follows an operand: `%`,
//! `!`, a power after `^`, and units.

use crate::ast::{Binary, Expr, Unary};
use crate::autonum::AutoNum;
use crate::binary64::{Binary64, ONE_BITS};
use crate::consts::Definitions;
use crate::error::{describe, fault_at, Fault};
use crate::floats::{Halt, Known};
use crate::lex::{lemma_read, peek, read, skip, Cursor, Lexeme, Mark};
use crate::operator::{
    binary_operator, function_named, postfix_operator, prefix_operator, BinaryOp, UnaryOp,
};
use crate::query::query_keyword;
use crate::text::decimal;
use crate::units::{Measure, Powers, Quantity};
use vstd::prelude::*;

verus! {

/// What an expression is read from: its text, the names that it may use,
/// and the floating-point results that are known.
pub struct Context {
    pub text: Seq<char>,
    pub defs: Definitions,
    pub known: Known,
}

/// What reading gives: a value and the cursor after it, or the reason why
/// there is none.
pub type Parsed<T> = Result<(T, Cursor), Halt<Fault>>;

/// A cursor that stands within the text.
pub open spec fn within(text: Seq<char>, cursor: Cursor) -> bool {
    0 <= cursor.pos <= text.len() && cursor.last_end <= text.len()
}

/// The cursor `to` where reading from `from` can have led to it, and
/// `from` otherwise. Reading an expression or a run of units always leads
/// to such a cursor.
pub open spec fn onward(text: Seq<char>, from: Cursor, to: Cursor) -> Cursor {
    if from.pos <= to.pos && within(text, to) {
        to
    } else {
        from
    }
}

/// The next token of `text` and the cursor after it.
pub open spec fn next_token(text: Seq<char>, known: Known, cursor: Cursor) -> Parsed<Lexeme> {
    match read(text, cursor, known) {
        (Ok(token), next) => Ok((token, next)),
        (Err(h), _) => Err(h),
    }
}

/// The next token and the cursor after it.
pub open spec fn take(ctx: Context, cursor: Cursor) -> Parsed<Lexeme> {
    next_token(ctx.text, ctx.known, cursor)
}

/// The next token.
pub open spec fn look(ctx: Context, cursor: Cursor) -> Result<Lexeme, Halt<Fault>> {
    peek(ctx.text, cursor, ctx.known)
}

/// The cursor after the next token.
pub open spec fn past(ctx: Context, cursor: Cursor) -> Cursor {
    skip(ctx.text, cursor, ctx.known)
}

/// The number 1 as a floating-point number without units: what a run of
/// units starts from.
pub open spec fn one() -> Quantity {
    Quantity::from_measure(
        Measure { value: AutoNum::Float(Binary64 { bits: ONE_BITS }), powers: Powers::none() },
    )
}

/// The literal `value`, as an expression without units.
pub open spec fn literal(value: AutoNum) -> Expr {
    Expr::Quantity(Quantity::from_measure(Measure { value, powers: Powers::none() }))
}

/// The operation `op` on `lhs` and `rhs`.
pub open spec fn binary(op: BinaryOp, lhs: Expr, rhs: Expr) -> Expr {
    Expr::Binary(Box::new(Binary { op, lhs, rhs }))
}

/// The operation `op` on `operand`.
pub open spec fn unary(op: UnaryOp, operand: Expr) -> Expr {
    Expr::Unary(Box::new(Unary { op, operand }))
}

/// The fault for a token that cannot stand where it stands.
pub open spec fn unexpected(token: Lexeme) -> Fault {
    fault_at("unexpected "@ + describe(token), token)
}

/// The message for a function that no opening bracket follows.
pub open spec fn bracket_message() -> Seq<char> {
    "expected left bracket '(' after function"@
}

/// The fault for a token in the place of the integer of an exponent.
pub open spec fn exponent_fault(token: Lexeme) -> Fault {
    fault_at("unexpected "@ + describe(token) + ", expected integer in exponent"@, token)
}

/// The fault for the integer of an exponent that is out of range.
pub open spec fn magnitude_fault(token: Lexeme) -> Fault {
    fault_at("magnitude of '"@ + token.text + "' exceeds maximum (max: -128 to 127)"@, token)
}

/// A result of the algebra of quantities as a result of reading: a failure
/// becomes a fault at `token`.
pub open spec fn at_token(r: Result<Measure, Halt<Seq<char>>>, token: Lexeme) -> Result<
    Quantity,
    Halt<Fault>,
> {
    match r {
        Ok(m) => Ok(Quantity::from_measure(m)),
        Err(Halt::Failed(message)) => Err(Halt::Failed(fault_at(message, token))),
        Err(Halt::Awaits(q)) => Err(Halt::Awaits(q)),
    }
}

/// The exponent of a unit, after `^`: an integer, or `-` and an integer,
/// from -128 to 127. With it comes its text.
pub open spec fn unit_exponent(text: Seq<char>, known: Known, cursor: Cursor) -> Parsed<
    (i8, Seq<char>),
> {
    match next_token(text, known, cursor) {
        Err(h) => Err(h),
        Ok((token, next)) => match token.mark {
            Mark::Int(n) => if n > 127 {
                Err(Halt::Failed(magnitude_fault(token)))
            } else {
                Ok(((n as i8, token.text), next))
            },
            Mark::Sym(c) => if c == '-' {
                match next_token(text, known, next) {
                    Err(h) => Err(h),
                    Ok((number, after)) => match number.mark {
                        Mark::Int(n) => if n > 128 {
                            Err(Halt::Failed(magnitude_fault(number)))
                        } else {
                            Ok((((-n) as i8, seq!['-'] + number.text), after))
                        },
                        _ => Err(Halt::Failed(exponent_fault(number))),
                    },
                }
            } else {
                Err(Halt::Failed(exponent_fault(token)))
            },
            _ => Err(Halt::Failed(exponent_fault(token))),
        },
    }
}

/// The unit `base` to the power `exponent`, multiplied onto `acc`.
pub open spec fn times_power(acc: Quantity, base: Quantity, exponent: i8, known: Known) -> Result<
    Measure,
    Halt<Seq<char>>,
> {
    match base@.powers.raised(exponent as int) {
        None => Err(Halt::Failed(crate::units::overflow_message())),
        Some(powers) => match base.value.power(AutoNum::Int(exponent as i64), known) {
            Err(q) => Err(Halt::Awaits(q)),
            Ok(value) => acc@.product(Measure { value, powers }, known),
        },
    }
}

/// A run of units from the cursor, multiplied onto `acc`, with its text
/// appended to `label`. The run ends before the first token that is not a
/// word, and before a word that starts a direction of a query or is `per`.
/// Each word names a unit and may be followed by `^` and an exponent.
/// `first` tells that no unit with an exponent has been read yet: until
/// then the label takes no space between the units.
pub open spec fn units_from(
    ctx: Context,
    cursor: Cursor,
    acc: Quantity,
    label: Seq<char>,
    first: bool,
) -> Parsed<(Seq<char>, Quantity)>
    decreases ctx.text.len() - cursor.pos,
    when within(ctx.text, cursor)
{
    match look(ctx, cursor) {
        Err(h) => Err(h),
        Ok(token) => match token.mark {
            Mark::Word(w) => if query_keyword(w) || w == "per"@ {
                Ok(((label, acc), cursor))
            } else {
                let spaced = if first {
                    label
                } else {
                    label + seq![' ']
                };
                let next = past(ctx, cursor);
                match ctx.defs.unit(w, ctx.known) {
                    Err(q) => Err(Halt::Awaits(q)),
                    Ok(None) => Err(
                        Halt::Failed(
                            fault_at("'"@ + w + "' is not a valid unit"@, token),
                        ),
                    ),
                    Ok(Some(base)) => match look(ctx, next) {
                        Err(h) => Err(h),
                        Ok(mark) => if mark.mark == Mark::Sym('^') {
                            match unit_exponent(ctx.text, ctx.known, past(ctx, next)) {
                                Err(h) => Err(h),
                                Ok(((exponent, text), after)) => match at_token(
                                    times_power(acc, base, exponent, ctx.known),
                                    token,
                                ) {
                                    Err(h) => Err(h),
                                    Ok(product) => {
                                        proof {
                                            lemma_read(ctx.text, cursor, ctx.known);
                                        }
                                        units_from(
                                            ctx,
                                            onward(ctx.text, next, after),
                                            product,
                                            spaced + w + seq!['^'] + text,
                                            false,
                                        )
                                    },
                                },
                            }
                        } else {
                            match at_token(acc@.product(base@, ctx.known), token) {
                                Err(h) => Err(h),
                                Ok(product) => {
                                    proof {
                                        lemma_read(ctx.text, cursor, ctx.known);
                                    }
                                    units_from(ctx, next, product, spaced + w, first)
                                },
                            }
                        },
                    },
                }
            },
            _ => Ok(((label, acc), cursor)),
        },
    }
}

/// A run of units from the cursor: its text, and the quantity that is one
/// of it.
pub open spec fn units(ctx: Context, cursor: Cursor) -> Parsed<(Seq<char>, Quantity)> {
    units_from(ctx, cursor, one(), Seq::empty(), true)
}

/// An expression in brackets, after the opening bracket.
pub open spec fn bracketed(ctx: Context, cursor: Cursor) -> Parsed<Expr>
    decreases ctx.text.len() - cursor.pos, 10int,
    when within(ctx.text, cursor)
{
    match expression(ctx, cursor) {
        Err(h) => Err(h),
        Ok((expr, next)) => match take(ctx, next) {
            Err(h) => Err(h),
            Ok((token, after)) => if token.mark is RBracket {
                Ok((expr, after))
            } else {
                Err(Halt::Failed(unexpected(token)))
            },
        },
    }
}

/// A root with its index, after the word `root`: an integer from 1 to 127,
/// and an expression in brackets.
pub open spec fn root_form(ctx: Context, cursor: Cursor) -> Parsed<Expr>
    decreases ctx.text.len() - cursor.pos, 1int,
    when within(ctx.text, cursor)
{
    match take(ctx, cursor) {
        Err(h) => Err(h),
        Ok((index, next)) => match index.mark {
            Mark::Int(n) => if n <= 0 {
                Err(Halt::Failed(fault_at("cannot take "@ + decimal(n as int) + "-root"@, index)))
            } else if n > 127 {
                Err(
                    Halt::Failed(
                        fault_at(
                            decimal(n as int)
                                + "-root exceeds maximum supported for the program (max: 127). Use x^(1/y) instead"@,
                            index,
                        ),
                    ),
                )
            } else {
                match take(ctx, next) {
                    Err(h) => Err(h),
                    Ok((bracket, inside)) => if bracket.mark is LBracket {
                        proof {
                            lemma_read(ctx.text, cursor, ctx.known);
                            lemma_read(ctx.text, next, ctx.known);
                        }
                        match bracketed(ctx, inside) {
                            Err(h) => Err(h),
                            Ok((inner, after)) => Ok((unary(UnaryOp::RootN(n as i8), inner), after)),
                        }
                    } else {
                        Err(Halt::Failed(fault_at(bracket_message(), bracket)))
                    },
                }
            },
            _ => Err(
                Halt::Failed(
                    Fault {
                        start: index.start as int,
                        end: index.start as int,
                        message: "Missing integer for root function"@,
                    },
                ),
            ),
        },
    }
}

/// What the word `word` starts, the cursor standing after it: a root with
/// its index, a function of an expression in brackets, or a constant.
pub open spec fn word_form(ctx: Context, cursor: Cursor, word: Seq<char>, token: Lexeme) -> Parsed<
    Expr,
>
    decreases ctx.text.len() - cursor.pos, 2int,
    when within(ctx.text, cursor)
{
    if word == "root"@ {
        root_form(ctx, cursor)
    } else {
        match function_named(word) {
            Some(op) => match take(ctx, cursor) {
                Err(h) => Err(h),
                Ok((bracket, inside)) => if bracket.mark is LBracket {
                    proof {
                        lemma_read(ctx.text, cursor, ctx.known);
                    }
                    match bracketed(ctx, inside) {
                        Err(h) => Err(h),
                        Ok((inner, after)) => Ok((unary(op, inner), after)),
                    }
                } else {
                    Err(Halt::Failed(fault_at(bracket_message(), bracket)))
                },
            },
            None => match ctx.defs.constant(word) {
                Some(c) => Ok((Expr::Quantity(c), cursor)),
                None => Err(
                    Halt::Failed(
                        fault_at("'"@ + word + "' is not a valid function or constant"@, token),
                    ),
                ),
            },
        }
    }
}

/// An operand: a number, an expression in brackets, or what a word
/// starts.
pub open spec fn atom(ctx: Context, cursor: Cursor) -> Parsed<Expr>
    decreases ctx.text.len() - cursor.pos, 3int,
    when within(ctx.text, cursor)
{
    match take(ctx, cursor) {
        Err(h) => Err(h),
        Ok((token, next)) => match token.mark {
            Mark::Num(x) => Ok((literal(AutoNum::Float(x)), next)),
            Mark::Int(n) => Ok((literal(AutoNum::Int(n)), next)),
            Mark::LBracket => {
                proof {
                    lemma_read(ctx.text, cursor, ctx.known);
                }
                bracketed(ctx, next)
            },
            Mark::Word(w) => {
                proof {
                    lemma_read(ctx.text, cursor, ctx.known);
                }
                word_form(ctx, next, w, token)
            },
            _ => Err(Halt::Failed(unexpected(token))),
        },
    }
}

/// What follows the operand `operand`: any number of `%`, `!` and powers,
/// and then, with `words`, a run of units.
pub open spec fn postfix_from(ctx: Context, cursor: Cursor, operand: Expr, words: bool) -> Parsed<
    Expr,
>
    decreases ctx.text.len() - cursor.pos, 4int,
    when within(ctx.text, cursor)
{
    match look(ctx, cursor) {
        Err(h) => Err(h),
        Ok(token) => match token.mark {
            Mark::Sym(c) => match postfix_operator(c) {
                Some(op) => {
                    proof {
                        lemma_read(ctx.text, cursor, ctx.known);
                    }
                    postfix_from(ctx, past(ctx, cursor), unary(op, operand), words)
                },
                None => if c == '^' {
                    proof {
                        lemma_read(ctx.text, cursor, ctx.known);
                    }
                    match prefixed(ctx, past(ctx, cursor), false) {
                        Err(h) => Err(h),
                        Ok((power, after)) => postfix_from(
                            ctx,
                            onward(ctx.text, past(ctx, cursor), after),
                            binary(BinaryOp::Pow, operand, power),
                            words,
                        ),
                    }
                } else {
                    Ok((operand, cursor))
                },
            },
            Mark::Word(w) => if words && !query_keyword(w) {
                match units(ctx, cursor) {
                    Err(h) => Err(h),
                    Ok(((_, unit), after)) => Ok(
                        (binary(BinaryOp::Mul, operand, Expr::Quantity(unit)), after),
                    ),
                }
            } else {
                Ok((operand, cursor))
            },
            _ => Ok((operand, cursor)),
        },
    }
}

/// An operand with what follows it.
pub open spec fn postfixed(ctx: Context, cursor: Cursor, words: bool) -> Parsed<Expr>
    decreases ctx.text.len() - cursor.pos, 5int,
    when within(ctx.text, cursor)
{
    match atom(ctx, cursor) {
        Err(h) => Err(h),
        Ok((operand, next)) => postfix_from(ctx, onward(ctx.text, cursor, next), operand, words),
    }
}

/// Any number of signs, and an operand with what follows it.
pub open spec fn prefixed(ctx: Context, cursor: Cursor, words: bool) -> Parsed<Expr>
    decreases ctx.text.len() - cursor.pos, 6int,
    when within(ctx.text, cursor)
{
    match look(ctx, cursor) {
        Err(h) => Err(h),
        Ok(token) => match token.mark {
            Mark::Sym(c) => match prefix_operator(c) {
                Some(op) => {
                    proof {
                        lemma_read(ctx.text, cursor, ctx.known);
                    }
                    match prefixed(ctx, past(ctx, cursor), words) {
                        Err(h) => Err(h),
                        Ok((operand, after)) => Ok((unary(op, operand), after)),
                    }
                },
                None => postfixed(ctx, cursor, words),
            },
            _ => postfixed(ctx, cursor, words),
        },
    }
}

/// What follows the left operand `lhs` at precedence `floor`: any number
/// of operators that bind more tightly than `floor`, each with its right
/// operand.
pub open spec fn climb_from(ctx: Context, cursor: Cursor, lhs: Expr, floor: u8) -> Parsed<Expr>
    decreases ctx.text.len() - cursor.pos, 7int,
    when within(ctx.text, cursor)
{
    match look(ctx, cursor) {
        Err(h) => Err(h),
        Ok(token) => match token.mark {
            Mark::Sym(c) => match binary_operator(c) {
                Some((op, precedence, right)) => if precedence < floor || (precedence == floor
                    && !right) {
                    Ok((lhs, cursor))
                } else {
                    proof {
                        lemma_read(ctx.text, cursor, ctx.known);
                    }
                    match climb(ctx, past(ctx, cursor), precedence) {
                        Err(h) => Err(h),
                        Ok((rhs, after)) => climb_from(
                            ctx,
                            onward(ctx.text, past(ctx, cursor), after),
                            binary(op, lhs, rhs),
                            floor,
                        ),
                    }
                },
                None => Ok((lhs, cursor)),
            },
            _ => Ok((lhs, cursor)),
        },
    }
}

/// An operand and the operators after it that bind more tightly than
/// `floor`, each with its right operand.
pub open spec fn climb(ctx: Context, cursor: Cursor, floor: u8) -> Parsed<Expr>
    decreases ctx.text.len() - cursor.pos, 8int,
    when within(ctx.text, cursor)
{
    match prefixed(ctx, cursor, true) {
        Err(h) => Err(h),
        Ok((lhs, next)) => climb_from(ctx, onward(ctx.text, cursor, next), lhs, floor),
    }
}

/// An expression: optionally `:`, which takes the units off the value of
/// what follows; operands and operators; and optionally `per` and a run
/// of units, which the value is divided by.
pub open spec fn expression(ctx: Context, cursor: Cursor) -> Parsed<Expr>
    decreases ctx.text.len() - cursor.pos, 9int,
    when within(ctx.text, cursor)
{
    match look(ctx, cursor) {
        Err(h) => Err(h),
        Ok(first) => {
            let bare = first.mark == Mark::Sym(':');
            let start = if bare {
                past(ctx, cursor)
            } else {
                cursor
            };
            proof {
                lemma_read(ctx.text, cursor, ctx.known);
            }
            match climb(ctx, start, 0) {
                Err(h) => Err(h),
                Ok((inner, next)) => match look(ctx, next) {
                    Err(h) => Err(h),
                    Ok(token) => if token.mark == Mark::Word("per"@) {
                        match units(ctx, past(ctx, next)) {
                            Err(h) => Err(h),
                            Ok(((_, unit), after)) => Ok(
                                (
                                    finished(
                                        binary(BinaryOp::Div, inner, Expr::Quantity(unit)),
                                        bare,
                                    ),
                                    after,
                                ),
                            ),
                        }
                    } else {
                        Ok((finished(inner, bare), next))
                    },
                },
            }
        },
    }
}

/// The expression `expr`, with its units taken off where `bare`.
pub open spec fn finished(expr: Expr, bare: bool) -> Expr {
    if bare {
        unary(UnaryOp::Undim, expr)
    } else {
        expr
    }
}


} // verus!
