//! What supplying results does.
//!
//! A function that looks floating-point results up gives a value, fails,
//! or asks for a result. Two things make that a way to compute: what it
//! asks for is never known already, so that each answer is news; and a
//! value or a failure that it has reached stands, whatever more becomes
//! known. They are proved here of reading a query, of the evaluation of
//! an expression and of the answer to a query.

use crate::ast::{apply_binary, apply_unary, Expr};
use crate::autonum::{factorial_up_to, AutoNum};
use crate::binary64::Binary64;
use crate::consts::Definitions;
use crate::floats::{FloatOp, Halt, Known, Request};
use crate::grammar;
use crate::grammar::{look, onward, past, take, within, Context};
use crate::lex::{lemma_read, peek, skip, Cursor, Lexeme, Mark};
use crate::operator::{
    binary_operator, function_named, postfix_operator, prefix_operator, BinaryOp, ScalarFn,
    UnaryOp,
};
use crate::query::{
    answer, bound_keyword, bounds_from, direction, directions_from, float_text, number_text,
    query_keyword, query_of, scientific_text, Asked, Directions,
};
use crate::units::{scalar_function, Measure, Quantity};
use vstd::prelude::*;

verus! {

/// The outcome `first` was reached with what `known` held, and `later`
/// with more: unless `first` asks for a result that `known` lacked,
/// `later` is `first`; and `first` asks for nothing that `known` held.
pub open spec fn settles<T, E>(first: Result<T, Halt<E>>, later: Result<T, Halt<E>>, known: Known)
    -> bool {
    match first {
        Err(Halt::Awaits(q)) => known.lacks(q),
        _ => later == first,
    }
}

/// As `settles`, for an outcome that cannot be a failure.
pub open spec fn settles_plain<T>(first: Result<T, Request>, later: Result<T, Request>, known: Known)
    -> bool {
    match first {
        Err(q) => known.lacks(q),
        _ => later == first,
    }
}

proof fn lemma_float(op: FloatOp, a: AutoNum, b: AutoNum, k1: Known, k2: Known)
    requires
        k1.within(k2),
    ensures
        settles_plain(k1.float(op, a, b), k2.float(op, a, b), k1),
        settles_plain(k1.result(op, a, b), k2.result(op, a, b), k1),
{
}

proof fn lemma_as_float(a: AutoNum, k1: Known, k2: Known)
    requires
        k1.within(k2),
    ensures
        settles_plain(a.as_float(k1), a.as_float(k2), k1),
{
}

proof fn lemma_combined(a: AutoNum, b: AutoNum, op: FloatOp, k1: Known, k2: Known)
    requires
        k1.within(k2),
    ensures
        settles_plain(a.combined(b, op, k1), a.combined(b, op, k2), k1),
{
}

proof fn lemma_quotient(a: AutoNum, b: AutoNum, k1: Known, k2: Known)
    requires
        k1.within(k2),
    ensures
        settles(a.quotient(b, k1), a.quotient(b, k2), k1),
{
}

proof fn lemma_negation(a: AutoNum, k1: Known, k2: Known)
    requires
        k1.within(k2),
    ensures
        settles_plain(a.negation(k1), a.negation(k2), k1),
{
}

proof fn lemma_repeated(base: AutoNum, count: nat, k1: Known, k2: Known)
    requires
        k1.within(k2),
    ensures
        settles_plain(base.repeated(count, k1), base.repeated(count, k2), k1),
    decreases count,
{
    if count > 0 {
        lemma_repeated(base, (count - 1) as nat, k1, k2);
        match base.repeated((count - 1) as nat, k1) {
            Ok(acc) => lemma_combined(acc, base, FloatOp::Mul, k1, k2),
            Err(_) => {},
        }
    }
}

proof fn lemma_power(base: AutoNum, exponent: AutoNum, k1: Known, k2: Known)
    requires
        k1.within(k2),
    ensures
        settles_plain(base.power(exponent, k1), base.power(exponent, k2), k1),
{
    match exponent {
        AutoNum::Int(n) => {
            if -64 < n < 64 {
                lemma_repeated(base, crate::arith::magnitude(n as int), k1, k2);
            }
        },
        AutoNum::Float(_) => {},
    }
}

proof fn lemma_factorial_up_to(n: nat, k1: Known, k2: Known)
    requires
        k1.within(k2),
    ensures
        settles_plain(factorial_up_to(n, k1), factorial_up_to(n, k2), k1),
    decreases n,
{
    if n > 0 {
        lemma_factorial_up_to((n - 1) as nat, k1, k2);
        match factorial_up_to((n - 1) as nat, k1) {
            Ok(acc) => lemma_combined(acc, AutoNum::Int(n as i64), FloatOp::Mul, k1, k2),
            Err(_) => {},
        }
    }
}

proof fn lemma_factorial(a: AutoNum, k1: Known, k2: Known)
    requires
        k1.within(k2),
    ensures
        settles(a.factorial(k1), a.factorial(k2), k1),
{
    match a {
        AutoNum::Int(n) => {
            if n >= 0 {
                lemma_factorial_up_to(n as nat, k1, k2);
            }
        },
        AutoNum::Float(_) => {},
    }
}

proof fn lemma_root(a: AutoNum, n: i8, k1: Known, k2: Known)
    requires
        k1.within(k2),
    ensures
        settles(a.root(n, k1), a.root(n, k2), k1),
{
}

proof fn lemma_scalar_function(f: ScalarFn, a: AutoNum, k1: Known, k2: Known)
    requires
        k1.within(k2),
    ensures
        settles(scalar_function(f, a, k1), scalar_function(f, a, k2), k1),
{
    lemma_factorial(a, k1, k2);
}

proof fn lemma_apply_binary(op: BinaryOp, a: Measure, b: Measure, k1: Known, k2: Known)
    requires
        k1.within(k2),
    ensures
        settles(apply_binary(op, a, b, k1), apply_binary(op, a, b, k2), k1),
{
    match op {
        BinaryOp::Add => lemma_combined(a.value, b.value, FloatOp::Add, k1, k2),
        BinaryOp::Sub => lemma_combined(a.value, b.value, FloatOp::Sub, k1, k2),
        BinaryOp::Mul => lemma_combined(a.value, b.value, FloatOp::Mul, k1, k2),
        BinaryOp::Div => lemma_quotient(a.value, b.value, k1, k2),
        BinaryOp::Pow => lemma_power(a.value, b.value, k1, k2),
    }
}

proof fn lemma_apply_unary(op: UnaryOp, a: Measure, k1: Known, k2: Known)
    requires
        k1.within(k2),
    ensures
        settles(apply_unary(op, a, k1), apply_unary(op, a, k2), k1),
{
    match op {
        UnaryOp::Positive => {},
        UnaryOp::Negative => lemma_negation(a.value, k1, k2),
        UnaryOp::Percent => lemma_scalar_function(ScalarFn::Percent, a.value, k1, k2),
        UnaryOp::Factorial => lemma_scalar_function(ScalarFn::Factorial, a.value, k1, k2),
        UnaryOp::RootN(n) => lemma_root(a.value, n, k1, k2),
        UnaryOp::Sin => lemma_scalar_function(ScalarFn::Sin, a.value, k1, k2),
        UnaryOp::Cos => lemma_scalar_function(ScalarFn::Cos, a.value, k1, k2),
        UnaryOp::Tan => lemma_scalar_function(ScalarFn::Tan, a.value, k1, k2),
        UnaryOp::Exp => lemma_scalar_function(ScalarFn::Exp, a.value, k1, k2),
        UnaryOp::Ln => lemma_scalar_function(ScalarFn::Ln, a.value, k1, k2),
        UnaryOp::Log => lemma_scalar_function(ScalarFn::Log, a.value, k1, k2),
        UnaryOp::Undim => {},
    }
}

/// The value of an expression, once it is reached, stands whatever more
/// becomes known; and so does the failure of its evaluation. What the
/// evaluation asks for is not known yet.
pub proof fn law_value_settles(expr: Expr, k1: Known, k2: Known)
    requires
        k1.within(k2),
    ensures
        settles(expr.value(k1), expr.value(k2), k1),
    decreases expr,
{
    match expr {
        Expr::Quantity(_) => {},
        Expr::Binary(b) => {
            law_value_settles(b.lhs, k1, k2);
            law_value_settles(b.rhs, k1, k2);
            match (b.lhs.value(k1), b.rhs.value(k1)) {
                (Ok(left), Ok(right)) => lemma_apply_binary(b.op, left, right, k1, k2),
                _ => {},
            }
        },
        Expr::Unary(u) => {
            law_value_settles(u.operand, k1, k2);
            match u.operand.value(k1) {
                Ok(operand) => lemma_apply_unary(u.op, operand, k1, k2),
                _ => {},
            }
        },
    }
}

proof fn lemma_scientific_text(x: Binary64, digits: usize, fixed: bool, k1: Known, k2: Known)
    requires
        k1.within(k2),
    ensures
        settles_plain(
            scientific_text(x, digits, fixed, k1),
            scientific_text(x, digits, fixed, k2),
            k1,
        ),
{
}

proof fn lemma_float_text(d: Directions, x: Binary64, k1: Known, k2: Known)
    requires
        k1.within(k2),
    ensures
        settles_plain(float_text(d, x, k1), float_text(d, x, k2), k1),
{
}

proof fn lemma_number_text(d: Directions, value: AutoNum, k1: Known, k2: Known)
    requires
        k1.within(k2),
    ensures
        settles_plain(number_text(d, value, k1), number_text(d, value, k2), k1),
{
    match value {
        AutoNum::Int(_) => {
            lemma_as_float(value, k1, k2);
            match value.as_float(k1) {
                Ok(x) => lemma_scientific_text(
                    x,
                    match d.round {
                        Some(r) => r.0,
                        None => 4usize,
                    },
                    crate::query::wants_scientific(d, x).1,
                    k1,
                    k2,
                ),
                Err(_) => {},
            }
        },
        AutoNum::Float(x) => lemma_float_text(d, x, k1, k2),
    }
}

/// The answer to a query, once it is reached, stands whatever more becomes
/// known; and so does the failure to give one. What is asked for on the
/// way to the answer is not known yet.
pub proof fn law_answer_settles(asked: Asked, k1: Known, k2: Known)
    requires
        k1.within(k2),
    ensures
        settles(answer(asked, k1), answer(asked, k2), k1),
{
    law_value_settles(asked.expr, k1, k2);
    let d = asked.directions;
    match asked.expr.value(k1) {
        Ok(m) => match d.unit {
            Some((label, unit)) => {
                lemma_float(FloatOp::Div, m.value, unit.value, k1, k2);
                match k1.result(FloatOp::Div, m.value, unit.value) {
                    Ok(converted) => lemma_float_text(d, converted, k1, k2),
                    Err(_) => {},
                }
            },
            None => lemma_number_text(d, m.value, k1, k2),
        },
        Err(_) => {},
    }
}


/// Reading from `cursor` has led forward, to a cursor within the text.
pub open spec fn forward<T>(r: grammar::Parsed<T>, text: Seq<char>, cursor: Cursor) -> bool {
    r matches Ok((_, after)) ==> cursor.pos <= after.pos && within(text, after)
}

/// The text and the names of `ctx`, with `known` for what is known.
pub open spec fn with_known(ctx: Context, known: Known) -> Context {
    Context { known, ..ctx }
}

/// A token, once it is read, stands, and the cursor after it with it.
proof fn lemma_token(text: Seq<char>, cursor: Cursor, k1: Known, k2: Known)
    requires
        k1.within(k2),
        within(text, cursor),
    ensures
        settles(peek(text, cursor, k1), peek(text, cursor, k2), k1),
        !(peek(text, cursor, k1) matches Err(Halt::Awaits(_))) ==> skip(text, cursor, k1) == skip(
            text,
            cursor,
            k2,
        ),
{
}

proof fn lemma_unit(defs: Definitions, name: Seq<char>, k1: Known, k2: Known)
    requires
        k1.within(k2),
    ensures
        settles_plain(defs.unit(name, k1), defs.unit(name, k2), k1),
{
}

proof fn lemma_unit_exponent(text: Seq<char>, cursor: Cursor, k1: Known, k2: Known)
    requires
        k1.within(k2),
        within(text, cursor),
    ensures
        forward(grammar::unit_exponent(text, k1, cursor), text, cursor),
        settles(
            grammar::unit_exponent(text, k1, cursor),
            grammar::unit_exponent(text, k2, cursor),
            k1,
        ),
{
    lemma_token(text, cursor, k1, k2);
    lemma_read(text, cursor, k1);
    lemma_token(text, skip(text, cursor, k1), k1, k2);
    lemma_read(text, skip(text, cursor, k1), k1);
}

proof fn lemma_times_power(
    acc: Quantity,
    base: Quantity,
    exponent: i8,
    token: Lexeme,
    k1: Known,
    k2: Known,
)
    requires
        k1.within(k2),
    ensures
        settles(
            grammar::at_token(grammar::times_power(acc, base, exponent, k1), token),
            grammar::at_token(grammar::times_power(acc, base, exponent, k2), token),
            k1,
        ),
        settles(
            grammar::at_token(acc@.product(base@, k1), token),
            grammar::at_token(acc@.product(base@, k2), token),
            k1,
        ),
{
    lemma_power(base.value, AutoNum::Int(exponent as i64), k1, k2);
    lemma_combined(acc.value, base.value, FloatOp::Mul, k1, k2);
    match base.value.power(AutoNum::Int(exponent as i64), k1) {
        Ok(value) => lemma_combined(acc.value, value, FloatOp::Mul, k1, k2),
        Err(_) => {},
    }
}

proof fn lemma_units_from(
    ctx: Context,
    cursor: Cursor,
    acc: Quantity,
    label: Seq<char>,
    first: bool,
    k2: Known,
)
    requires
        ctx.known.within(k2),
        within(ctx.text, cursor),
    ensures
        forward(grammar::units_from(ctx, cursor, acc, label, first), ctx.text, cursor),
        settles(
            grammar::units_from(ctx, cursor, acc, label, first),
            grammar::units_from(with_known(ctx, k2), cursor, acc, label, first),
            ctx.known,
        ),
    decreases ctx.text.len() - cursor.pos,
{
    let k1 = ctx.known;
    let later = with_known(ctx, k2);
    lemma_token(ctx.text, cursor, k1, k2);
    lemma_read(ctx.text, cursor, k1);
    match look(ctx, cursor) {
        Ok(token) => match token.mark {
            Mark::Word(w) => {
                if !(query_keyword(w) || w == "per"@) {
                    let next = past(ctx, cursor);
                    lemma_unit(ctx.defs, w, k1, k2);
                    lemma_token(ctx.text, next, k1, k2);
                    lemma_read(ctx.text, next, k1);
                    match ctx.defs.unit(w, k1) {
                        Ok(Some(base)) => match look(ctx, next) {
                            Ok(mark) => {
                                let spaced = if first {
                                    label
                                } else {
                                    label + seq![' ']
                                };
                                if mark.mark == Mark::Sym('^') {
                                    lemma_unit_exponent(ctx.text, past(ctx, next), k1, k2);
                                    match grammar::unit_exponent(ctx.text, k1, past(ctx, next)) {
                                        Ok(((exponent, text), after)) => {
                                            lemma_times_power(acc, base, exponent, token, k1, k2);
                                            match grammar::at_token(
                                                grammar::times_power(acc, base, exponent, k1),
                                                token,
                                            ) {
                                                Ok(product) => lemma_units_from(
                                                    ctx,
                                                    onward(ctx.text, next, after),
                                                    product,
                                                    spaced + w + seq!['^'] + text,
                                                    false,
                                                    k2,
                                                ),
                                                Err(_) => {},
                                            }
                                        },
                                        Err(_) => {},
                                    }
                                } else {
                                    lemma_times_power(acc, base, 0, token, k1, k2);
                                    match grammar::at_token(acc@.product(base@, k1), token) {
                                        Ok(product) => lemma_units_from(
                                            ctx,
                                            next,
                                            product,
                                            spaced + w,
                                            first,
                                            k2,
                                        ),
                                        Err(_) => {},
                                    }
                                }
                            },
                            Err(_) => {},
                        },
                        _ => {},
                    }
                }
            },
            _ => {},
        },
        Err(_) => {},
    }
}

proof fn lemma_bracketed(ctx: Context, cursor: Cursor, k2: Known)
    requires
        ctx.known.within(k2),
        within(ctx.text, cursor),
    ensures
        forward(grammar::bracketed(ctx, cursor), ctx.text, cursor),
        settles(
            grammar::bracketed(ctx, cursor),
            grammar::bracketed(with_known(ctx, k2), cursor),
            ctx.known,
        ),
    decreases ctx.text.len() - cursor.pos, 10int,
{
    lemma_expression(ctx, cursor, k2);
    match grammar::expression(ctx, cursor) {
        Ok((_, next)) => {
            lemma_token(ctx.text, next, ctx.known, k2);
            lemma_read(ctx.text, next, ctx.known);
        },
        Err(_) => {},
    }
}

proof fn lemma_root_form(ctx: Context, cursor: Cursor, k2: Known)
    requires
        ctx.known.within(k2),
        within(ctx.text, cursor),
    ensures
        forward(grammar::root_form(ctx, cursor), ctx.text, cursor),
        settles(
            grammar::root_form(ctx, cursor),
            grammar::root_form(with_known(ctx, k2), cursor),
            ctx.known,
        ),
    decreases ctx.text.len() - cursor.pos, 1int,
{
    let k1 = ctx.known;
    lemma_token(ctx.text, cursor, k1, k2);
    lemma_read(ctx.text, cursor, k1);
    let next = past(ctx, cursor);
    lemma_token(ctx.text, next, k1, k2);
    lemma_read(ctx.text, next, k1);
    match take(ctx, cursor) {
        Ok((index, _)) => match index.mark {
            Mark::Int(n) => {
                if 0 < n <= 127 {
                    match take(ctx, next) {
                        Ok((bracket, inside)) => {
                            if bracket.mark is LBracket {
                                lemma_bracketed(ctx, inside, k2);
                            }
                        },
                        Err(_) => {},
                    }
                }
            },
            _ => {},
        },
        Err(_) => {},
    }
}

proof fn lemma_word_form(ctx: Context, cursor: Cursor, word: Seq<char>, token: Lexeme, k2: Known)
    requires
        ctx.known.within(k2),
        within(ctx.text, cursor),
    ensures
        forward(grammar::word_form(ctx, cursor, word, token), ctx.text, cursor),
        settles(
            grammar::word_form(ctx, cursor, word, token),
            grammar::word_form(with_known(ctx, k2), cursor, word, token),
            ctx.known,
        ),
    decreases ctx.text.len() - cursor.pos, 2int,
{
    let k1 = ctx.known;
    if word == "root"@ {
        lemma_root_form(ctx, cursor, k2);
    } else {
        match function_named(word) {
            Some(_) => {
                lemma_token(ctx.text, cursor, k1, k2);
                lemma_read(ctx.text, cursor, k1);
                match take(ctx, cursor) {
                    Ok((bracket, inside)) => {
                        if bracket.mark is LBracket {
                            lemma_bracketed(ctx, inside, k2);
                        }
                    },
                    Err(_) => {},
                }
            },
            None => {},
        }
    }
}

proof fn lemma_atom(ctx: Context, cursor: Cursor, k2: Known)
    requires
        ctx.known.within(k2),
        within(ctx.text, cursor),
    ensures
        forward(grammar::atom(ctx, cursor), ctx.text, cursor),
        settles(grammar::atom(ctx, cursor), grammar::atom(with_known(ctx, k2), cursor), ctx.known),
    decreases ctx.text.len() - cursor.pos, 3int,
{
    let k1 = ctx.known;
    lemma_token(ctx.text, cursor, k1, k2);
    lemma_read(ctx.text, cursor, k1);
    match take(ctx, cursor) {
        Ok((token, next)) => match token.mark {
            Mark::LBracket => lemma_bracketed(ctx, next, k2),
            Mark::Word(w) => lemma_word_form(ctx, next, w, token, k2),
            _ => {},
        },
        Err(_) => {},
    }
}

proof fn lemma_postfix_from(ctx: Context, cursor: Cursor, operand: Expr, words: bool, k2: Known)
    requires
        ctx.known.within(k2),
        within(ctx.text, cursor),
    ensures
        forward(grammar::postfix_from(ctx, cursor, operand, words), ctx.text, cursor),
        settles(
            grammar::postfix_from(ctx, cursor, operand, words),
            grammar::postfix_from(with_known(ctx, k2), cursor, operand, words),
            ctx.known,
        ),
    decreases ctx.text.len() - cursor.pos, 4int,
{
    let k1 = ctx.known;
    lemma_token(ctx.text, cursor, k1, k2);
    lemma_read(ctx.text, cursor, k1);
    match look(ctx, cursor) {
        Ok(token) => match token.mark {
            Mark::Sym(c) => match postfix_operator(c) {
                Some(op) => lemma_postfix_from(
                    ctx,
                    past(ctx, cursor),
                    grammar::unary(op, operand),
                    words,
                    k2,
                ),
                None => {
                    if c == '^' {
                        lemma_prefixed(ctx, past(ctx, cursor), false, k2);
                        match grammar::prefixed(ctx, past(ctx, cursor), false) {
                            Ok((power, after)) => lemma_postfix_from(
                                ctx,
                                onward(ctx.text, past(ctx, cursor), after),
                                grammar::binary(BinaryOp::Pow, operand, power),
                                words,
                                k2,
                            ),
                            Err(_) => {},
                        }
                    }
                },
            },
            Mark::Word(w) => {
                if words && !query_keyword(w) {
                    lemma_units_from(ctx, cursor, grammar::one(), Seq::empty(), true, k2);
                }
            },
            _ => {},
        },
        Err(_) => {},
    }
}

proof fn lemma_postfixed(ctx: Context, cursor: Cursor, words: bool, k2: Known)
    requires
        ctx.known.within(k2),
        within(ctx.text, cursor),
    ensures
        forward(grammar::postfixed(ctx, cursor, words), ctx.text, cursor),
        settles(
            grammar::postfixed(ctx, cursor, words),
            grammar::postfixed(with_known(ctx, k2), cursor, words),
            ctx.known,
        ),
    decreases ctx.text.len() - cursor.pos, 5int,
{
    lemma_atom(ctx, cursor, k2);
    match grammar::atom(ctx, cursor) {
        Ok((operand, next)) => lemma_postfix_from(
            ctx,
            onward(ctx.text, cursor, next),
            operand,
            words,
            k2,
        ),
        Err(_) => {},
    }
}

proof fn lemma_prefixed(ctx: Context, cursor: Cursor, words: bool, k2: Known)
    requires
        ctx.known.within(k2),
        within(ctx.text, cursor),
    ensures
        forward(grammar::prefixed(ctx, cursor, words), ctx.text, cursor),
        settles(
            grammar::prefixed(ctx, cursor, words),
            grammar::prefixed(with_known(ctx, k2), cursor, words),
            ctx.known,
        ),
    decreases ctx.text.len() - cursor.pos, 6int,
{
    let k1 = ctx.known;
    lemma_token(ctx.text, cursor, k1, k2);
    lemma_read(ctx.text, cursor, k1);
    match look(ctx, cursor) {
        Ok(token) => match token.mark {
            Mark::Sym(c) => match prefix_operator(c) {
                Some(_) => lemma_prefixed(ctx, past(ctx, cursor), words, k2),
                None => lemma_postfixed(ctx, cursor, words, k2),
            },
            _ => lemma_postfixed(ctx, cursor, words, k2),
        },
        Err(_) => {},
    }
}

proof fn lemma_climb_from(ctx: Context, cursor: Cursor, lhs: Expr, floor: u8, k2: Known)
    requires
        ctx.known.within(k2),
        within(ctx.text, cursor),
    ensures
        forward(grammar::climb_from(ctx, cursor, lhs, floor), ctx.text, cursor),
        settles(
            grammar::climb_from(ctx, cursor, lhs, floor),
            grammar::climb_from(with_known(ctx, k2), cursor, lhs, floor),
            ctx.known,
        ),
    decreases ctx.text.len() - cursor.pos, 7int,
{
    let k1 = ctx.known;
    lemma_token(ctx.text, cursor, k1, k2);
    lemma_read(ctx.text, cursor, k1);
    match look(ctx, cursor) {
        Ok(token) => match token.mark {
            Mark::Sym(c) => match binary_operator(c) {
                Some((op, precedence, right)) => {
                    if !(precedence < floor || (precedence == floor && !right)) {
                        lemma_climb(ctx, past(ctx, cursor), precedence, k2);
                        match grammar::climb(ctx, past(ctx, cursor), precedence) {
                            Ok((rhs, after)) => lemma_climb_from(
                                ctx,
                                onward(ctx.text, past(ctx, cursor), after),
                                grammar::binary(op, lhs, rhs),
                                floor,
                                k2,
                            ),
                            Err(_) => {},
                        }
                    }
                },
                None => {},
            },
            _ => {},
        },
        Err(_) => {},
    }
}

proof fn lemma_climb(ctx: Context, cursor: Cursor, floor: u8, k2: Known)
    requires
        ctx.known.within(k2),
        within(ctx.text, cursor),
    ensures
        forward(grammar::climb(ctx, cursor, floor), ctx.text, cursor),
        settles(
            grammar::climb(ctx, cursor, floor),
            grammar::climb(with_known(ctx, k2), cursor, floor),
            ctx.known,
        ),
    decreases ctx.text.len() - cursor.pos, 8int,
{
    lemma_prefixed(ctx, cursor, true, k2);
    match grammar::prefixed(ctx, cursor, true) {
        Ok((lhs, next)) => lemma_climb_from(ctx, onward(ctx.text, cursor, next), lhs, floor, k2),
        Err(_) => {},
    }
}

proof fn lemma_expression(ctx: Context, cursor: Cursor, k2: Known)
    requires
        ctx.known.within(k2),
        within(ctx.text, cursor),
    ensures
        forward(grammar::expression(ctx, cursor), ctx.text, cursor),
        settles(
            grammar::expression(ctx, cursor),
            grammar::expression(with_known(ctx, k2), cursor),
            ctx.known,
        ),
    decreases ctx.text.len() - cursor.pos, 9int,
{
    let k1 = ctx.known;
    lemma_token(ctx.text, cursor, k1, k2);
    lemma_read(ctx.text, cursor, k1);
    match look(ctx, cursor) {
        Ok(first) => {
            let start = if first.mark == Mark::Sym(':') {
                past(ctx, cursor)
            } else {
                cursor
            };
            lemma_climb(ctx, start, 0, k2);
            match grammar::climb(ctx, start, 0) {
                Ok((_, next)) => {
                    lemma_token(ctx.text, next, k1, k2);
                    lemma_read(ctx.text, next, k1);
                    match look(ctx, next) {
                        Ok(token) => {
                            if token.mark == Mark::Word("per"@) {
                                lemma_units_from(
                                    ctx,
                                    past(ctx, next),
                                    grammar::one(),
                                    Seq::empty(),
                                    true,
                                    k2,
                                );
                            }
                        },
                        Err(_) => {},
                    }
                },
                Err(_) => {},
            }
        },
        Err(_) => {},
    }
}


proof fn lemma_bounds_from(
    ctx: Context,
    cursor: Cursor,
    lower: Option<Binary64>,
    upper: Option<Binary64>,
    k2: Known,
)
    requires
        ctx.known.within(k2),
        within(ctx.text, cursor),
    ensures
        forward(bounds_from(ctx, cursor, lower, upper), ctx.text, cursor),
        settles(
            bounds_from(ctx, cursor, lower, upper),
            bounds_from(with_known(ctx, k2), cursor, lower, upper),
            ctx.known,
        ),
    decreases ctx.text.len() - cursor.pos,
{
    let k1 = ctx.known;
    lemma_token(ctx.text, cursor, k1, k2);
    lemma_read(ctx.text, cursor, k1);
    let next = past(ctx, cursor);
    lemma_token(ctx.text, next, k1, k2);
    lemma_read(ctx.text, next, k1);
    match look(ctx, cursor) {
        Ok(token) => match bound_keyword(token) {
            Some(is_upper) => {
                if (if is_upper {
                    upper
                } else {
                    lower
                }) is None {
                    match take(ctx, next) {
                        Ok((number, after)) => match number.mark {
                            Mark::Num(x) => {
                                if is_upper {
                                    lemma_bounds_from(
                                        ctx,
                                        onward(ctx.text, next, after),
                                        lower,
                                        Some(x),
                                        k2,
                                    );
                                } else {
                                    lemma_bounds_from(
                                        ctx,
                                        onward(ctx.text, next, after),
                                        Some(x),
                                        upper,
                                        k2,
                                    );
                                }
                            },
                            _ => {},
                        },
                        Err(_) => {},
                    }
                }
            },
            None => {},
        },
        Err(_) => {},
    }
}

proof fn lemma_direction(
    ctx: Context,
    cursor: Cursor,
    d: Directions,
    word: Seq<char>,
    keyword: Lexeme,
    k2: Known,
)
    requires
        ctx.known.within(k2),
        within(ctx.text, cursor),
    ensures
        forward(direction(ctx, cursor, d, word, keyword), ctx.text, cursor),
        settles(
            direction(ctx, cursor, d, word, keyword),
            direction(with_known(ctx, k2), cursor, d, word, keyword),
            ctx.known,
        ),
{
    reveal(direction);
    let k1 = ctx.known;
    lemma_token(ctx.text, cursor, k1, k2);
    lemma_read(ctx.text, cursor, k1);
    let next = past(ctx, cursor);
    lemma_token(ctx.text, next, k1, k2);
    lemma_read(ctx.text, next, k1);
    lemma_units_from(ctx, cursor, grammar::one(), Seq::empty(), true, k2);
    lemma_bounds_from(ctx, next, None, None, k2);
}

proof fn lemma_directions_from(ctx: Context, cursor: Cursor, d: Directions, k2: Known)
    requires
        ctx.known.within(k2),
        within(ctx.text, cursor),
    ensures
        settles(
            directions_from(ctx, cursor, d),
            directions_from(with_known(ctx, k2), cursor, d),
            ctx.known,
        ),
    decreases ctx.text.len() - cursor.pos,
{
    let k1 = ctx.known;
    lemma_token(ctx.text, cursor, k1, k2);
    lemma_read(ctx.text, cursor, k1);
    match take(ctx, cursor) {
        Ok((token, next)) => match token.mark {
            Mark::Word(w) => {
                lemma_direction(ctx, next, d, w, token, k2);
                match direction(ctx, next, d, w, token) {
                    Ok((more, after)) => lemma_directions_from(
                        ctx,
                        onward(ctx.text, next, after),
                        more,
                        k2,
                    ),
                    Err(_) => {},
                }
            },
            _ => {},
        },
        Err(_) => {},
    }
}

/// A query, once it is read, stands whatever more becomes known; and so
/// does the failure to read one. What reading asks for is not known yet.
pub proof fn law_query_settles(ctx: Context, k2: Known)
    requires
        ctx.known.within(k2),
    ensures
        settles(query_of(ctx), query_of(with_known(ctx, k2)), ctx.known),
{
    let start = Cursor { pos: 0, last_end: 0 };
    lemma_expression(ctx, start, k2);
    match grammar::expression(ctx, start) {
        Ok((_, next)) => lemma_directions_from(
            ctx,
            onward(ctx.text, start, next),
            crate::query::no_directions(),
            k2,
        ),
        Err(_) => {},
    }
}

/// Reading an expression leads forward within the text: the cursor after
/// an expression stands within the text, and not before the cursor that
/// the expression was read from.
pub proof fn law_reading_leads_forward(ctx: Context, cursor: Cursor)
    requires
        within(ctx.text, cursor),
    ensures
        forward(grammar::expression(ctx, cursor), ctx.text, cursor),
        forward(grammar::units(ctx, cursor), ctx.text, cursor),
{
    lemma_known_within(ctx.known);
    lemma_expression(ctx, cursor, ctx.known);
    lemma_units_from(ctx, cursor, grammar::one(), Seq::empty(), true, ctx.known);
}

/// What is known is within itself.
proof fn lemma_known_within(known: Known)
    ensures
        known.within(known),
{
}

} // verus!
