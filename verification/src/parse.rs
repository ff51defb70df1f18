//! Reading an expression from its tokens.

use crate::ast::{EvalError, Expr};
use crate::autonum::AutoNum;
use crate::binary64::{Binary64, ONE_BITS};
use crate::consts::Definitions;
use crate::error::{fault_at, get_token_str, Fault, ParseError};
use crate::floats::{Halt, Known};
use crate::grammar;
use crate::grammar::{at_token, exponent_fault, magnitude_fault, unexpected, Context, Parsed};
use crate::lex::{lemma_read, Cursor, Lexer, Token, TokenData};
use crate::operator::{
    try_get_binary_operator, try_get_function, try_get_postfix_operator,
    try_get_prefix_operator, BinaryOp, UnaryOp,
};
use crate::query::is_query_keyword;
use crate::text::{decimal, push_decimal, same_text};
use crate::units::{seen, Quantity};
use vstd::prelude::*;
use vstd::string::*;

verus! {

/// What a lexer reads from, with the names and the results at hand.
pub open spec fn context(lexer: Lexer, defs: Definitions, known: Known) -> Context {
    Context { text: lexer.input(), defs, known }
}

/// A result of reading, with the cursor that the lexer was left at and the
/// error taken by its view.
pub open spec fn outcome<T>(r: Result<T, Halt<ParseError>>, cursor: Cursor) -> Parsed<T> {
    match r {
        Ok(v) => Ok((v, cursor)),
        Err(Halt::Failed(e)) => Err(Halt::Failed(e@)),
        Err(Halt::Awaits(q)) => Err(Halt::Awaits(q)),
    }
}

/// A result of reading units, likewise, with the label taken by its view.
pub open spec fn units_outcome(r: Result<(String, Quantity), Halt<ParseError>>, cursor: Cursor)
    -> Parsed<(Seq<char>, Quantity)> {
    match r {
        Ok((label, unit)) => Ok(((label@, unit), cursor)),
        Err(Halt::Failed(e)) => Err(Halt::Failed(e@)),
        Err(Halt::Awaits(q)) => Err(Halt::Awaits(q)),
    }
}

/// Whether the error of a result, if it has one, is about the text
/// `source`.
pub open spec fn about<'a, T>(r: Result<T, Halt<ParseError<'a>>>, source: &'a str) -> bool {
    r matches Err(Halt::Failed(e)) ==> e.original == source
}

/// The error for a token that cannot stand where it stands.
fn unexpected_error<'a, T>(token: &Token<'a>, original: &'a str) -> (r: Result<
    T,
    Halt<ParseError<'a>>,
>)
    ensures
        r matches Err(Halt::Failed(e)) && e@ == unexpected(token@) && e.original == original,
{
    let mut message = String::from_str("unexpected ");
    let name = get_token_str(token);
    message.append(name.as_str());
    Err(Halt::Failed(ParseError::from_token(message, token, original)))
}

/// The error with the message `message` at `token`.
fn error_at<'a, T>(message: &str, token: &Token<'a>, original: &'a str) -> (r: Result<
    T,
    Halt<ParseError<'a>>,
>)
    ensures
        r matches Err(Halt::Failed(e)) && e@ == fault_at(message@, token@) && e.original
            == original,
{
    Err(Halt::Failed(ParseError::from_token(String::from_str(message), token, original)))
}

/// A result with the error taken by its view.
pub open spec fn faulted<T>(r: Result<T, Halt<ParseError>>) -> Result<T, Halt<Fault>> {
    match r {
        Ok(v) => Ok(v),
        Err(Halt::Failed(e)) => Err(Halt::Failed(e@)),
        Err(Halt::Awaits(q)) => Err(Halt::Awaits(q)),
    }
}

/// A failure of the algebra of quantities as an error at `token`.
fn at<'a>(r: Result<Quantity, Halt<EvalError>>, token: &Token<'a>, original: &'a str) -> (out:
    Result<Quantity, Halt<ParseError<'a>>>)
    ensures
        faulted(out) == at_token(seen(r), token@),
        about(out, original),
{
    match r {
        Ok(q) => {
            proof {
                q.lemma_from_measure();
            }
            Ok(q)
        },
        Err(Halt::Failed(e)) => Err(Halt::Failed(ParseError::from_token(e.error, token, original))),
        Err(Halt::Awaits(q)) => Err(Halt::Awaits(q)),
    }
}

/// Reads an expression in brackets, after the opening bracket.
fn bracketed<'a>(lexer: &mut Lexer<'a>, defs: &Definitions, known: &Known) -> (r: Result<
    Expr,
    Halt<ParseError<'a>>,
>)
    requires
        old(lexer).wf(),
    ensures
        final(lexer).wf(),
        final(lexer).input() == old(lexer).input(),
        final(lexer).source() == old(lexer).source(),
        old(lexer).cursor().pos <= final(lexer).cursor().pos,
        outcome(r, final(lexer).cursor()) == grammar::bracketed(
            context(*old(lexer), *defs, *known),
            old(lexer).cursor(),
        ),
        about(r, old(lexer).source()),
    decreases old(lexer).input().len() - old(lexer).cursor().pos, 10int,
{
    proof {
        lexer.lemma_within();
    }
    let expr = parse_expr(lexer, defs, known)?;
    let rbrack = lexer.next_token(known)?;
    match rbrack.data {
        TokenData::RBracket => Ok(expr),
        _ => unexpected_error(&rbrack, lexer.original()),
    }
}

/// Reads a root with its index, after the word `root`.
fn root_n<'a>(lexer: &mut Lexer<'a>, defs: &Definitions, known: &Known) -> (r: Result<
    Expr,
    Halt<ParseError<'a>>,
>)
    requires
        old(lexer).wf(),
    ensures
        final(lexer).wf(),
        final(lexer).input() == old(lexer).input(),
        final(lexer).source() == old(lexer).source(),
        old(lexer).cursor().pos <= final(lexer).cursor().pos,
        outcome(r, final(lexer).cursor()) == grammar::root_form(
            context(*old(lexer), *defs, *known),
            old(lexer).cursor(),
        ),
        about(r, old(lexer).source()),
    decreases old(lexer).input().len() - old(lexer).cursor().pos, 1int,
{
    proof {
        lexer.lemma_within();
        lemma_read(lexer.input(), lexer.cursor(), *known);
    }
    let n_token = lexer.next_token(known)?;
    if let TokenData::Int(n) = n_token.data {
        if n <= 0 {
            let mut message = String::from_str("cannot take ");
            push_decimal(&mut message, n);
            message.append("-root");
            return Err(Halt::Failed(ParseError::from_token(message, &n_token, lexer.original())));
        } else if n > 127 {
            let mut message = String::new();
            push_decimal(&mut message, n);
            message.append(
                "-root exceeds maximum supported for the program (max: 127). Use x^(1/y) instead",
            );
            assert(message@ =~= decimal(n as int)
                + "-root exceeds maximum supported for the program (max: 127). Use x^(1/y) instead"@);
            return Err(Halt::Failed(ParseError::from_token(message, &n_token, lexer.original())));
        }
        proof {
            lexer.lemma_within();
            lemma_read(lexer.input(), lexer.cursor(), *known);
        }
        let lbrack_token = lexer.next_token(known)?;
        match lbrack_token.data {
            TokenData::LBracket => {},
            _ => {
                return error_at(
                    "expected left bracket '(' after function",
                    &lbrack_token,
                    lexer.original(),
                );
            },
        }
        let inner = bracketed(lexer, defs, known)?;
        Ok(Expr::unary(UnaryOp::RootN(n as i8), inner))
    } else {
        Err(
            Halt::Failed(
                ParseError::from_pos(
                    String::from_str("Missing integer for root function"),
                    n_token.start_pos,
                    lexer.original(),
                ),
            ),
        )
    }
}

/// Reads what the word `word` starts: a root, a function of an expression
/// in brackets, or a constant.
fn parse_word_at_start_of_atom<'a>(
    lexer: &mut Lexer<'a>,
    defs: &Definitions,
    known: &Known,
    word: &'a str,
    word_token: &Token<'a>,
) -> (r: Result<Expr, Halt<ParseError<'a>>>)
    requires
        old(lexer).wf(),
    ensures
        final(lexer).wf(),
        final(lexer).input() == old(lexer).input(),
        final(lexer).source() == old(lexer).source(),
        old(lexer).cursor().pos <= final(lexer).cursor().pos,
        outcome(r, final(lexer).cursor()) == grammar::word_form(
            context(*old(lexer), *defs, *known),
            old(lexer).cursor(),
            word@,
            word_token@,
        ),
        about(r, old(lexer).source()),
    decreases old(lexer).input().len() - old(lexer).cursor().pos, 2int,
{
    proof {
        lexer.lemma_within();
        lemma_read(lexer.input(), lexer.cursor(), *known);
    }
    if same_text(word, "root") {
        root_n(lexer, defs, known)
    } else if let Some(op) = try_get_function(word) {
        let token = lexer.next_token(known)?;
        match token.data {
            TokenData::LBracket => {
                let inner = bracketed(lexer, defs, known)?;
                Ok(Expr::unary(op, inner))
            },
            _ => error_at("expected left bracket '(' after function", &token, lexer.original()),
        }
    } else if let Some(c) = defs.get_constant(word) {
        Ok(Expr::Quantity(c))
    } else {
        let mut message = String::from_str("'");
        message.append(word);
        message.append("' is not a valid function or constant");
        Err(Halt::Failed(ParseError::from_token(message, word_token, lexer.original())))
    }
}

/// Reads an operand.
fn atom<'a>(lexer: &mut Lexer<'a>, defs: &Definitions, known: &Known) -> (r: Result<
    Expr,
    Halt<ParseError<'a>>,
>)
    requires
        old(lexer).wf(),
    ensures
        final(lexer).wf(),
        final(lexer).input() == old(lexer).input(),
        final(lexer).source() == old(lexer).source(),
        old(lexer).cursor().pos <= final(lexer).cursor().pos,
        outcome(r, final(lexer).cursor()) == grammar::atom(
            context(*old(lexer), *defs, *known),
            old(lexer).cursor(),
        ),
        about(r, old(lexer).source()),
    decreases old(lexer).input().len() - old(lexer).cursor().pos, 3int,
{
    proof {
        lexer.lemma_within();
        lemma_read(lexer.input(), lexer.cursor(), *known);
    }
    let token = lexer.next_token(known)?;
    match token.data {
        TokenData::Num(x) => Ok(Expr::Quantity(Quantity::dimensionless(AutoNum::Float(x)))),
        TokenData::Int(n) => Ok(Expr::Quantity(Quantity::dimensionless(AutoNum::Int(n)))),
        TokenData::LBracket => bracketed(lexer, defs, known),
        TokenData::Word(w) => parse_word_at_start_of_atom(lexer, defs, known, w, &token),
        _ => unexpected_error(&token, lexer.original()),
    }
}

/// The error for a token in the place of the integer of an exponent.
fn exponent_error<'a, T>(token: &Token<'a>, original: &'a str) -> (r: Result<
    T,
    Halt<ParseError<'a>>,
>)
    ensures
        r matches Err(Halt::Failed(e)) && e@ == exponent_fault(token@) && e.original == original,
{
    let mut message = String::from_str("unexpected ");
    let name = get_token_str(token);
    message.append(name.as_str());
    message.append(", expected integer in exponent");
    Err(Halt::Failed(ParseError::from_token(message, token, original)))
}

/// The error for the integer of an exponent that is out of range.
fn magnitude_error<'a, T>(token: &Token<'a>, original: &'a str) -> (r: Result<
    T,
    Halt<ParseError<'a>>,
>)
    ensures
        r matches Err(Halt::Failed(e)) && e@ == magnitude_fault(token@) && e.original == original,
{
    let mut message = String::from_str("magnitude of '");
    message.append(token.substr);
    message.append("' exceeds maximum (max: -128 to 127)");
    Err(Halt::Failed(ParseError::from_token(message, token, original)))
}

/// Reads the exponent of a unit, after `^`, and appends its text to
/// `units_str`.
pub fn parse_unit_exponent<'a>(lexer: &mut Lexer<'a>, units_str: &mut String, known: &Known) -> (r:
    Result<i8, Halt<ParseError<'a>>>)
    requires
        old(lexer).wf(),
    ensures
        final(lexer).wf(),
        final(lexer).input() == old(lexer).input(),
        final(lexer).source() == old(lexer).source(),
        old(lexer).cursor().pos <= final(lexer).cursor().pos,
        match r {
            Ok(exponent) => grammar::unit_exponent(
                old(lexer).input(),
                *known,
                old(lexer).cursor(),
            ) matches Ok(((e, text), cursor)) && e == exponent && cursor == final(lexer).cursor()
                && final(units_str)@ == old(units_str)@ + text,
            Err(Halt::Failed(e)) => grammar::unit_exponent(
                old(lexer).input(),
                *known,
                old(lexer).cursor(),
            ) == Err::<((i8, Seq<char>), Cursor), Halt<Fault>>(Halt::Failed(e@)),
            Err(Halt::Awaits(q)) => grammar::unit_exponent(
                old(lexer).input(),
                *known,
                old(lexer).cursor(),
            ) == Err::<((i8, Seq<char>), Cursor), Halt<Fault>>(Halt::Awaits(q)),
        },
        about(r, old(lexer).source()),
{
    let token = lexer.next_token(known)?;
    match token.data {
        TokenData::Int(n) => {
            if n > 127 {
                return magnitude_error(&token, lexer.original());
            }
            units_str.append(token.substr);
            Ok(n as i8)
        },
        TokenData::Sym(c) => {
            if c != '-' {
                return exponent_error(&token, lexer.original());
            }
            proof {
                lexer.lemma_within();
            }
            let num_token = lexer.next_token(known)?;
            match num_token.data {
                TokenData::Int(n) => {
                    if n > 128 {
                        return magnitude_error(&num_token, lexer.original());
                    }
                    units_str.push('-');
                    units_str.append(num_token.substr);
                    assert(final(units_str)@ =~= old(units_str)@ + (seq!['-'] + num_token@.text));
                    Ok((-n) as i8)
                },
                _ => exponent_error(&num_token, lexer.original()),
            }
        },
        _ => exponent_error(&token, lexer.original()),
    }
}


/// Reads a run of units: gives its text, and the quantity that is one of
/// it.
pub fn parse_units<'a>(lexer: &mut Lexer<'a>, defs: &Definitions, known: &Known) -> (r: Result<
    (String, Quantity),
    Halt<ParseError<'a>>,
>)
    requires
        old(lexer).wf(),
    ensures
        final(lexer).wf(),
        final(lexer).input() == old(lexer).input(),
        final(lexer).source() == old(lexer).source(),
        old(lexer).cursor().pos <= final(lexer).cursor().pos,
        units_outcome(r, final(lexer).cursor()) == grammar::units(
            context(*old(lexer), *defs, *known),
            old(lexer).cursor(),
        ),
        about(r, old(lexer).source()),
{
    let mut units_quantity = Quantity::dimensionless(
        AutoNum::Float(Binary64 { bits: ONE_BITS }),
    );
    let mut units_str = String::new();
    let mut first = true;
    let ghost ctx = context(*lexer, *defs, *known);
    let ghost start = lexer.cursor();
    loop
        invariant
            lexer.wf(),
            lexer.input() == old(lexer).input(),
            lexer.source() == old(lexer).source(),
            ctx == context(*old(lexer), *defs, *known),
            start == old(lexer).cursor(),
            start.pos <= lexer.cursor().pos,
            grammar::units(ctx, start) == grammar::units_from(
                ctx,
                lexer.cursor(),
                units_quantity,
                units_str@,
                first,
            ),
        decreases lexer.input().len() - lexer.cursor().pos,
    {
        let ghost here = lexer.cursor();
        let ghost label = units_str@;
        proof {
            lexer.lemma_within();
            lemma_read(ctx.text, here, *known);
        }
        let token = lexer.peek_token(known)?;
        let w = match token.data {
            TokenData::Word(w) => w,
            _ => {
                return Ok((units_str, units_quantity));
            },
        };
        if is_query_keyword(w) || same_text(w, "per") {
            return Ok((units_str, units_quantity));
        }
        if !first {
            units_str.push(' ');
        }
        let _ = lexer.next_token(known);
        let ghost next = lexer.cursor();
        let base_unit = match defs.get_unit(w, known) {
            Ok(Some(u)) => {
                units_str.append(w);
                u
            },
            Ok(None) => {
                let mut message = String::from_str("'");
                message.append(w);
                message.append("' is not a valid unit");
                return Err(
                    Halt::Failed(ParseError::from_token(message, &token, lexer.original())),
                );
            },
            Err(q) => {
                return Err(Halt::Awaits(q));
            },
        };
        proof {
            lexer.lemma_within();
            lemma_read(ctx.text, next, *known);
        }
        let mark = lexer.peek_token(known)?;
        let caret: bool = match mark.data {
            TokenData::Sym(c) => c == '^',
            _ => false,
        };
        let ghost spaced = if first {
            label
        } else {
            label + seq![' ']
        };
        assert(units_str@ =~= spaced + w@);
        if !caret {
            units_quantity =
            match at(units_quantity.mul_quantity(&base_unit, known), &token, lexer.original()) {
                Ok(q) => q,
                Err(h) => {
                    return Err(h);
                },
            };
            continue ;
        }
        units_str.push('^');
        let _ = lexer.next_token(known);
        let ghost inside = lexer.cursor();
        let exponent = parse_unit_exponent(lexer, &mut units_str, known)?;
        let ghost text = grammar::unit_exponent(ctx.text, *known, inside)->Ok_0.0.1;
        proof {
            lexer.lemma_within();
            assert(units_str@ =~= spaced + w@ + seq!['^'] + text);
            assert(grammar::onward(ctx.text, next, lexer.cursor()) == lexer.cursor());
        }
        let dims = match base_unit.units.pow(exponent) {
            Ok(d) => d,
            Err(e) => {
                return Err(
                    Halt::Failed(ParseError::from_token(e.error, &token, lexer.original())),
                );
            },
        };
        let value = match base_unit.value.auto_pow(&AutoNum::Int(exponent as i64), known) {
            Ok(v) => v,
            Err(q) => {
                return Err(Halt::Awaits(q));
            },
        };
        units_quantity =
        match at(
            units_quantity.mul_quantity(&Quantity::new(value, dims), known),
            &token,
            lexer.original(),
        ) {
            Ok(q) => q,
            Err(h) => {
                return Err(h);
            },
        };
        first = false;
    }
}

/// Reads an operand with what follows it: `%`, `!`, powers, and, with
/// `consume_postfix_words`, units.
fn postfixed<'a>(
    lexer: &mut Lexer<'a>,
    defs: &Definitions,
    known: &Known,
    consume_postfix_words: bool,
) -> (r: Result<Expr, Halt<ParseError<'a>>>)
    requires
        old(lexer).wf(),
    ensures
        final(lexer).wf(),
        final(lexer).input() == old(lexer).input(),
        final(lexer).source() == old(lexer).source(),
        old(lexer).cursor().pos <= final(lexer).cursor().pos,
        outcome(r, final(lexer).cursor()) == grammar::postfixed(
            context(*old(lexer), *defs, *known),
            old(lexer).cursor(),
            consume_postfix_words,
        ),
        about(r, old(lexer).source()),
    decreases old(lexer).input().len() - old(lexer).cursor().pos, 5int,
{
    proof {
        lexer.lemma_within();
    }
    let ghost ctx = context(*lexer, *defs, *known);
    let ghost start = lexer.cursor();
    let mut operand = atom(lexer, defs, known)?;
    proof {
        lexer.lemma_within();
    }
    loop
        invariant
            lexer.wf(),
            lexer.input() == old(lexer).input(),
            lexer.source() == old(lexer).source(),
            ctx == context(*old(lexer), *defs, *known),
            start == old(lexer).cursor(),
            start.pos <= lexer.cursor().pos,
            grammar::postfixed(ctx, start, consume_postfix_words) == grammar::postfix_from(
                ctx,
                lexer.cursor(),
                operand,
                consume_postfix_words,
            ),
        decreases lexer.input().len() - lexer.cursor().pos,
    {
        proof {
            lexer.lemma_within();
            lemma_read(ctx.text, lexer.cursor(), *known);
        }
        let token = lexer.peek_token(known)?;
        match token.data {
            TokenData::Sym(c) => {
                if let Some(op) = try_get_postfix_operator(c) {
                    let _ = lexer.next_token(known);
                    operand = Expr::unary(op, operand);
                    continue ;
                } else if c == '^' {
                    let _ = lexer.next_token(known);
                    let power = prefixed(lexer, defs, known, false)?;
                    proof {
                        lexer.lemma_within();
                    }
                    operand = Expr::binary(BinaryOp::Pow, operand, power);
                } else {
                    return Ok(operand);
                }
            },
            TokenData::Word(w) => {
                if consume_postfix_words && !is_query_keyword(w) {
                    let (_, units) = parse_units(lexer, defs, known)?;
                    return Ok(Expr::with_units(operand, units));
                } else {
                    return Ok(operand);
                }
            },
            _ => {
                return Ok(operand);
            },
        }
    }
}

/// Reads any number of signs, and an operand with what follows it.
fn prefixed<'a>(
    lexer: &mut Lexer<'a>,
    defs: &Definitions,
    known: &Known,
    consume_postfix_words: bool,
) -> (r: Result<Expr, Halt<ParseError<'a>>>)
    requires
        old(lexer).wf(),
    ensures
        final(lexer).wf(),
        final(lexer).input() == old(lexer).input(),
        final(lexer).source() == old(lexer).source(),
        old(lexer).cursor().pos <= final(lexer).cursor().pos,
        outcome(r, final(lexer).cursor()) == grammar::prefixed(
            context(*old(lexer), *defs, *known),
            old(lexer).cursor(),
            consume_postfix_words,
        ),
        about(r, old(lexer).source()),
    decreases old(lexer).input().len() - old(lexer).cursor().pos, 6int,
{
    proof {
        lexer.lemma_within();
        lemma_read(lexer.input(), lexer.cursor(), *known);
    }
    let token = lexer.peek_token(known)?;
    match token.data {
        TokenData::Sym(c) => match try_get_prefix_operator(c) {
            Some(op) => {
                let _ = lexer.next_token(known);
                let operand = prefixed(lexer, defs, known, consume_postfix_words)?;
                Ok(Expr::unary(op, operand))
            },
            None => postfixed(lexer, defs, known, consume_postfix_words),
        },
        _ => postfixed(lexer, defs, known, consume_postfix_words),
    }
}

/// Reads an operand and the operators after it that bind more tightly
/// than `prev_prec`, each with its right operand.
fn pratt<'a>(lexer: &mut Lexer<'a>, defs: &Definitions, known: &Known, prev_prec: u8) -> (r:
    Result<Expr, Halt<ParseError<'a>>>)
    requires
        old(lexer).wf(),
    ensures
        final(lexer).wf(),
        final(lexer).input() == old(lexer).input(),
        final(lexer).source() == old(lexer).source(),
        old(lexer).cursor().pos <= final(lexer).cursor().pos,
        outcome(r, final(lexer).cursor()) == grammar::climb(
            context(*old(lexer), *defs, *known),
            old(lexer).cursor(),
            prev_prec,
        ),
        about(r, old(lexer).source()),
    decreases old(lexer).input().len() - old(lexer).cursor().pos, 8int,
{
    proof {
        lexer.lemma_within();
    }
    let ghost ctx = context(*lexer, *defs, *known);
    let ghost start = lexer.cursor();
    let mut lhs = prefixed(lexer, defs, known, true)?;
    proof {
        lexer.lemma_within();
    }
    loop
        invariant
            lexer.wf(),
            lexer.input() == old(lexer).input(),
            lexer.source() == old(lexer).source(),
            ctx == context(*old(lexer), *defs, *known),
            start == old(lexer).cursor(),
            start.pos <= lexer.cursor().pos,
            grammar::climb(ctx, start, prev_prec) == grammar::climb_from(
                ctx,
                lexer.cursor(),
                lhs,
                prev_prec,
            ),
        decreases lexer.input().len() - lexer.cursor().pos,
    {
        proof {
            lexer.lemma_within();
            lemma_read(ctx.text, lexer.cursor(), *known);
        }
        let token = lexer.peek_token(known)?;
        let found = match token.data {
            TokenData::Sym(c) => try_get_binary_operator(c),
            _ => None,
        };
        match found {
            Some((op, prec, r_assoc)) => {
                if prec < prev_prec || (prec == prev_prec && !r_assoc) {
                    return Ok(lhs);
                }
                let _ = lexer.next_token(known);
                let rhs = pratt(lexer, defs, known, prec)?;
                proof {
                    lexer.lemma_within();
                }
                lhs = Expr::binary(op, lhs, rhs);
            },
            None => {
                return Ok(lhs);
            },
        }
    }
}

/// Reads an expression, up to the directions of the query or the end of
/// the text.
pub fn parse_expr<'a>(lexer: &mut Lexer<'a>, defs: &Definitions, known: &Known) -> (r: Result<
    Expr,
    Halt<ParseError<'a>>,
>)
    requires
        old(lexer).wf(),
    ensures
        final(lexer).wf(),
        final(lexer).input() == old(lexer).input(),
        final(lexer).source() == old(lexer).source(),
        old(lexer).cursor().pos <= final(lexer).cursor().pos,
        outcome(r, final(lexer).cursor()) == grammar::expression(
            context(*old(lexer), *defs, *known),
            old(lexer).cursor(),
        ),
        about(r, old(lexer).source()),
    decreases old(lexer).input().len() - old(lexer).cursor().pos, 9int,
{
    proof {
        lexer.lemma_within();
        lemma_read(lexer.input(), lexer.cursor(), *known);
    }
    let first = lexer.peek_token(known)?;
    let has_undim_prefix: bool = match first.data {
        TokenData::Sym(c) => c == ':',
        _ => false,
    };
    if has_undim_prefix {
        let _ = lexer.next_token(known);
    }
    let inner_expr = pratt(lexer, defs, known, 0)?;
    proof {
        lexer.lemma_within();
        lemma_read(lexer.input(), lexer.cursor(), *known);
    }
    let token = lexer.peek_token(known)?;
    let per: bool = match token.data {
        TokenData::Word(w) => same_text(w, "per"),
        _ => false,
    };
    let postfixed_expr = if per {
        let _ = lexer.next_token(known);
        let (_, unit) = parse_units(lexer, defs, known)?;
        Expr::binary(BinaryOp::Div, inner_expr, Expr::Quantity(unit))
    } else {
        inner_expr
    };
    if has_undim_prefix {
        Ok(Expr::unary(UnaryOp::Undim, postfixed_expr))
    } else {
        Ok(postfixed_expr)
    }
}

} // verus!
