//! Queries: an expression with directions for how to show its value.

use crate::ast::{EvalError, Expr};
use crate::autonum::AutoNum;
use crate::binary64::{Binary64, LARGE_BITS, SMALL_BITS};
use crate::consts::Definitions;
use crate::error::{fault_at, Fault, ParseError};
use crate::floats::{FloatOp, FormatCall, FormatStyle, Halt, Known, Request};
use crate::grammar;
use crate::grammar::{look, past, take, unexpected, within, Context, Parsed};
use crate::lex::{lemma_read, Cursor, Lexeme, Lexer, Mark, Token, TokenData};
use crate::parse::{about, context, parse_expr, parse_units};
use crate::text::{chars_of, decimal, decimal_string, same_text, string_of};
use crate::units::{lemma_view_decides, Powers, Quantity};
use vstd::prelude::*;
use vstd::string::*;

verus! {

/// Whether `w` is one of the words that start a direction of a query.
pub open spec fn query_keyword(w: Seq<char>) -> bool {
    w == "in"@ || w == "round"@ || w == "fixed"@ || w == "scientific"@ || w == "hideunits"@ || w
        == "rd"@ || w == "fd"@ || w == "sc"@ || w == "hide"@
}

/// Whether `s` is one of the words that start a direction of a query.
pub fn is_query_keyword(s: &str) -> (r: bool)
    ensures
        r == query_keyword(s@),
{
    same_text(s, "in") || same_text(s, "round") || same_text(s, "fixed") || same_text(
        s,
        "scientific",
    ) || same_text(s, "hideunits") || same_text(s, "rd") || same_text(s, "fd") || same_text(
        s,
        "sc",
    ) || same_text(s, "hide")
}

/// When a number is written with an exponent.
#[derive(Clone, Copy, Debug, PartialEq, Eq, Structural)]
pub enum ScientificDisplay {
    Never,
    /// Always; with `true`, in a fixed width.
    Always(bool),
    /// Where its magnitude is at most the first number and not zero, or at
    /// least the second.
    Exceeds(Binary64, Binary64),
}

/// The directions of a query: the unit to convert to, with its label; the
/// number of digits after the decimal point, and whether trailing zeros
/// are kept; when to write an exponent; and whether to leave the units
/// out.
pub struct Directions {
    pub unit: Option<(Seq<char>, Quantity)>,
    pub round: Option<(usize, bool)>,
    pub scientific: Option<ScientificDisplay>,
    pub nounits: bool,
}

/// A query: an expression and the directions for showing its value.
pub struct Asked {
    pub expr: Expr,
    pub directions: Directions,
}

/// An expression with directions for how to show its value.
#[derive(Debug)]
pub struct Query {
    expr: Expr,
    unit: Option<(String, Quantity)>,
    round: Option<(usize, bool)>,
    scientific: Option<ScientificDisplay>,
    nounits: bool,
}

impl Query {
    /// The directions of the query.
    pub closed spec fn directions(self) -> Directions {
        Directions {
            unit: match self.unit {
                Some((label, unit)) => Some((label@, unit)),
                None => None,
            },
            round: self.round,
            scientific: self.scientific,
            nounits: self.nounits,
        }
    }

    /// The expression of the query.
    pub closed spec fn expression(self) -> Expr {
        self.expr
    }
}

impl View for Query {
    type V = Asked;

    open spec fn view(&self) -> Asked {
        Asked { expr: self.expression(), directions: self.directions() }
    }
}

/// No directions.
pub open spec fn no_directions() -> Directions {
    Directions { unit: None, round: None, scientific: None, nounits: false }
}

/// The number of digits that the integer `n` of a query stands for.
pub open spec fn digits_of(n: i64) -> usize {
    if 0 <= n <= usize::MAX {
        n as usize
    } else {
        usize::MAX
    }
}

/// The direction `in`: a run of units to convert to.
pub open spec fn in_direction(ctx: Context, cursor: Cursor, d: Directions, keyword: Lexeme)
    -> Parsed<Directions> {
    if d.unit is Some {
        Err(Halt::Failed(fault_at("'in' query already specified"@, keyword)))
    } else {
        match grammar::units(ctx, cursor) {
            Err(h) => Err(h),
            Ok((unit, after)) => Ok((Directions { unit: Some(unit), ..d }, after)),
        }
    }
}

/// The directions `round` and `fixed`: an integer, the number of digits
/// after the decimal point. With `fixed` trailing zeros are kept.
pub open spec fn round_direction(
    ctx: Context,
    cursor: Cursor,
    d: Directions,
    keyword: Lexeme,
    fixed: bool,
) -> Parsed<Directions> {
    if d.round is Some {
        Err(Halt::Failed(fault_at("'round' query already specified"@, keyword)))
    } else {
        match take(ctx, cursor) {
            Err(h) => Err(h),
            Ok((token, after)) => match token.mark {
                Mark::Int(n) => Ok((Directions { round: Some((digits_of(n), fixed)), ..d }, after)),
                _ => Err(Halt::Failed(fault_at("expected integer for round query"@, token))),
            },
        }
    }
}

/// Which bound a token starts: `Some(true)` for the upper one, after
/// `over` or `>`, `Some(false)` for the lower one, after `under` or `<`.
pub open spec fn bound_keyword(token: Lexeme) -> Option<bool> {
    match token.mark {
        Mark::Word(w) => if w == "over"@ {
            Some(true)
        } else if w == "under"@ {
            Some(false)
        } else {
            None
        },
        Mark::Sym(c) => if c == '>' {
            Some(true)
        } else if c == '<' {
            Some(false)
        } else {
            None
        },
        _ => None,
    }
}

/// The name of a bound in a message.
pub open spec fn bound_name(upper: bool) -> Seq<char> {
    if upper {
        "over"@
    } else {
        "under"@
    }
}

/// The bounds after `scientific if`: any number of `over` (or `>`) and
/// `under` (or `<`), each once at most and each with a floating-point
/// number. They end before the first token that starts no bound.
pub open spec fn bounds_from(
    ctx: Context,
    cursor: Cursor,
    lower: Option<Binary64>,
    upper: Option<Binary64>,
) -> Parsed<(Option<Binary64>, Option<Binary64>)>
    decreases ctx.text.len() - cursor.pos,
    when within(ctx.text, cursor)
{
    match look(ctx, cursor) {
        Err(h) => Err(h),
        Ok(token) => match bound_keyword(token) {
            None => Ok(((lower, upper), cursor)),
            Some(is_upper) => if (if is_upper {
                upper
            } else {
                lower
            }) is Some {
                Err(
                    Halt::Failed(
                        fault_at(
                            "'"@ + bound_name(is_upper) + "' subquery already specified"@,
                            token,
                        ),
                    ),
                )
            } else {
                match take(ctx, past(ctx, cursor)) {
                    Err(h) => Err(h),
                    Ok((number, after)) => match number.mark {
                        Mark::Num(x) => {
                            proof {
                                lemma_read(ctx.text, cursor, ctx.known);
                            }
                            if is_upper {
                                bounds_from(
                                    ctx,
                                    grammar::onward(ctx.text, past(ctx, cursor), after),
                                    lower,
                                    Some(x),
                                )
                            } else {
                                bounds_from(
                                    ctx,
                                    grammar::onward(ctx.text, past(ctx, cursor), after),
                                    Some(x),
                                    upper,
                                )
                            }
                        },
                        _ => Err(
                            Halt::Failed(
                                fault_at(
                                    "expected floating point number for '"@ + bound_name(is_upper)
                                        + "' subquery"@,
                                    number,
                                ),
                            ),
                        ),
                    },
                }
            },
        },
    }
}

/// The direction `scientific if`: at least one bound. A bound that is not
/// given is 0.00001 for the lower one and 10000000000 for the upper one.
pub open spec fn scientific_if(ctx: Context, cursor: Cursor, d: Directions, keyword: Lexeme)
    -> Parsed<Directions> {
    match bounds_from(ctx, cursor, None, None) {
        Err(h) => Err(h),
        Ok(((lower, upper), after)) => if lower is None && upper is None {
            Err(
                Halt::Failed(
                    fault_at("expected 'more'/'less' for 'scientific if' subquery"@, keyword),
                ),
            )
        } else {
            Ok(
                (
                    Directions {
                        scientific: Some(
                            ScientificDisplay::Exceeds(
                                match lower {
                                    Some(x) => x,
                                    None => Binary64 { bits: SMALL_BITS },
                                },
                                match upper {
                                    Some(x) => x,
                                    None => Binary64 { bits: LARGE_BITS },
                                },
                            ),
                        ),
                        ..d
                    },
                    after,
                ),
            )
        },
    }
}

/// The direction `scientific`: `never`, `always` (optionally `fixed`), or
/// `if` with bounds.
pub open spec fn scientific_direction(ctx: Context, cursor: Cursor, d: Directions, keyword: Lexeme)
    -> Parsed<Directions> {
    if d.scientific is Some {
        Err(Halt::Failed(fault_at("'scientific' query already specified"@, keyword)))
    } else {
        match take(ctx, cursor) {
            Err(h) => Err(h),
            Ok((token, after)) => match token.mark {
                Mark::Word(w) => if w == "never"@ || w == "ne"@ {
                    Ok((Directions { scientific: Some(ScientificDisplay::Never), ..d }, after))
                } else if w == "always"@ || w == "al"@ {
                    match look(ctx, after) {
                        Err(h) => Err(h),
                        Ok(next) => if next.mark == Mark::Word("fixed"@) || next.mark
                            == Mark::Word("fd"@) {
                            Ok(
                                (
                                    Directions {
                                        scientific: Some(ScientificDisplay::Always(true)),
                                        ..d
                                    },
                                    past(ctx, after),
                                ),
                            )
                        } else {
                            Ok(
                                (
                                    Directions {
                                        scientific: Some(ScientificDisplay::Always(false)),
                                        ..d
                                    },
                                    after,
                                ),
                            )
                        },
                    }
                } else if w == "if"@ {
                    scientific_if(ctx, after, d, token)
                } else {
                    Err(
                        Halt::Failed(
                            fault_at(
                                "expected 'never'/'always'/'if' for 'scientific' query"@,
                                token,
                            ),
                        ),
                    )
                },
                _ => Err(
                    Halt::Failed(
                        fault_at("expected 'never'/'always'/'if' for 'scientific' query"@, token),
                    ),
                ),
            },
        }
    }
}

/// The direction that the word `word` starts, the cursor standing after
/// the word.
#[verifier::opaque]
pub open spec fn direction(
    ctx: Context,
    cursor: Cursor,
    d: Directions,
    word: Seq<char>,
    keyword: Lexeme,
) -> Parsed<Directions> {
    if word == "in"@ {
        in_direction(ctx, cursor, d, keyword)
    } else if word == "round"@ || word == "rd"@ {
        round_direction(ctx, cursor, d, keyword, false)
    } else if word == "fixed"@ || word == "fd"@ {
        round_direction(ctx, cursor, d, keyword, true)
    } else if word == "scientific"@ || word == "sc"@ {
        scientific_direction(ctx, cursor, d, keyword)
    } else if word == "hideunits"@ || word == "hide"@ {
        if d.nounits {
            Err(Halt::Failed(fault_at("'hideunits' query already specified"@, keyword)))
        } else {
            Ok((Directions { nounits: true, ..d }, cursor))
        }
    } else {
        Err(Halt::Failed(fault_at("unknown query keyword '"@ + word + "'"@, keyword)))
    }
}

/// The directions from the cursor to the end of the text, added to `d`.
pub open spec fn directions_from(ctx: Context, cursor: Cursor, d: Directions) -> Result<
    Directions,
    Halt<Fault>,
>
    decreases ctx.text.len() - cursor.pos,
    when within(ctx.text, cursor)
{
    match take(ctx, cursor) {
        Err(h) => Err(h),
        Ok((token, next)) => match token.mark {
            Mark::Word(w) => match direction(ctx, next, d, w, token) {
                Err(h) => Err(h),
                Ok((more, after)) => {
                    proof {
                        lemma_read(ctx.text, cursor, ctx.known);
                    }
                    directions_from(ctx, grammar::onward(ctx.text, next, after), more)
                },
            },
            Mark::EndOfInput => Ok(d),
            _ => Err(Halt::Failed(unexpected(token))),
        },
    }
}

/// The query that the text of `ctx` stands for: an expression, and
/// directions up to the end of the text.
pub open spec fn query_of(ctx: Context) -> Result<Asked, Halt<Fault>> {
    let start = Cursor { pos: 0, last_end: 0 };
    match grammar::expression(ctx, start) {
        Err(h) => Err(h),
        Ok((expr, next)) => match directions_from(
            ctx,
            grammar::onward(ctx.text, start, next),
            no_directions(),
        ) {
            Err(h) => Err(h),
            Ok(directions) => Ok(Asked { expr, directions }),
        },
    }
}

/// A result of reading a query, with the query and the error taken by
/// their views.
pub open spec fn asked(r: Result<Query, Halt<ParseError>>) -> Result<Asked, Halt<Fault>> {
    match r {
        Ok(q) => Ok(q@),
        Err(Halt::Failed(e)) => Err(Halt::Failed(e@)),
        Err(Halt::Awaits(q)) => Err(Halt::Awaits(q)),
    }
}

/// A result of reading a direction: the directions of the query as they
/// were left, and the cursor, or the reason why there are none.
pub open spec fn directed(r: Result<(), Halt<ParseError>>, query: Query, cursor: Cursor) -> Parsed<
    Directions,
> {
    match r {
        Ok(_) => Ok((query.directions(), cursor)),
        Err(Halt::Failed(e)) => Err(Halt::Failed(e@)),
        Err(Halt::Awaits(q)) => Err(Halt::Awaits(q)),
    }
}

/// The error with the message `message` at `token`.
fn direction_error<'a>(message: &str, token: &Token<'a>, original: &'a str) -> (r: Result<
    (),
    Halt<ParseError<'a>>,
>)
    ensures
        r matches Err(Halt::Failed(e)) && e@ == fault_at(message@, token@) && e.original
            == original,
{
    Err(Halt::Failed(ParseError::from_token(String::from_str(message), token, original)))
}

/// Reads the direction `in`, after its keyword.
fn parse_in_query<'a>(
    lexer: &mut Lexer<'a>,
    defs: &Definitions,
    known: &Known,
    query: &mut Query,
    query_token: &Token<'a>,
) -> (r: Result<(), Halt<ParseError<'a>>>)
    requires
        old(lexer).wf(),
    ensures
        final(lexer).wf(),
        final(lexer).input() == old(lexer).input(),
        final(lexer).source() == old(lexer).source(),
        old(lexer).cursor().pos <= final(lexer).cursor().pos,
        final(query).expression() == old(query).expression(),
        directed(r, *final(query), final(lexer).cursor()) == in_direction(
            context(*old(lexer), *defs, *known),
            old(lexer).cursor(),
            old(query).directions(),
            query_token@,
        ),
        about(r, old(lexer).source()),
{
    if query.unit.is_some() {
        return direction_error("'in' query already specified", query_token, lexer.original());
    }
    let units = parse_units(lexer, defs, known)?;
    query.unit = Some(units);
    Ok(())
}

/// Reads the direction `round`, or `fixed`, after its keyword.
fn parse_round_query<'a>(
    lexer: &mut Lexer<'a>,
    known: &Known,
    defs: &Definitions,
    query: &mut Query,
    query_token: &Token<'a>,
    fixed: bool,
) -> (r: Result<(), Halt<ParseError<'a>>>)
    requires
        old(lexer).wf(),
    ensures
        final(lexer).wf(),
        final(lexer).input() == old(lexer).input(),
        final(lexer).source() == old(lexer).source(),
        old(lexer).cursor().pos <= final(lexer).cursor().pos,
        final(query).expression() == old(query).expression(),
        directed(r, *final(query), final(lexer).cursor()) == round_direction(
            context(*old(lexer), *defs, *known),
            old(lexer).cursor(),
            old(query).directions(),
            query_token@,
            fixed,
        ),
        about(r, old(lexer).source()),
{
    if query.round.is_some() {
        return direction_error("'round' query already specified", query_token, lexer.original());
    }
    let round_token = lexer.next_token(known)?;
    if let TokenData::Int(n) = round_token.data {
        let digits: usize = if n < 0 {
            usize::MAX
        } else if n as u64 > usize::MAX as u64 {
            usize::MAX
        } else {
            n as usize
        };
        query.round = Some((digits, fixed));
        Ok(())
    } else {
        direction_error("expected integer for round query", &round_token, lexer.original())
    }
}

/// Reads the bounds of the direction `scientific if`.
fn parse_scientific_if_query<'a>(
    lexer: &mut Lexer<'a>,
    known: &Known,
    defs: &Definitions,
    query: &mut Query,
    query_token: &Token<'a>,
) -> (r: Result<(), Halt<ParseError<'a>>>)
    requires
        old(lexer).wf(),
    ensures
        final(lexer).wf(),
        final(lexer).input() == old(lexer).input(),
        final(lexer).source() == old(lexer).source(),
        old(lexer).cursor().pos <= final(lexer).cursor().pos,
        final(query).expression() == old(query).expression(),
        directed(r, *final(query), final(lexer).cursor()) == scientific_if(
            context(*old(lexer), *defs, *known),
            old(lexer).cursor(),
            old(query).directions(),
            query_token@,
        ),
        about(r, old(lexer).source()),
{
    let mut limit_hi: Option<Binary64> = None;
    let mut limit_lo: Option<Binary64> = None;
    let ghost ctx = context(*lexer, *defs, *known);
    let ghost start = lexer.cursor();
    loop
        invariant
            lexer.wf(),
            lexer.input() == old(lexer).input(),
            lexer.source() == old(lexer).source(),
            ctx == context(*old(lexer), *defs, *known),
            start == old(lexer).cursor(),
            start.pos <= lexer.cursor().pos,
            *query == *old(query),
            bounds_from(ctx, start, None, None) == bounds_from(
                ctx,
                lexer.cursor(),
                limit_lo,
                limit_hi,
            ),
        ensures
            lexer.wf(),
            lexer.input() == old(lexer).input(),
            lexer.source() == old(lexer).source(),
            start.pos <= lexer.cursor().pos,
            *query == *old(query),
            bounds_from(ctx, start, None, None) == Ok::<
                ((Option<Binary64>, Option<Binary64>), Cursor),
                Halt<Fault>,
            >(((limit_lo, limit_hi), lexer.cursor())),
        decreases lexer.input().len() - lexer.cursor().pos,
    {
        proof {
            lexer.lemma_within();
            lemma_read(ctx.text, lexer.cursor(), *known);
        }
        let subquery_token = lexer.peek_token(known)?;
        let upper: bool = match subquery_token.data {
            TokenData::Word(w) => {
                if same_text(w, "over") {
                    true
                } else if same_text(w, "under") {
                    false
                } else {
                    break ;
                }
            },
            TokenData::Sym(c) => {
                if c == '>' {
                    true
                } else if c == '<' {
                    false
                } else {
                    break ;
                }
            },
            _ => {
                break ;
            },
        };
        let taken: bool = if upper {
            limit_hi.is_some()
        } else {
            limit_lo.is_some()
        };
        if taken {
            let mut message = String::from_str("'");
            message.append(if upper {
                "over"
            } else {
                "under"
            });
            message.append("' subquery already specified");
            return Err(
                Halt::Failed(ParseError::from_token(message, &subquery_token, lexer.original())),
            );
        }
        let _ = lexer.next_token(known);
        proof {
            lexer.lemma_within();
        }
        let num_token = lexer.next_token(known)?;
        proof {
            lexer.lemma_within();
        }
        if let TokenData::Num(x) = num_token.data {
            if upper {
                limit_hi = Some(x);
            } else {
                limit_lo = Some(x);
            }
        } else {
            let mut message = String::from_str("expected floating point number for '");
            message.append(if upper {
                "over"
            } else {
                "under"
            });
            message.append("' subquery");
            return Err(Halt::Failed(ParseError::from_token(message, &num_token, lexer.original())));
        }
    }
    if limit_lo.is_none() && limit_hi.is_none() {
        return direction_error(
            "expected 'more'/'less' for 'scientific if' subquery",
            query_token,
            lexer.original(),
        );
    }
    query.scientific = Some(
        ScientificDisplay::Exceeds(
            match limit_lo {
                Some(x) => x,
                None => Binary64 { bits: SMALL_BITS },
            },
            match limit_hi {
                Some(x) => x,
                None => Binary64 { bits: LARGE_BITS },
            },
        ),
    );
    Ok(())
}

/// Reads the direction `scientific`, after its keyword.
fn parse_scientific_query<'a>(
    lexer: &mut Lexer<'a>,
    known: &Known,
    defs: &Definitions,
    query: &mut Query,
    query_token: &Token<'a>,
) -> (r: Result<(), Halt<ParseError<'a>>>)
    requires
        old(lexer).wf(),
    ensures
        final(lexer).wf(),
        final(lexer).input() == old(lexer).input(),
        final(lexer).source() == old(lexer).source(),
        old(lexer).cursor().pos <= final(lexer).cursor().pos,
        final(query).expression() == old(query).expression(),
        directed(r, *final(query), final(lexer).cursor()) == scientific_direction(
            context(*old(lexer), *defs, *known),
            old(lexer).cursor(),
            old(query).directions(),
            query_token@,
        ),
        about(r, old(lexer).source()),
{
    if query.scientific.is_some() {
        return direction_error(
            "'scientific' query already specified",
            query_token,
            lexer.original(),
        );
    }
    let subquery_token = lexer.next_token(known)?;
    proof {
        lexer.lemma_within();
    }
    match subquery_token.data {
        TokenData::Word(w) => {
            if same_text(w, "never") || same_text(w, "ne") {
                query.scientific = Some(ScientificDisplay::Never);
                Ok(())
            } else if same_text(w, "always") || same_text(w, "al") {
                let token = lexer.peek_token(known)?;
                let fixed: bool = match token.data {
                    TokenData::Word(f) => same_text(f, "fixed") || same_text(f, "fd"),
                    _ => false,
                };
                if fixed {
                    let _ = lexer.next_token(known);
                    query.scientific = Some(ScientificDisplay::Always(true));
                    Ok(())
                } else {
                    query.scientific = Some(ScientificDisplay::Always(false));
                    Ok(())
                }
            } else if same_text(w, "if") {
                parse_scientific_if_query(lexer, known, defs, query, &subquery_token)
            } else {
                direction_error(
                    "expected 'never'/'always'/'if' for 'scientific' query",
                    &subquery_token,
                    lexer.original(),
                )
            }
        },
        _ => direction_error(
            "expected 'never'/'always'/'if' for 'scientific' query",
            &subquery_token,
            lexer.original(),
        ),
    }
}

/// Reads the direction that the word `query_word` starts.
fn parse_query<'a>(
    lexer: &mut Lexer<'a>,
    defs: &Definitions,
    known: &Known,
    query: &mut Query,
    query_word: &'a str,
    query_token: &Token<'a>,
) -> (r: Result<(), Halt<ParseError<'a>>>)
    requires
        old(lexer).wf(),
    ensures
        final(lexer).wf(),
        final(lexer).input() == old(lexer).input(),
        final(lexer).source() == old(lexer).source(),
        old(lexer).cursor().pos <= final(lexer).cursor().pos,
        final(query).expression() == old(query).expression(),
        directed(r, *final(query), final(lexer).cursor()) == direction(
            context(*old(lexer), *defs, *known),
            old(lexer).cursor(),
            old(query).directions(),
            query_word@,
            query_token@,
        ),
        about(r, old(lexer).source()),
{
    reveal(direction);
    if same_text(query_word, "in") {
        parse_in_query(lexer, defs, known, query, query_token)
    } else if same_text(query_word, "round") || same_text(query_word, "rd") {
        parse_round_query(lexer, known, defs, query, query_token, false)
    } else if same_text(query_word, "fixed") || same_text(query_word, "fd") {
        parse_round_query(lexer, known, defs, query, query_token, true)
    } else if same_text(query_word, "scientific") || same_text(query_word, "sc") {
        parse_scientific_query(lexer, known, defs, query, query_token)
    } else if same_text(query_word, "hideunits") || same_text(query_word, "hide") {
        if query.nounits {
            direction_error("'hideunits' query already specified", query_token, lexer.original())
        } else {
            query.nounits = true;
            Ok(())
        }
    } else {
        let mut message = String::from_str("unknown query keyword '");
        message.append(query_word);
        message.append("'");
        Err(Halt::Failed(ParseError::from_token(message, query_token, lexer.original())))
    }
}

/// Reads a query from the text `s`.
pub fn parse<'a>(s: &'a str, defs: &Definitions, known: &Known) -> (r: Result<
    Query,
    Halt<ParseError<'a>>,
>)
    ensures
        asked(r) == query_of(Context { text: s@, defs: *defs, known: *known }),
        about(r, s),
{
    let mut lexer = Lexer::new(s);
    let ghost ctx = Context { text: s@, defs: *defs, known: *known };
    let expr = parse_expr(&mut lexer, defs, known)?;
    let mut query = Query { expr, unit: None, round: None, scientific: None, nounits: false };
    let ghost all = directions_from(ctx, lexer.cursor(), no_directions());
    proof {
        lexer.lemma_within();
        assert(query.directions() == no_directions());
        assert(query_of(ctx) == (match all {
            Err(h) => Err::<Asked, Halt<Fault>>(h),
            Ok(directions) => Ok(Asked { expr, directions }),
        }));
    }
    loop
        invariant
            lexer.wf(),
            lexer.input() == s@,
            lexer.source() == s,
            ctx == (Context { text: s@, defs: *defs, known: *known }),
            query.expression() == expr,
            all == directions_from(ctx, lexer.cursor(), query.directions()),
            query_of(ctx) == (match all {
                Err(h) => Err::<Asked, Halt<Fault>>(h),
                Ok(directions) => Ok(Asked { expr, directions }),
            }),
        decreases lexer.input().len() - lexer.cursor().pos,
    {
        proof {
            lexer.lemma_within();
            lemma_read(ctx.text, lexer.cursor(), *known);
        }
        let query_token = lexer.next_token(known)?;
        match query_token.data {
            TokenData::Word(w) => {
                parse_query(&mut lexer, defs, known, &mut query, w, &query_token)?;
                proof {
                    lexer.lemma_within();
                }
            },
            TokenData::EndOfInput => {
                return Ok(query);
            },
            _ => {
                let mut message = String::from_str("unexpected ");
                let name = crate::error::get_token_str(&query_token);
                message.append(name.as_str());
                return Err(
                    Halt::Failed(ParseError::from_token(message, &query_token, lexer.original())),
                );
            },
        }
    }
}


/// When a number is written with an exponent, under the directions `d`:
/// as they say, or else where its magnitude is at most 0.00001 and not
/// zero, or at least 10000000000.
pub open spec fn policy(d: Directions) -> ScientificDisplay {
    match d.scientific {
        Some(p) => p,
        None => ScientificDisplay::Exceeds(
            Binary64 { bits: SMALL_BITS },
            Binary64 { bits: LARGE_BITS },
        ),
    }
}

/// Whether `x` is written with an exponent, and whether in a fixed width.
pub open spec fn wants_scientific(d: Directions, x: Binary64) -> (bool, bool) {
    match policy(d) {
        ScientificDisplay::Never => (false, false),
        ScientificDisplay::Always(fixed) => (true, fixed),
        ScientificDisplay::Exceeds(lower, upper) => (
            upper.at_most(x.absolute()) || (x.absolute().at_most(lower) && !x.zero()),
            false,
        ),
    }
}

/// `s` without the characters `c` at its end.
pub open spec fn without_trailing(s: Seq<char>, c: char) -> Seq<char>
    decreases s.len(),
{
    if s.len() > 0 && s.last() == c {
        without_trailing(s.drop_last(), c)
    } else {
        s
    }
}

/// `s` without the zeros at its end, and without the decimal point that
/// this may leave there.
pub open spec fn trimmed(s: Seq<char>) -> Seq<char> {
    without_trailing(without_trailing(s, '0'), '.')
}

/// `n` times the character `c`.
pub open spec fn repeated(c: char, n: nat) -> Seq<char> {
    Seq::new(n, |i: int| c)
}

/// The exponent of a number, `e` and its digits with a `-` before them
/// where it is negative, in five characters: `e`, the sign, and three
/// digits at least.
pub open spec fn exponent_field(e: Seq<char>) -> Seq<char> {
    let negative = e[1] == '-';
    let digits = if negative {
        e.subrange(2, e.len() as int)
    } else {
        e.subrange(1, e.len() as int)
    };
    let sign = if negative {
        '-'
    } else {
        '+'
    };
    let zeros = if digits.len() < 3 {
        (3 - digits.len()) as nat
    } else {
        0
    };
    seq![e[0], sign] + repeated('0', zeros) + digits
}

/// The number of characters before the exponent of a number written with
/// a sign and `digits` digits after the decimal point.
pub open spec fn mantissa_width(digits: usize) -> int {
    if digits == 0 {
        2
    } else {
        digits + 3
    }
}

/// The text `text` of a number written with a sign, `digits` digits after
/// the decimal point and an exponent, with the exponent in five
/// characters. A text too short to be one is left as it is.
pub open spec fn fixed_width(text: Seq<char>, digits: usize) -> Seq<char> {
    let split = mantissa_width(digits);
    if text.len() >= split + 2 {
        text.subrange(0, split) + exponent_field(text.subrange(split, text.len() as int))
    } else {
        text
    }
}

/// What stands for a number that is infinite or not a number, in the width
/// of a number written with `digits` digits after the decimal point and an
/// exponent of five characters.
pub open spec fn placeholder(x: Binary64, digits: usize) -> Seq<char> {
    let lead = repeated(' ', digits as nat) + (if digits == 0 {
        "   "@
    } else {
        "    "@
    });
    if x.nan() {
        lead + " NaN"@
    } else if x.sign_set() {
        lead + "-inf"@
    } else {
        lead + " inf"@
    }
}

/// `x` written with an exponent and `digits` digits after the decimal
/// point; with `fixed`, in a fixed width.
pub open spec fn scientific_text(x: Binary64, digits: usize, fixed: bool, known: Known) -> Result<
    Seq<char>,
    Request,
> {
    if !fixed {
        known.written(FormatCall { style: FormatStyle::Exponent, digits, value: x })
    } else if x.nan() || x.infinite() {
        Ok(placeholder(x, digits))
    } else {
        match known.written(FormatCall { style: FormatStyle::SignedExponent, digits, value: x }) {
            Ok(text) => Ok(fixed_width(text, digits)),
            Err(q) => Err(q),
        }
    }
}

/// The floating-point number `x` as the directions `d` have it written:
/// with an exponent where they say so, and else in decimal notation,
/// without trailing zeros unless the number of digits is fixed.
pub open spec fn float_text(d: Directions, x: Binary64, known: Known) -> Result<Seq<char>, Request> {
    let (scientific, fixed_scientific) = wants_scientific(d, x);
    let (rounding, fixed) = match d.round {
        Some(r) => r,
        None => if scientific {
            (4usize, false)
        } else {
            (8usize, false)
        },
    };
    if scientific {
        scientific_text(x, rounding, fixed_scientific, known)
    } else {
        match known.written(FormatCall { style: FormatStyle::Fixed, digits: rounding, value: x }) {
            Err(q) => Err(q),
            Ok(text) => if rounding == 0 || fixed {
                Ok(text)
            } else {
                Ok(trimmed(text))
            },
        }
    }
}

/// The number `value` as the directions `d` have it written: an integer in
/// decimal digits, unless it is to be written with an exponent.
pub open spec fn number_text(d: Directions, value: AutoNum, known: Known) -> Result<
    Seq<char>,
    Request,
> {
    match value {
        AutoNum::Int(n) => match value.as_float(known) {
            Err(q) => Err(q),
            Ok(x) => if wants_scientific(d, x).0 {
                scientific_text(
                    x,
                    match d.round {
                        Some(r) => r.0,
                        None => 4usize,
                    },
                    wants_scientific(d, x).1,
                    known,
                )
            } else {
                Ok(decimal(n as int))
            },
        },
        AutoNum::Float(x) => float_text(d, x, known),
    }
}

/// The message for a conversion to a unit of another dimension.
pub open spec fn conversion_message(from: Powers, label: Seq<char>) -> Seq<char> {
    "cannot convert to given units: "@ + from.text() + " -> "@ + label
}

/// The text `number` with the text `units` after a space.
pub open spec fn with_label(number: Seq<char>, units: Seq<char>) -> Seq<char> {
    number + seq![' '] + units
}

/// The answer to a query: the value of its expression, written as its
/// directions say. With a unit to convert to, the value is divided by the
/// unit and the label of the unit follows it; the dimensions of the two
/// have to agree. Without one, the units of the value follow it in the
/// symbols of the base units.
pub open spec fn answer(asked: Asked, known: Known) -> Result<Seq<char>, Halt<Seq<char>>> {
    let d = asked.directions;
    match asked.expr.value(known) {
        Err(h) => Err(h),
        Ok(m) => match d.unit {
            Some((label, unit)) => if m.powers != unit@.powers {
                Err(Halt::Failed(conversion_message(m.powers, label)))
            } else {
                match known.result(FloatOp::Div, m.value, unit.value) {
                    Err(q) => Err(Halt::Awaits(q)),
                    Ok(converted) => match float_text(d, converted, known) {
                        Err(q) => Err(Halt::Awaits(q)),
                        Ok(text) => if d.nounits {
                            Ok(text)
                        } else {
                            Ok(with_label(text, label))
                        },
                    },
                }
            },
            None => match number_text(d, m.value, known) {
                Err(q) => Err(Halt::Awaits(q)),
                Ok(text) => if m.powers.unitless() || d.nounits {
                    Ok(text)
                } else {
                    Ok(with_label(text, m.powers.text()))
                },
            },
        },
    }
}

/// A result that is a text, with the text and the error taken by their
/// views.
pub open spec fn shown(r: Result<String, Halt<EvalError>>) -> Result<Seq<char>, Halt<Seq<char>>> {
    match r {
        Ok(s) => Ok(s@),
        Err(Halt::Failed(e)) => Err(Halt::Failed(e.error@)),
        Err(Halt::Awaits(q)) => Err(Halt::Awaits(q)),
    }
}

/// A result that is a text and may await an answer, with the text taken by
/// its view.
pub open spec fn written(r: Result<String, Request>) -> Result<Seq<char>, Request> {
    match r {
        Ok(s) => Ok(s@),
        Err(q) => Err(q),
    }
}

/// The end of `v` up to `end` without the characters `c` at its end.
fn trim_end(v: &Vec<char>, end: usize, c: char) -> (r: usize)
    requires
        end <= v.len(),
    ensures
        r <= end,
        v@.subrange(0, r as int) == without_trailing(v@.subrange(0, end as int), c),
{
    let mut r: usize = end;
    while r > 0 && v[r - 1] == c
        invariant
            r <= end <= v.len(),
            without_trailing(v@.subrange(0, r as int), c) == without_trailing(
                v@.subrange(0, end as int),
                c,
            ),
        decreases r,
    {
        assert(v@.subrange(0, r as int).drop_last() =~= v@.subrange(0, r - 1));
        r -= 1;
    }
    r
}

/// `text` without the zeros at its end, and without the decimal point that
/// this may leave there.
fn trim(text: &str) -> (r: String)
    ensures
        r@ == trimmed(text@),
{
    let v = chars_of(text);
    assert(v@.subrange(0, v.len() as int) =~= v@);
    let zeros = trim_end(&v, v.len(), '0');
    let dots = trim_end(&v, zeros, '.');
    string_of(&v, 0, dots)
}

/// Appends `n` times the character `c`.
fn push_repeated(s: &mut String, c: char, n: usize)
    ensures
        final(s)@ == old(s)@ + repeated(c, n as nat),
{
    let mut i: usize = 0;
    assert(s@ =~= old(s)@ + repeated(c, 0));
    while i < n
        invariant
            i <= n,
            s@ == old(s)@ + repeated(c, i as nat),
        decreases n - i,
    {
        s.push(c);
        assert(s@ =~= old(s)@ + repeated(c, (i + 1) as nat));
        i += 1;
    }
}

/// The text of a number written with a sign and an exponent, with the
/// exponent in five characters.
fn widen(text: String, n: usize) -> (r: String)
    ensures
        r@ == fixed_width(text@, n),
{
    let v = chars_of(text.as_str());
    let len: usize = v.len();
    if n > usize::MAX - 5 {
        return text;
    }
    let split: usize = if n == 0 {
        2
    } else {
        n + 3
    };
    if len < split + 2 {
        return text;
    }
    let ghost e = v@.subrange(split as int, len as int);
    let mut out = string_of(&v, 0, split);
    out.push(v[split]);
    let negative: bool = v[split + 1] == '-';
    let from: usize = if negative {
        out.push('-');
        split + 2
    } else {
        out.push('+');
        split + 1
    };
    let count: usize = len - from;
    if count < 3 {
        push_repeated(&mut out, '0', 3 - count);
    }
    let rest = string_of(&v, from, len);
    out.append(rest.as_str());
    proof {
        let digits = if negative {
            e.subrange(2, e.len() as int)
        } else {
            e.subrange(1, e.len() as int)
        };
        assert(rest@ =~= digits);
        assert(e[0] == v@[split as int]);
        assert(e[1] == v@[split + 1]);
        let zeros = if digits.len() < 3 {
            (3 - digits.len()) as nat
        } else {
            0
        };
        assert(repeated('0', 0) =~= Seq::<char>::empty());
        assert(out@ =~= v@.subrange(0, split as int) + (seq![e[0], if negative {
            '-'
        } else {
            '+'
        }] + repeated('0', zeros) + digits));
    }
    out
}

/// What stands for a number that is infinite or not a number.
fn placeholder_string(x: Binary64, n: usize) -> (r: String)
    requires
        x.nan() || x.infinite(),
    ensures
        r@ == placeholder(x, n),
{
    let mut out = String::new();
    push_repeated(&mut out, ' ', n);
    assert(out@ =~= repeated(' ', n as nat));
    if n == 0 {
        out.append("   ");
    } else {
        out.append("    ");
    }
    if x.is_nan() {
        out.append(" NaN");
    } else if x.to_bits() >= crate::binary64::SIGN_BIT {
        out.append("-inf");
    } else {
        out.append(" inf");
    }
    out
}

/// `x` written with an exponent and `n` digits after the decimal point.
pub fn get_scientific(x: Binary64, n: usize, fixed: bool, known: &Known) -> (r: Result<
    String,
    Request,
>)
    ensures
        written(r) == scientific_text(x, n, fixed, *known),
{
    if !fixed {
        return known.write(FormatCall { style: FormatStyle::Exponent, digits: n, value: x });
    }
    if x.is_nan() || x.is_infinite() {
        return Ok(placeholder_string(x, n));
    }
    match known.write(FormatCall { style: FormatStyle::SignedExponent, digits: n, value: x }) {
        Ok(text) => Ok(widen(text, n)),
        Err(q) => Err(q),
    }
}

impl Query {
    /// Whether `x` is written with an exponent, and whether in a fixed
    /// width.
    fn requires_scientific_notation(&self, x: Binary64) -> (r: (bool, bool))
        ensures
            r == wants_scientific(self.directions(), x),
    {
        let policy = match self.scientific {
            Some(p) => p,
            None => ScientificDisplay::Exceeds(
                Binary64 { bits: SMALL_BITS },
                Binary64 { bits: LARGE_BITS },
            ),
        };
        match policy {
            ScientificDisplay::Never => (false, false),
            ScientificDisplay::Always(fixed) => (true, fixed),
            ScientificDisplay::Exceeds(lo, hi) => {
                let y = x.abs();
                (hi.less_or_equal(&y) || (y.less_or_equal(&lo) && !x.is_zero()), false)
            },
        }
    }

    /// The floating-point number `x`, written as the directions say.
    fn get_float_str(&self, x: Binary64, known: &Known) -> (r: Result<String, Request>)
        ensures
            written(r) == float_text(self.directions(), x, *known),
    {
        let (scientific, scientific_fixed) = self.requires_scientific_notation(x);
        let (rounding, fixed) = match self.round {
            Some(r) => r,
            None => if scientific {
                (4, false)
            } else {
                (8, false)
            },
        };
        if scientific {
            get_scientific(x, rounding, scientific_fixed, known)
        } else {
            match known.write(FormatCall { style: FormatStyle::Fixed, digits: rounding, value: x }) {
                Err(q) => Err(q),
                Ok(rounded) => if rounding == 0 || fixed {
                    Ok(rounded)
                } else {
                    Ok(trim(rounded.as_str()))
                },
            }
        }
    }

    /// The number `num`, written as the directions say.
    fn get_autonum_str(&self, num: &AutoNum, known: &Known) -> (r: Result<String, Request>)
        ensures
            written(r) == number_text(self.directions(), *num, *known),
    {
        match num {
            AutoNum::Int(n) => {
                let casted_value = num.cast(known)?;
                let (scientific, scientific_fixed) = self.requires_scientific_notation(
                    casted_value,
                );
                if scientific {
                    let rounding: usize = match self.round {
                        Some(r) => r.0,
                        None => 4,
                    };
                    get_scientific(casted_value, rounding, scientific_fixed, known)
                } else {
                    Ok(decimal_string(*n))
                }
            },
            AutoNum::Float(x) => self.get_float_str(*x, known),
        }
    }

    /// The answer to the query.
    pub fn get_answer(&self, known: &Known) -> (r: Result<String, Halt<EvalError>>)
        ensures
            shown(r) == answer(self@, *known),
    {
        let answer = match self.expr.eval(known) {
            Ok(q) => q,
            Err(Halt::Failed(e)) => {
                return Err(Halt::Failed(e));
            },
            Err(Halt::Awaits(q)) => {
                return Err(Halt::Awaits(q));
            },
        };
        if let Some((unit_str, unit_val)) = &self.unit {
            proof {
                lemma_view_decides(answer.units, unit_val.units);
            }
            if answer.units != unit_val.units {
                let mut message = String::from_str("cannot convert to given units: ");
                let from = answer.units.to_si_units_str();
                message.append(from.as_str());
                message.append(" -> ");
                message.append(unit_str.as_str());
                return Err(Halt::Failed(EvalError { error: message }));
            }
            let converted = match known.compute(FloatOp::Div, answer.value, unit_val.value) {
                Ok(x) => x,
                Err(q) => {
                    return Err(Halt::Awaits(q));
                },
            };
            let mut converted_str = match self.get_float_str(converted, known) {
                Ok(s) => s,
                Err(q) => {
                    return Err(Halt::Awaits(q));
                },
            };
            if self.nounits {
                Ok(converted_str)
            } else {
                let ghost text = converted_str@;
                converted_str.push(' ');
                converted_str.append(unit_str.as_str());
                assert(converted_str@ =~= with_label(text, unit_str@));
                Ok(converted_str)
            }
        } else {
            let mut number_str = match self.get_autonum_str(&answer.value, known) {
                Ok(s) => s,
                Err(q) => {
                    return Err(Halt::Awaits(q));
                },
            };
            if answer.units.no_units() || self.nounits {
                Ok(number_str)
            } else {
                let ghost text = number_str@;
                number_str.push(' ');
                let units = answer.units.to_si_units_str();
                number_str.append(units.as_str());
                assert(number_str@ =~= with_label(text, units@));
                Ok(number_str)
            }
        }
    }
}

} // verus!
