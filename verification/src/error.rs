//! Errors found while reading an expression.

use crate::lex::{Lexeme, Mark, Token, TokenData};
use crate::text::{decimal, push_decimal, push_numeral};
use vstd::prelude::*;
use vstd::string::*;

verus! {

/// An error in the text of an expression, with the positions (counted in
/// characters) between which it was found.
#[derive(Debug, PartialEq, Eq)]
pub struct ParseError<'a> {
    pub start_pos: usize,
    pub end_pos: usize,
    pub error: String,
    pub original: &'a str,
}

/// A parse error by its positions and the text of its message.
pub struct Fault {
    pub start: int,
    pub end: int,
    pub message: Seq<char>,
}

impl<'a> View for ParseError<'a> {
    type V = Fault;

    open spec fn view(&self) -> Fault {
        Fault { start: self.start_pos as int, end: self.end_pos as int, message: self.error@ }
    }
}

/// The escape character, which starts a direction to a terminal.
pub open spec fn escape() -> char {
    '\u{1B}'
}

/// What is shown of an error: the message, the text, and under the text a
/// line of carets under the characters between the two positions (one
/// caret where the positions agree), in red, moved to its place by a
/// direction to the terminal.
pub open spec fn report(fault: Fault, original: Seq<char>) -> Seq<char> {
    let width = if fault.end - fault.start >= 1 {
        (fault.end - fault.start) as nat
    } else {
        1nat
    };
    seq![escape()] + "[mError in parsing: "@ + fault.message + "\n | "@ + original + "\n | "@ + (
    if fault.start == 0 {
        Seq::<char>::empty()
    } else {
        seq![escape()] + "["@ + decimal(fault.start) + "C"@
    }) + seq![escape()] + "[31m"@ + Seq::new(width, |i: int| '^')
}

/// How a token is called in a message.
pub open spec fn describe(token: Lexeme) -> Seq<char> {
    match token.mark {
        Mark::Num(_) => "number '"@ + token.text + "'"@,
        Mark::Int(_) => "integer '"@ + token.text + "'"@,
        Mark::LBracket => "left bracket '('"@,
        Mark::RBracket => "right bracket ')'"@,
        Mark::Sym(c) => "symbol '"@ + seq![c] + "'"@,
        Mark::Word(s) => "word '"@ + s + "'"@,
        Mark::EndOfInput => "end of input"@,
    }
}

/// The fault with the positions of `token`.
pub open spec fn fault_at(message: Seq<char>, token: Lexeme) -> Fault {
    Fault { start: token.start as int, end: token.end as int, message }
}

impl<'a> ParseError<'a> {
    /// The error with the message `error`, at the positions of `token`.
    pub fn from_token(error: String, token: &Token<'a>, original: &'a str) -> (r: ParseError<'a>)
        ensures
            r@ == fault_at(error@, token@),
            r.original == original,
    {
        ParseError { error, start_pos: token.start_pos, end_pos: token.end_pos, original }
    }

    /// What is shown of the error, in three lines.
    pub fn error_report(&self) -> (r: String)
        ensures
            r@ == report(self@, self.original@),
    {
        let mut s = String::new();
        s.push('\u{1B}');
        s.append("[mError in parsing: ");
        s.append(self.error.as_str());
        s.append("\n | ");
        s.append(self.original);
        s.append("\n | ");
        if self.start_pos != 0 {
            s.push('\u{1B}');
            s.append("[");
            if self.start_pos as u64 > i64::MAX as u64 {
                push_numeral(&mut s, self.start_pos as u64);
            } else {
                push_decimal(&mut s, self.start_pos as i64);
            }
            s.append("C");
        }
        s.push('\u{1B}');
        s.append("[31m");
        let width: usize = if self.end_pos > self.start_pos {
            self.end_pos - self.start_pos
        } else {
            1
        };
        let ghost before = s@;
        let mut i: usize = 0;
        while i < width
            invariant
                i <= width,
                s@ == before + Seq::new(i as nat, |j: int| '^'),
            decreases width - i,
        {
            s.push('^');
            assert(s@ =~= before + Seq::new((i + 1) as nat, |j: int| '^'));
            i += 1;
        }
        assert(s@ =~= report(self@, self.original@));
        s
    }

    /// The error with the message `error`, at the position `pos`.
    pub fn from_pos(error: String, pos: usize, original: &'a str) -> (r: ParseError<'a>)
        ensures
            r@ == (Fault { start: pos as int, end: pos as int, message: error@ }),
            r.original == original,
    {
        ParseError { error, start_pos: pos, end_pos: pos, original }
    }
}

/// How `token` is called in a message.
pub fn get_token_str(token: &Token) -> (r: String)
    ensures
        r@ == describe(token@),
{
    match token.data {
        TokenData::Num(_) => {
            let mut s = String::from_str("number '");
            s.append(token.substr);
            s.append("'");
            s
        },
        TokenData::Int(_) => {
            let mut s = String::from_str("integer '");
            s.append(token.substr);
            s.append("'");
            s
        },
        TokenData::LBracket => String::from_str("left bracket '('"),
        TokenData::RBracket => String::from_str("right bracket ')'"),
        TokenData::Sym(c) => {
            let mut s = String::from_str("symbol '");
            s.push(c);
            s.append("'");
            s
        },
        TokenData::Word(w) => {
            let mut s = String::from_str("word '");
            s.append(w);
            s.append("'");
            s
        },
        TokenData::EndOfInput => String::from_str("end of input"),
    }
}

} // verus!
