//! Splitting the text of an expression into tokens.

use crate::binary64::Binary64;
use crate::error::{Fault, ParseError};
use crate::floats::{Halt, Known, Request};
use crate::text::{all_digits, chars_of, digits_value, is_digit};
use vstd::prelude::*;
use vstd::string::*;

verus! {

/// What a token is.
#[derive(Clone, Copy, Debug, PartialEq, Eq)]
pub enum TokenData<'a> {
    Num(Binary64),
    Int(i64),
    Sym(char),
    Word(&'a str),
    LBracket,
    RBracket,
    EndOfInput,
}

/// A token: what it is, the positions of its first character and of the
/// character after its last, and its text.
#[derive(Clone, Copy, Debug, PartialEq, Eq)]
pub struct Token<'a> {
    pub data: TokenData<'a>,
    pub start_pos: usize,
    pub end_pos: usize,
    pub substr: &'a str,
}

/// What a token is, with the text of a word as a sequence of characters.
pub enum Mark {
    Num(Binary64),
    Int(i64),
    Sym(char),
    Word(Seq<char>),
    LBracket,
    RBracket,
    EndOfInput,
}

/// A token, with its texts as sequences of characters.
pub struct Lexeme {
    pub mark: Mark,
    pub start: nat,
    pub end: nat,
    pub text: Seq<char>,
}

impl<'a> View for TokenData<'a> {
    type V = Mark;

    open spec fn view(&self) -> Mark {
        match *self {
            TokenData::Num(x) => Mark::Num(x),
            TokenData::Int(n) => Mark::Int(n),
            TokenData::Sym(c) => Mark::Sym(c),
            TokenData::Word(w) => Mark::Word(w@),
            TokenData::LBracket => Mark::LBracket,
            TokenData::RBracket => Mark::RBracket,
            TokenData::EndOfInput => Mark::EndOfInput,
        }
    }
}

impl<'a> View for Token<'a> {
    type V = Lexeme;

    open spec fn view(&self) -> Lexeme {
        Lexeme {
            mark: self.data@,
            start: self.start_pos as nat,
            end: self.end_pos as nat,
            text: self.substr@,
        }
    }
}

/// A letter of the Latin alphabet or an underscore.
pub open spec fn is_word_char(c: char) -> bool {
    ('a' <= c <= 'z') || ('A' <= c <= 'Z') || c == '_'
}

/// The first position from `pos` that holds no space.
pub open spec fn spaces_end(s: Seq<char>, pos: int) -> int
    decreases s.len() - pos,
{
    if 0 <= pos < s.len() && s[pos] == ' ' {
        spaces_end(s, pos + 1)
    } else {
        pos
    }
}

/// The first position from `pos` that holds no digit.
pub open spec fn digits_end(s: Seq<char>, pos: int) -> int
    decreases s.len() - pos,
{
    if 0 <= pos < s.len() && is_digit(s[pos]) {
        digits_end(s, pos + 1)
    } else {
        pos
    }
}

/// The first position from `pos` that holds neither a letter nor an
/// underscore.
pub open spec fn word_end(s: Seq<char>, pos: int) -> int
    decreases s.len() - pos,
{
    if 0 <= pos < s.len() && is_word_char(s[pos]) {
        word_end(s, pos + 1)
    } else {
        pos
    }
}

/// The message for a decimal point without a digit on either side.
pub open spec fn lone_dot_message() -> Seq<char> {
    "Lone decimal dot with no digits"@
}

/// The message for an exponent without a digit.
pub open spec fn missing_exponent_message() -> Seq<char> {
    "Missing exponent"@
}

/// Where the number that starts at `pos` ends. A number is a run of
/// digits, then optionally a point and a run of digits, with at least one
/// digit in the two runs together; then optionally `e` or `E`, optionally
/// `-`, and at least one digit.
pub open spec fn number_end(s: Seq<char>, pos: int) -> Result<int, Fault> {
    let whole = digits_end(s, pos);
    let dot = whole < s.len() && s[whole] == '.';
    let fraction = if dot {
        digits_end(s, whole + 1)
    } else {
        whole
    };
    let digits = whole > pos || (dot && fraction > whole + 1);
    let marked = fraction < s.len() && (s[fraction] == 'e' || s[fraction] == 'E');
    let signed = marked && fraction + 1 < s.len() && s[fraction + 1] == '-';
    let exponent = if signed {
        fraction + 2
    } else {
        fraction + 1
    };
    if !digits {
        Err(Fault { start: pos, end: pos, message: lone_dot_message() })
    } else if !marked {
        Ok(fraction)
    } else if exponent < s.len() && is_digit(s[exponent]) {
        Ok(digits_end(s, exponent))
    } else {
        Err(Fault { start: exponent, end: exponent, message: missing_exponent_message() })
    }
}

/// What the number from `pos` to `end` is: an integer where it is written
/// in digits alone and fits in 64 signed bits, and else the floating-point
/// number that `known` has for the literal.
pub open spec fn number_mark(s: Seq<char>, pos: int, end: int, known: Known) -> Result<
    Mark,
    Request,
> {
    let text = s.subrange(pos, end);
    if digits_end(s, pos) == end && digits_value(text) <= i64::MAX {
        Ok(Mark::Int(digits_value(text) as i64))
    } else {
        match known.literal_value(pos as usize, end as usize) {
            Ok(x) => Ok(Mark::Num(x)),
            Err(q) => Err(q),
        }
    }
}

/// The number that starts at `pos`, as a token.
pub open spec fn number_at(s: Seq<char>, pos: int, known: Known) -> Result<Lexeme, Halt<Fault>> {
    match number_end(s, pos) {
        Err(fault) => Err(Halt::Failed(fault)),
        Ok(end) => match number_mark(s, pos, end, known) {
            Err(q) => Err(Halt::Awaits(q)),
            Ok(mark) => Ok(
                Lexeme { mark, start: pos as nat, end: end as nat, text: s.subrange(pos, end) },
            ),
        },
    }
}

/// A result of reading a token, with the token and the error taken by
/// their views.
pub open spec fn lexed(r: Result<Token, Halt<ParseError>>) -> Result<Lexeme, Halt<Fault>> {
    match r {
        Ok(token) => Ok(token@),
        Err(Halt::Failed(e)) => Err(Halt::Failed(e@)),
        Err(Halt::Awaits(q)) => Err(Halt::Awaits(q)),
    }
}

/// The token that starts at `pos`, a position of `s` that holds no space.
pub open spec fn token_at(s: Seq<char>, pos: int, known: Known) -> Result<Lexeme, Halt<Fault>> {
    let c = s[pos];
    if is_digit(c) || c == '.' {
        number_at(s, pos, known)
    } else if is_word_char(c) {
        let end = word_end(s, pos);
        Ok(
            Lexeme {
                mark: Mark::Word(s.subrange(pos, end)),
                start: pos as nat,
                end: end as nat,
                text: s.subrange(pos, end),
            },
        )
    } else {
        Ok(
            Lexeme {
                mark: if c == '(' {
                    Mark::LBracket
                } else if c == ')' {
                    Mark::RBracket
                } else {
                    Mark::Sym(c)
                },
                start: pos as nat,
                end: (pos + 1) as nat,
                text: s.subrange(pos, pos + 1),
            },
        )
    }
}

/// The next token from `pos`, after any spaces; `None` at the end of the
/// text.
pub open spec fn token_from(s: Seq<char>, pos: int, known: Known) -> Option<
    Result<Lexeme, Halt<Fault>>,
> {
    let start = spaces_end(s, pos);
    if start >= s.len() {
        None
    } else {
        Some(token_at(s, start, known))
    }
}

/// The token that stands for the end of the text, at `pos`.
pub open spec fn end_token(pos: nat) -> Lexeme {
    Lexeme { mark: Mark::EndOfInput, start: pos, end: pos, text: "end of input"@ }
}

/// A run of spaces ends within the text, before a character that is no
/// space.
pub proof fn lemma_spaces_end(s: Seq<char>, pos: int)
    requires
        0 <= pos <= s.len(),
    ensures
        pos <= spaces_end(s, pos) <= s.len(),
        spaces_end(s, pos) < s.len() ==> s[spaces_end(s, pos)] != ' ',
    decreases s.len() - pos,
{
    if pos < s.len() && s[pos] == ' ' {
        lemma_spaces_end(s, pos + 1);
    }
}

/// A run of digits ends within the text, before a character that is no
/// digit, and holds digits only.
pub proof fn lemma_digits_end(s: Seq<char>, pos: int)
    requires
        0 <= pos <= s.len(),
    ensures
        pos <= digits_end(s, pos) <= s.len(),
        all_digits(s.subrange(pos, digits_end(s, pos))),
        digits_end(s, pos) < s.len() ==> !is_digit(s[digits_end(s, pos)]),
    decreases s.len() - pos,
{
    if pos < s.len() && is_digit(s[pos]) {
        lemma_digits_end(s, pos + 1);
        let end = digits_end(s, pos);
        assert forall|i: int| 0 <= i < end - pos implies is_digit(
            #[trigger] s.subrange(pos, end)[i],
        ) by {
            if i > 0 {
                assert(s.subrange(pos, end)[i] == s.subrange(pos + 1, end)[i - 1]);
            }
        }
    }
}

/// A word ends within the text.
pub proof fn lemma_word_end(s: Seq<char>, pos: int)
    requires
        0 <= pos <= s.len(),
    ensures
        pos <= word_end(s, pos) <= s.len(),
    decreases s.len() - pos,
{
    if pos < s.len() && is_word_char(s[pos]) {
        lemma_word_end(s, pos + 1);
    }
}

/// A number ends after its start, within the text.
pub proof fn lemma_number_end(s: Seq<char>, pos: int)
    requires
        0 <= pos < s.len(),
    ensures
        match number_end(s, pos) {
            Ok(end) => pos < end <= s.len(),
            Err(fault) => 0 <= fault.start == fault.end <= s.len(),
        },
{
    lemma_digits_end(s, pos);
    let whole = digits_end(s, pos);
    if whole < s.len() {
        lemma_digits_end(s, whole + 1);
        let fraction = if s[whole] == '.' {
            digits_end(s, whole + 1)
        } else {
            whole
        };
        if fraction + 2 <= s.len() {
            lemma_digits_end(s, fraction + 2);
        }
        if fraction + 1 <= s.len() {
            lemma_digits_end(s, fraction + 1);
        }
    }
}

/// A token ends after its start, within the text.
pub proof fn lemma_token_at(s: Seq<char>, pos: int, known: Known)
    requires
        0 <= pos < s.len(),
    ensures
        match token_at(s, pos, known) {
            Ok(token) => token.start == pos && pos < token.end <= s.len() && token.text
                == s.subrange(pos, token.end as int),
            Err(_) => true,
        },
{
    lemma_number_end(s, pos);
    lemma_word_end(s, pos);
    if is_word_char(s[pos]) {
        lemma_word_end(s, pos + 1);
    }
}

/// The characters of a text, with a position in it.
#[derive(Debug)]
pub struct LexIter<'a> {
    original: &'a str,
    chars: Vec<char>,
    curr_actual_pos: usize,
    token_start_pos: usize,
}

impl<'a> LexIter<'a> {
    #[verifier::type_invariant]
    closed spec fn valid(self) -> bool {
        &&& self.chars@ == self.original@
        &&& self.token_start_pos <= self.curr_actual_pos <= self.chars.len()
    }

    /// The text.
    pub closed spec fn input(self) -> Seq<char> {
        self.original@
    }

    /// The text, as it was given.
    pub closed spec fn source(self) -> &'a str {
        self.original
    }

    /// The position of the next character.
    pub closed spec fn position(self) -> int {
        self.curr_actual_pos as int
    }

    /// The characters of `s`, with the position at the first.
    pub fn new(s: &'a str) -> (r: LexIter<'a>)
        ensures
            r.input() == s@,
            r.source() == s,
            r.position() == 0,
    {
        LexIter { original: s, chars: chars_of(s), curr_actual_pos: 0, token_start_pos: 0 }
    }

    /// The position of the next character.
    pub fn position_now(&self) -> (r: usize)
        ensures
            r == self.position(),
            r <= self.input().len(),
    {
        proof {
            use_type_invariant(self);
        }
        self.curr_actual_pos
    }

    /// Moves back to an earlier position.
    pub fn rewind(&mut self, pos: usize)
        requires
            pos <= old(self).position(),
        ensures
            final(self).input() == old(self).input(),
            final(self).source() == old(self).source(),
            final(self).position() == pos,
    {
        proof {
            use_type_invariant(&*self);
        }
        self.token_start_pos = pos;
        self.curr_actual_pos = pos;
    }

    fn step_char(&mut self)
        ensures
            final(self).original == old(self).original,
            final(self).token_start_pos == old(self).token_start_pos,
            final(self).curr_actual_pos == (if old(self).curr_actual_pos < old(
                self,
            ).original@.len() {
                old(self).curr_actual_pos + 1
            } else {
                old(self).curr_actual_pos as int
            }),
    {
        proof {
            use_type_invariant(&*self);
        }
        if self.curr_actual_pos < self.chars.len() {
            self.curr_actual_pos += 1;
        }
    }

    fn peek_char(&self) -> (r: Option<char>)
        ensures
            r == (if self.curr_actual_pos < self.original@.len() {
                Some(self.original@[self.curr_actual_pos as int])
            } else {
                None
            }),
    {
        proof {
            use_type_invariant(self);
        }
        if self.curr_actual_pos < self.chars.len() {
            Some(self.chars[self.curr_actual_pos])
        } else {
            None
        }
    }

    fn start_token(&mut self)
        ensures
            final(self).original == old(self).original,
            final(self).curr_actual_pos == old(self).curr_actual_pos,
            final(self).token_start_pos == old(self).curr_actual_pos,
    {
        proof {
            use_type_invariant(&*self);
        }
        self.token_start_pos = self.curr_actual_pos;
    }

    fn get_substr(&self) -> (r: &'a str)
        ensures
            r@ == self.original@.subrange(
                self.token_start_pos as int,
                self.curr_actual_pos as int,
            ),
    {
        proof {
            use_type_invariant(self);
        }
        self.original.substring_char(self.token_start_pos, self.curr_actual_pos)
    }

    fn make_token(&self, data: TokenData<'a>) -> (r: Token<'a>)
        ensures
            r@ == (Lexeme {
                mark: data@,
                start: self.token_start_pos as nat,
                end: self.curr_actual_pos as nat,
                text: self.original@.subrange(
                    self.token_start_pos as int,
                    self.curr_actual_pos as int,
                ),
            }),
    {
        Token {
            data,
            start_pos: self.token_start_pos,
            end_pos: self.curr_actual_pos,
            substr: self.get_substr(),
        }
    }

    /// Moves over a run of digits.
    fn skip_digits(&mut self)
        ensures
            final(self).original == old(self).original,
            final(self).token_start_pos == old(self).token_start_pos,
            final(self).curr_actual_pos == digits_end(
                old(self).original@,
                old(self).curr_actual_pos as int,
            ),
    {
        proof {
            use_type_invariant(&*self);
        }
        let ghost s = self.original@;
        let ghost from = self.curr_actual_pos as int;
        loop
            invariant
                self.original == old(self).original,
                self.token_start_pos == old(self).token_start_pos,
                s == self.original@,
                from <= self.curr_actual_pos <= s.len(),
                digits_end(s, from) == digits_end(s, self.curr_actual_pos as int),
            ensures
                self.curr_actual_pos == digits_end(s, from),
            decreases s.len() - self.curr_actual_pos,
        {
            proof {
                use_type_invariant(&*self);
            }
            match self.peek_char() {
                Some(c) => {
                    if c >= '0' && c <= '9' {
                        self.step_char();
                    } else {
                        break ;
                    }
                },
                None => {
                    break ;
                },
            }
        }
    }

    /// The integer that the digits of the token so far spell, where it
    /// fits.
    fn parse_digits(&self) -> (r: Option<i64>)
        requires
            all_digits(
                self.original@.subrange(self.token_start_pos as int, self.curr_actual_pos as int),
            ),
        ensures
            r == (if digits_value(
                self.original@.subrange(self.token_start_pos as int, self.curr_actual_pos as int),
            ) <= i64::MAX {
                Some(
                    digits_value(
                        self.original@.subrange(
                            self.token_start_pos as int,
                            self.curr_actual_pos as int,
                        ),
                    ) as i64,
                )
            } else {
                None
            }),
    {
        proof {
            use_type_invariant(self);
        }
        let ghost s = self.original@;
        let ghost from = self.token_start_pos as int;
        let ghost to = self.curr_actual_pos as int;
        let mut value: i64 = 0;
        let mut i: usize = self.token_start_pos;
        assert(s.subrange(from, from) =~= Seq::<char>::empty());
        while i < self.curr_actual_pos
            invariant
                s == self.original@,
                self.chars@ == s,
                from == self.token_start_pos,
                to == self.curr_actual_pos,
                from <= i <= to <= s.len(),
                all_digits(s.subrange(from, to)),
                value == digits_value(s.subrange(from, i as int)),
            decreases to - i,
        {
            let c: char = self.chars[i];
            assert(c == s.subrange(from, to)[i - from]);
            let d: i64 = (c as u32 - '0' as u32) as i64;
            let ghost longer = s.subrange(from, i + 1);
            assert(longer.drop_last() =~= s.subrange(from, i as int));
            assert(longer.last() == c);
            assert(digits_value(longer) == value * 10 + d);
            let next: Option<i64> = match value.checked_mul(10) {
                Some(v) => v.checked_add(d),
                None => None,
            };
            match next {
                Some(v) => {
                    value = v;
                },
                None => {
                    proof {
                        lemma_digits_value_grows(s.subrange(from, to), i + 1 - from);
                        assert(s.subrange(from, to).subrange(0, i + 1 - from) =~= longer);
                    }
                    return None;
                },
            }
            i += 1;
        }
        assert(s.subrange(from, i as int) =~= s.subrange(from, to));
        Some(value)
    }

    fn try_parse_num(&self, whole_end: usize, known: &Known) -> (r: Result<
        Token<'a>,
        Halt<ParseError<'a>>,
    >)
        requires
            whole_end == digits_end(self.original@, self.token_start_pos as int),
        ensures
            match r {
                Ok(token) => number_mark(
                    self.original@,
                    self.token_start_pos as int,
                    self.curr_actual_pos as int,
                    *known,
                ) == Ok::<Mark, Request>(token.data@) && token@.start == self.token_start_pos
                    && token@.end == self.curr_actual_pos && token@.text
                    == self.original@.subrange(
                    self.token_start_pos as int,
                    self.curr_actual_pos as int,
                ),
                Err(Halt::Awaits(q)) => number_mark(
                    self.original@,
                    self.token_start_pos as int,
                    self.curr_actual_pos as int,
                    *known,
                ) == Err::<Mark, Request>(q),
                Err(Halt::Failed(_)) => false,
            },
    {
        proof {
            use_type_invariant(self);
            lemma_digits_end(self.original@, self.token_start_pos as int);
        }
        if whole_end == self.curr_actual_pos {
            match self.parse_digits() {
                Some(n) => {
                    return Ok(self.make_token(TokenData::Int(n)));
                },
                None => {},
            }
        }
        match known.literal_at(self.token_start_pos, self.curr_actual_pos) {
            Ok(x) => Ok(self.make_token(TokenData::Num(x))),
            Err(q) => Err(Halt::Awaits(q)),
        }
    }

    /// Reads the number that starts at the position.
    fn lex_num(&mut self, known: &Known) -> (r: Result<Token<'a>, Halt<ParseError<'a>>>)
        requires
            old(self).token_start_pos == old(self).curr_actual_pos,
            old(self).curr_actual_pos < old(self).original@.len(),
        ensures
            final(self).original == old(self).original,
            final(self).token_start_pos == old(self).token_start_pos,
            lexed(r) == number_at(old(self).original@, old(self).curr_actual_pos as int, *known),
            r matches Ok(token) ==> final(self).curr_actual_pos == token.end_pos,
            r matches Err(Halt::Failed(e)) ==> e.original == old(self).original,
    {
        let ghost s = self.original@;
        let ghost pos = self.curr_actual_pos as int;
        proof {
            use_type_invariant(&*self);
            lemma_number_end(s, pos);
            lemma_digits_end(s, pos);
        }
        self.skip_digits();
        let whole_end: usize = self.curr_actual_pos;
        let mut has_parsed_digits: bool = whole_end > self.token_start_pos;
        let dot: bool = match self.peek_char() {
            Some(c) => c == '.',
            None => false,
        };
        if dot {
            self.step_char();
            proof {
                lemma_digits_end(s, whole_end + 1);
            }
            self.skip_digits();
            if self.curr_actual_pos > whole_end + 1 {
                has_parsed_digits = true;
            }
        }
        if !has_parsed_digits {
            return Err(
                Halt::Failed(
                    ParseError::from_pos(
                        String::from_str("Lone decimal dot with no digits"),
                        self.token_start_pos,
                        self.original,
                    ),
                ),
            );
        }
        let ghost fraction = self.curr_actual_pos as int;
        let marked: bool = match self.peek_char() {
            Some(c) => c == 'e' || c == 'E',
            None => false,
        };
        if marked {
            self.step_char();
            let signed: bool = match self.peek_char() {
                Some(c) => c == '-',
                None => false,
            };
            if signed {
                self.step_char();
            }
            let digit: bool = match self.peek_char() {
                Some(c) => c >= '0' && c <= '9',
                None => false,
            };
            if !digit {
                return Err(
                    Halt::Failed(
                        ParseError::from_pos(
                            String::from_str("Missing exponent"),
                            self.curr_actual_pos,
                            self.original,
                        ),
                    ),
                );
            }
            proof {
                lemma_digits_end(s, self.curr_actual_pos as int);
            }
            self.skip_digits();
        }
        self.try_parse_num(whole_end, known)
    }

    /// Reads the word that starts at the position.
    fn lex_word(&mut self) -> (r: Token<'a>)
        requires
            old(self).token_start_pos == old(self).curr_actual_pos,
        ensures
            final(self).original == old(self).original,
            final(self).token_start_pos == old(self).token_start_pos,
            final(self).curr_actual_pos == r.end_pos,
            r@ == (Lexeme {
                mark: Mark::Word(
                    old(self).original@.subrange(
                        old(self).curr_actual_pos as int,
                        word_end(old(self).original@, old(self).curr_actual_pos as int),
                    ),
                ),
                start: old(self).curr_actual_pos as nat,
                end: word_end(old(self).original@, old(self).curr_actual_pos as int) as nat,
                text: old(self).original@.subrange(
                    old(self).curr_actual_pos as int,
                    word_end(old(self).original@, old(self).curr_actual_pos as int),
                ),
            }),
    {
        proof {
            use_type_invariant(&*self);
        }
        let ghost s = self.original@;
        let ghost from = self.curr_actual_pos as int;
        loop
            invariant
                self.original == old(self).original,
                self.token_start_pos == old(self).token_start_pos,
                s == self.original@,
                from <= self.curr_actual_pos <= s.len(),
                word_end(s, from) == word_end(s, self.curr_actual_pos as int),
            ensures
                self.curr_actual_pos == word_end(s, from),
            decreases s.len() - self.curr_actual_pos,
        {
            proof {
                use_type_invariant(&*self);
            }
            match self.peek_char() {
                Some(c) => {
                    if (c >= 'a' && c <= 'z') || (c >= 'A' && c <= 'Z') || c == '_' {
                        self.step_char();
                    } else {
                        break ;
                    }
                },
                None => {
                    break ;
                },
            }
        }
        let word = self.get_substr();
        self.make_token(TokenData::Word(word))
    }

    /// Reads the token that starts at the position with the character
    /// `curr`.
    fn lex_token(&mut self, curr: char, known: &Known) -> (r: Result<
        Token<'a>,
        Halt<ParseError<'a>>,
    >)
        requires
            old(self).curr_actual_pos < old(self).original@.len(),
            curr == old(self).original@[old(self).curr_actual_pos as int],
        ensures
            final(self).original == old(self).original,
            lexed(r) == token_at(old(self).original@, old(self).curr_actual_pos as int, *known),
            final(self).curr_actual_pos == (match r {
                Ok(token) => token.end_pos,
                Err(_) => old(self).curr_actual_pos,
            }),
            r matches Err(Halt::Failed(e)) ==> e.original == old(self).original,
    {
        self.start_token();
        proof {
            use_type_invariant(&*self);
        }
        if (curr >= '0' && curr <= '9') || curr == '.' {
            let r = self.lex_num(known);
            if r.is_err() {
                proof {
                    use_type_invariant(&*self);
                }
                self.curr_actual_pos = self.token_start_pos;
            }
            return r;
        } else if (curr >= 'a' && curr <= 'z') || (curr >= 'A' && curr <= 'Z') || curr == '_' {
            return Ok(self.lex_word());
        }
        self.step_char();
        if curr == '(' {
            Ok(self.make_token(TokenData::LBracket))
        } else if curr == ')' {
            Ok(self.make_token(TokenData::RBracket))
        } else {
            Ok(self.make_token(TokenData::Sym(curr)))
        }
    }

    /// Reads the next token, if there is one. A call that gives no token
    /// leaves the position before the text that it could not read.
    pub fn next(&mut self, known: &Known) -> (r: Option<Result<Token<'a>, Halt<ParseError<'a>>>>)
        ensures
            final(self).input() == old(self).input(),
            final(self).source() == old(self).source(),
            0 <= old(self).position() <= final(self).position() <= old(self).input().len(),
            match r {
                Some(x) => token_from(old(self).input(), old(self).position(), *known) == Some(
                    lexed(x),
                ),
                None => token_from(old(self).input(), old(self).position(), *known) is None,
            },
            final(self).position() == (match r {
                Some(Ok(token)) => token.end_pos as int,
                _ => spaces_end(old(self).input(), old(self).position()),
            }),
            r matches Some(Err(Halt::Failed(e))) ==> e.original == old(self).source(),
    {
        proof {
            use_type_invariant(&*self);
            lemma_spaces_end(self.original@, self.curr_actual_pos as int);
        }
        let ghost s = self.original@;
        let ghost from = self.curr_actual_pos as int;
        loop
            invariant
                self.original == old(self).original,
                s == self.original@,
                from <= self.curr_actual_pos <= s.len(),
                spaces_end(s, from) == spaces_end(s, self.curr_actual_pos as int),
            ensures
                self.original == old(self).original,
                self.curr_actual_pos == spaces_end(s, from),
                from <= self.curr_actual_pos <= s.len(),
            decreases s.len() - self.curr_actual_pos,
        {
            proof {
                use_type_invariant(&*self);
            }
            match self.peek_char() {
                Some(c) => {
                    if c == ' ' {
                        self.step_char();
                    } else {
                        break ;
                    }
                },
                None => {
                    break ;
                },
            }
        }
        match self.peek_char() {
            Some(c) => {
                proof {
                    lemma_token_at(s, self.curr_actual_pos as int, *known);
                }
                Some(self.lex_token(c, known))
            },
            None => None,
        }
    }
}

/// Where a lexer stands: at the position `pos` of the text, with the last
/// token that it handed out ending at `last_end`.
pub struct Cursor {
    pub pos: int,
    pub last_end: nat,
}

/// The next token from the cursor, and the cursor after it. At the end of
/// the text the token is the one that stands for the end, placed where the
/// last token ended. A token that cannot be read leaves the cursor before
/// it.
pub open spec fn read(s: Seq<char>, cursor: Cursor, known: Known) -> (
    Result<Lexeme, Halt<Fault>>,
    Cursor,
) {
    match token_from(s, cursor.pos, known) {
        None => (
            Ok(end_token(cursor.last_end)),
            Cursor { pos: spaces_end(s, cursor.pos), last_end: cursor.last_end },
        ),
        Some(Ok(token)) => (Ok(token), Cursor { pos: token.end as int, last_end: token.end }),
        Some(Err(h)) => (
            Err(h),
            Cursor { pos: spaces_end(s, cursor.pos), last_end: cursor.last_end },
        ),
    }
}

/// The next token from the cursor.
pub open spec fn peek(s: Seq<char>, cursor: Cursor, known: Known) -> Result<Lexeme, Halt<Fault>> {
    read(s, cursor, known).0
}

/// The cursor after the next token.
pub open spec fn skip(s: Seq<char>, cursor: Cursor, known: Known) -> Cursor {
    read(s, cursor, known).1
}

/// Reading moves the cursor forward within the text, and past a token that
/// is not the end of the text it moves it by at least one character.
pub proof fn lemma_read(s: Seq<char>, cursor: Cursor, known: Known)
    requires
        0 <= cursor.pos <= s.len(),
        cursor.last_end <= s.len(),
    ensures
        skip(s, cursor, known).last_end <= s.len(),
        cursor.pos <= skip(s, cursor, known).pos <= s.len(),
        peek(s, cursor, known) matches Ok(token) && !(token.mark is EndOfInput) ==> cursor.pos
            < skip(s, cursor, known).pos,
        peek(s, cursor, known) matches Ok(token) ==> token.start <= token.end <= s.len(),
{
    lemma_spaces_end(s, cursor.pos);
    let start = spaces_end(s, cursor.pos);
    if start < s.len() {
        lemma_token_at(s, start, known);
    }
}

/// A text read token by token.
#[derive(Debug)]
pub struct Lexer<'a> {
    lex_iter: LexIter<'a>,
    last_token_end_pos: usize,
    original: &'a str,
}

impl<'a> Lexer<'a> {
    /// What holds of every lexer that `new` has made, whatever was read
    /// from it since: it stands within its text.
    pub closed spec fn wf(self) -> bool {
        &&& self.original == self.lex_iter.source()
        &&& self.original@ == self.lex_iter.input()
        &&& 0 <= self.lex_iter.position() <= self.lex_iter.input().len()
        &&& self.last_token_end_pos <= self.lex_iter.input().len()
    }

    /// A lexer stands within its text.
    pub proof fn lemma_within(self)
        requires
            self.wf(),
        ensures
            0 <= self.cursor().pos <= self.input().len(),
            self.cursor().last_end <= self.input().len(),
    {
    }

    /// The text.
    pub closed spec fn input(self) -> Seq<char> {
        self.original@
    }

    /// The text, as it was given.
    pub closed spec fn source(self) -> &'a str {
        self.original
    }

    /// Where the lexer stands.
    pub closed spec fn cursor(self) -> Cursor {
        Cursor { pos: self.lex_iter.position(), last_end: self.last_token_end_pos as nat }
    }

    /// A lexer at the start of `s`.
    pub fn new(s: &'a str) -> (r: Lexer<'a>)
        ensures
            r.wf(),
            r.input() == s@,
            r.source() == s,
            r.cursor() == (Cursor { pos: 0, last_end: 0 }),
    {
        Lexer { lex_iter: LexIter::new(s), last_token_end_pos: 0, original: s }
    }

    /// The text, as it was given.
    pub fn original(&self) -> (r: &'a str)
        ensures
            r == self.source(),
            r@ == self.input(),
    {
        self.original
    }

    /// The token that stands for the end of the text.
    pub fn make_eof_token(&self) -> (r: Token<'a>)
        ensures
            r@ == end_token(self.cursor().last_end),
    {
        Token {
            data: TokenData::EndOfInput,
            start_pos: self.last_token_end_pos,
            end_pos: self.last_token_end_pos,
            substr: "end of input",
        }
    }

    /// Hands out the next token and moves past it.
    pub fn next_token(&mut self, known: &Known) -> (r: Result<Token<'a>, Halt<ParseError<'a>>>)
        requires
            old(self).wf(),
        ensures
            final(self).wf(),
            final(self).input() == old(self).input(),
            final(self).source() == old(self).source(),
            lexed(r) == peek(old(self).input(), old(self).cursor(), *known),
            final(self).cursor() == skip(old(self).input(), old(self).cursor(), *known),
            0 <= old(self).cursor().pos <= final(self).cursor().pos <= old(self).input().len(),
            r matches Err(Halt::Failed(e)) ==> e.original == old(self).source(),
    {
        proof {
            lemma_read(self.input(), self.cursor(), *known);
        }
        match self.lex_iter.next(known) {
            Some(Ok(token)) => {
                self.last_token_end_pos = token.end_pos;
                Ok(token)
            },
            Some(Err(e)) => Err(e),
            None => Ok(self.make_eof_token()),
        }
    }

    /// The next token, without moving past it.
    pub fn peek_token(&mut self, known: &Known) -> (r: Result<Token<'a>, Halt<ParseError<'a>>>)
        requires
            old(self).wf(),
        ensures
            final(self).wf(),
            final(self).input() == old(self).input(),
            final(self).source() == old(self).source(),
            final(self).cursor() == old(self).cursor(),
            lexed(r) == peek(old(self).input(), old(self).cursor(), *known),
            0 <= old(self).cursor().pos <= old(self).input().len(),
            r matches Err(Halt::Failed(e)) ==> e.original == old(self).source(),
    {
        let from: usize = self.lex_iter.position_now();
        let r = self.lex_iter.next(known);
        self.lex_iter.rewind(from);
        match r {
            Some(x) => x,
            None => Ok(self.make_eof_token()),
        }
    }
}

/// A longer run of digits stands for a number that is no smaller.
pub proof fn lemma_digits_value_grows(s: Seq<char>, n: int)
    requires
        0 <= n <= s.len(),
        all_digits(s),
    ensures
        digits_value(s.subrange(0, n)) <= digits_value(s),
    decreases s.len() - n,
{
    if n < s.len() {
        let shorter = s.drop_last();
        assert(shorter.subrange(0, n) =~= s.subrange(0, n));
        assert forall|i: int| 0 <= i < shorter.len() implies is_digit(#[trigger] shorter[i]) by {
            assert(shorter[i] == s[i]);
        }
        lemma_digits_value_grows(shorter, n);
        assert(is_digit(s[s.len() - 1]));
    } else {
        assert(s.subrange(0, n) =~= s);
    }
}

} // verus!
