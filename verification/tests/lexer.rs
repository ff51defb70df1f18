use unitcalc::binary64::Binary64;
use unitcalc::floats::{Halt, Known, Request};
use unitcalc::lex::{LexIter, Lexer, Token, TokenData};

fn pack(x: f64) -> Binary64 {
    Binary64::from_bits(x.to_bits())
}

fn supply(known: &mut Known, request: Request, input: &str) {
    match request {
        Request::Literal { start, end } => {
            let text: String = input.chars().skip(start).take(end - start).collect();
            known.record_literal(start, end, pack(text.parse::<f64>().unwrap()));
        }
        other => panic!("not a literal: {other:?}"),
    }
}

/// What a token is, in a form that can be compared.
#[derive(Debug, PartialEq)]
enum Kind {
    Num(f64),
    Int(i64),
    Sym(char),
    Word(String),
    LBracket,
    RBracket,
    EndOfInput,
}

fn kind(token: &Token) -> Kind {
    match token.data {
        TokenData::Num(x) => Kind::Num(f64::from_bits(x.to_bits())),
        TokenData::Int(n) => Kind::Int(n),
        TokenData::Sym(c) => Kind::Sym(c),
        TokenData::Word(w) => Kind::Word(String::from(w)),
        TokenData::LBracket => Kind::LBracket,
        TokenData::RBracket => Kind::RBracket,
        TokenData::EndOfInput => Kind::EndOfInput,
    }
}

/// All tokens of `input`, up to the end or the first error.
fn tokens(input: &str) -> (Vec<(Kind, usize, usize, String)>, Option<(String, usize, usize)>) {
    let mut known = Known::new();
    'again: loop {
        let mut lexer = Lexer::new(input);
        let mut out = Vec::new();
        loop {
            match lexer.next_token(&known) {
                Ok(token) => {
                    let end = matches!(token.data, TokenData::EndOfInput);
                    out.push((kind(&token), token.start_pos, token.end_pos, String::from(token.substr)));
                    if end {
                        return (out, None);
                    }
                }
                Err(Halt::Failed(e)) => {
                    assert_eq!(e.original, input);
                    return (out, Some((e.error, e.start_pos, e.end_pos)));
                }
                Err(Halt::Awaits(request)) => {
                    supply(&mut known, request, input);
                    continue 'again;
                }
            }
        }
    }
}

fn kinds(input: &str) -> Vec<Kind> {
    let (tokens, error) = tokens(input);
    assert_eq!(error, None);
    tokens.into_iter().map(|t| t.0).collect()
}

#[test]
fn numbers() {
    assert_eq!(kinds("12"), vec![Kind::Int(12), Kind::EndOfInput]);
    assert_eq!(kinds("007"), vec![Kind::Int(7), Kind::EndOfInput]);
    assert_eq!(kinds("0"), vec![Kind::Int(0), Kind::EndOfInput]);
    assert_eq!(kinds("9223372036854775807"), vec![Kind::Int(i64::MAX), Kind::EndOfInput]);
    assert_eq!(
        kinds("9223372036854775808"),
        vec![Kind::Num(9223372036854775808.0), Kind::EndOfInput]
    );
    assert_eq!(
        kinds("99999999999999999999999"),
        vec![Kind::Num(99999999999999999999999.0), Kind::EndOfInput]
    );
    assert_eq!(kinds("1.5"), vec![Kind::Num(1.5), Kind::EndOfInput]);
    assert_eq!(kinds("1."), vec![Kind::Num(1.0), Kind::EndOfInput]);
    assert_eq!(kinds(".5"), vec![Kind::Num(0.5), Kind::EndOfInput]);
    assert_eq!(kinds("1e3"), vec![Kind::Num(1000.0), Kind::EndOfInput]);
    assert_eq!(kinds("1E3"), vec![Kind::Num(1000.0), Kind::EndOfInput]);
    assert_eq!(kinds("2.5e-3"), vec![Kind::Num(0.0025), Kind::EndOfInput]);
    assert_eq!(kinds("1.e2"), vec![Kind::Num(100.0), Kind::EndOfInput]);
    assert_eq!(kinds("1e999"), vec![Kind::Num(f64::INFINITY), Kind::EndOfInput]);
}

#[test]
fn a_sign_is_a_token_of_its_own() {
    assert_eq!(kinds("-5"), vec![Kind::Sym('-'), Kind::Int(5), Kind::EndOfInput]);
    assert_eq!(kinds("1 e"), vec![Kind::Int(1), Kind::Word(String::from("e")), Kind::EndOfInput]);
    assert_eq!(tokens("1e+3").1, Some((String::from("Missing exponent"), 2, 2)));
}

#[test]
fn words_symbols_and_brackets() {
    assert_eq!(
        kinds("sqrt(x_y) ^km2%"),
        vec![
            Kind::Word(String::from("sqrt")),
            Kind::LBracket,
            Kind::Word(String::from("x_y")),
            Kind::RBracket,
            Kind::Sym('^'),
            Kind::Word(String::from("km")),
            Kind::Int(2),
            Kind::Sym('%'),
            Kind::EndOfInput,
        ]
    );
    assert_eq!(kinds("é"), vec![Kind::Sym('é'), Kind::EndOfInput]);
}

#[test]
fn positions_count_characters() {
    let (found, error) = tokens("  12 +é m  ");
    assert_eq!(error, None);
    assert_eq!(
        found,
        vec![
            (Kind::Int(12), 2, 4, String::from("12")),
            (Kind::Sym('+'), 5, 6, String::from("+")),
            (Kind::Sym('é'), 6, 7, String::from("é")),
            (Kind::Word(String::from("m")), 8, 9, String::from("m")),
            (Kind::EndOfInput, 9, 9, String::from("end of input")),
        ]
    );
}

#[test]
fn the_end_of_an_empty_text() {
    let (found, error) = tokens("");
    assert_eq!(error, None);
    assert_eq!(found, vec![(Kind::EndOfInput, 0, 0, String::from("end of input"))]);
    let (found, _) = tokens("   ");
    assert_eq!(found, vec![(Kind::EndOfInput, 0, 0, String::from("end of input"))]);
}

#[test]
fn malformed_numbers() {
    assert_eq!(tokens(".").1, Some((String::from("Lone decimal dot with no digits"), 0, 0)));
    assert_eq!(tokens("1 + .x").1, Some((String::from("Lone decimal dot with no digits"), 4, 4)));
    assert_eq!(tokens("1e").1, Some((String::from("Missing exponent"), 2, 2)));
    assert_eq!(tokens("1.5e-x").1, Some((String::from("Missing exponent"), 5, 5)));
    let (found, error) = tokens("3 .");
    assert_eq!(found.len(), 1);
    assert!(error.is_some());
}

#[test]
fn a_float_literal_is_asked_for_by_its_positions() {
    let known = Known::new();
    let mut lexer = Lexer::new("1 + 2.5");
    assert!(matches!(lexer.next_token(&known), Ok(Token { data: TokenData::Int(1), .. })));
    assert!(matches!(lexer.next_token(&known), Ok(Token { data: TokenData::Sym('+'), .. })));
    match lexer.next_token(&known) {
        Err(Halt::Awaits(request)) => assert_eq!(request, Request::Literal { start: 4, end: 7 }),
        _ => panic!("the literal was not asked for"),
    }
    let mut known = Known::new();
    known.record_literal(4, 7, pack(2.5));
    match lexer.next_token(&known) {
        Ok(token) => assert_eq!(kind(&token), Kind::Num(2.5)),
        _ => panic!("the literal was not read"),
    }
}

#[test]
fn peeking_does_not_move() {
    let known = Known::new();
    let mut lexer = Lexer::new("a b");
    for _ in 0..3 {
        match lexer.peek_token(&known) {
            Ok(token) => assert_eq!(kind(&token), Kind::Word(String::from("a"))),
            _ => panic!("no token"),
        }
    }
    assert!(lexer.next_token(&known).is_ok());
    match lexer.peek_token(&known) {
        Ok(token) => assert_eq!((kind(&token), token.start_pos), (Kind::Word(String::from("b")), 2)),
        _ => panic!("no token"),
    }
    assert_eq!(lexer.original(), "a b");
    let eof = lexer.make_eof_token();
    assert_eq!((eof.start_pos, eof.end_pos, eof.substr), (1, 1, "end of input"));
}

#[test]
fn the_iterator_ends_with_the_text() {
    let known = Known::new();
    let mut iter = LexIter::new(" x ");
    assert_eq!(iter.position_now(), 0);
    assert!(matches!(iter.next(&known), Some(Ok(Token { data: TokenData::Word("x"), .. }))));
    assert_eq!(iter.position_now(), 2);
    assert!(iter.next(&known).is_none());
    assert_eq!(iter.position_now(), 3);
    assert!(iter.next(&known).is_none());
    iter.rewind(0);
    assert!(matches!(iter.next(&known), Some(Ok(Token { data: TokenData::Word("x"), .. }))));
}
