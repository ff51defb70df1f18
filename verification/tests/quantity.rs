use unitcalc::ast::{Binary, EvalError, Expr, Unary};
use unitcalc::autonum::AutoNum;
use unitcalc::binary64::Binary64;
use unitcalc::consts::{Definitions, Named, Prefix};
use unitcalc::error::{get_token_str, ParseError};
use unitcalc::floats::{FloatCall, FloatOp, FormatCall, FormatStyle, Halt, Known, Request};
use unitcalc::lex::{Lexer, Token, TokenData};
use unitcalc::operator::{
    try_get_binary_operator, try_get_function, try_get_postfix_operator,
    try_get_prefix_operator, BinaryOp, ScalarFn, UnaryOp,
};
use unitcalc::parse::{parse_expr, parse_unit_exponent, parse_units};
use unitcalc::query::{get_scientific, is_query_keyword};
use unitcalc::text::{chars_of, decimal_string, same_text, string_of};
use unitcalc::units::{Dimension, Quantity};

fn pack(x: f64) -> Binary64 {
    Binary64::from_bits(x.to_bits())
}

fn float(x: f64) -> AutoNum {
    AutoNum::Float(pack(x))
}

fn operand(n: &AutoNum) -> f64 {
    match n {
        AutoNum::Int(i) => *i as f64,
        AutoNum::Float(x) => f64::from_bits(x.to_bits()),
    }
}

fn compute(call: &FloatCall) -> f64 {
    let a = operand(&call.lhs);
    let b = operand(&call.rhs);
    match call.op {
        FloatOp::Cast => a,
        FloatOp::Add => a + b,
        FloatOp::Sub => a - b,
        FloatOp::Mul => a * b,
        FloatOp::Div => a / b,
        FloatOp::Pow => a.powf(b),
        FloatOp::Sqrt => a.sqrt(),
        FloatOp::Cbrt => a.cbrt(),
        FloatOp::Sin => a.sin(),
        FloatOp::Cos => a.cos(),
        FloatOp::Tan => a.tan(),
        FloatOp::Exp => a.exp(),
        FloatOp::Ln => a.ln(),
        FloatOp::Log10 => a.log10(),
    }
}

fn write(call: &FormatCall) -> String {
    let x = f64::from_bits(call.value.to_bits());
    let n = call.digits;
    match call.style {
        FormatStyle::Fixed => format!("{x:.n$}"),
        FormatStyle::Exponent => format!("{x:.n$e}"),
        FormatStyle::SignedExponent => format!("{x:+.n$e}"),
        FormatStyle::Shortest => format!("{x}"),
        FormatStyle::ShortestExponent => format!("{x:e}"),
    }
}

fn supply(known: &mut Known, request: Request, input: &str) {
    match request {
        Request::Arith(call) => known.record_arith(call, pack(compute(&call))),
        Request::Literal { start, end } => {
            let text: String = input.chars().skip(start).take(end - start).collect();
            known.record_literal(start, end, pack(text.parse::<f64>().unwrap()));
        }
        Request::Format(call) => known.record_format(call, write(&call)),
    }
}

fn settle<T>(f: impl Fn(&Known) -> Result<T, Halt<EvalError>>) -> Result<T, String> {
    let mut known = Known::new();
    loop {
        match f(&known) {
            Ok(value) => return Ok(value),
            Err(Halt::Failed(e)) => return Err(e.error),
            Err(Halt::Awaits(request)) => supply(&mut known, request, ""),
        }
    }
}

fn metres(value: AutoNum) -> Quantity {
    Quantity::new(value, Dimension::new(0, 1, 0, 0, 0, 0, 0, 1))
}

fn seconds(value: AutoNum) -> Quantity {
    Quantity::new(value, Dimension::new(0, 0, 1, 0, 0, 0, 0, 1))
}

fn number(value: AutoNum) -> Quantity {
    Quantity::dimensionless(value)
}

fn definitions() -> Definitions {
    let units = vec![
        Named { name: String::from("m"), quantity: metres(float(1.0)) },
        Named { name: String::from("s"), quantity: seconds(float(1.0)) },
        Named { name: String::from("m"), quantity: metres(float(2.0)) },
        Named { name: String::from("in"), quantity: metres(float(0.0254)) },
    ];
    let constants = vec![Named { name: String::from("two"), quantity: number(AutoNum::Int(2)) }];
    let prefixes = vec![
        Prefix { symbol: 'k', factor: float(1e3) },
        Prefix { symbol: 'k', factor: float(1e6) },
    ];
    Definitions::new(constants, units, prefixes)
}

#[test]
fn quantities_of_one_dimension_add_up() {
    let sum = settle(|k| metres(AutoNum::Int(1)).add_quantity(&metres(AutoNum::Int(1)), k));
    assert_eq!(sum, Ok(metres(AutoNum::Int(2))));
    let difference = settle(|k| metres(AutoNum::Int(1)).sub_quantity(&metres(float(0.5)), k));
    assert_eq!(difference, Ok(metres(float(0.5))));
    let mixed = settle(|k| {
        metres(AutoNum::Int(1)).combine_quantity_terms(
            &seconds(AutoNum::Int(1)),
            FloatOp::Add,
            "no sum",
            k,
        )
    });
    assert_eq!(mixed, Err(String::from("no sum: m and s")));
}

#[test]
fn product_and_quotient_of_quantities() {
    let speed = settle(|k| metres(AutoNum::Int(6)).div_quantity(&seconds(AutoNum::Int(3)), k));
    assert_eq!(
        speed,
        Ok(Quantity::new(AutoNum::Int(2), Dimension::new(0, 1, -1, 0, 0, 0, 0, 1)))
    );
    let area = settle(|k| metres(AutoNum::Int(6)).mul_quantity(&metres(AutoNum::Int(3)), k));
    assert_eq!(area, Ok(Quantity::new(AutoNum::Int(18), Dimension::new(0, 2, 0, 0, 0, 0, 0, 1))));
    let huge = Quantity::new(AutoNum::Int(1), Dimension::new(0, 100, 0, 0, 0, 0, 0, 1));
    assert_eq!(
        settle(|k| huge.mul_quantity(&huge, k)),
        Err(String::from("overflow error in the calculation of units"))
    );
    assert_eq!(
        settle(|k| huge.div_quantity(&number(AutoNum::Int(0)), k)),
        Err(String::from("Division by 0"))
    );
}

#[test]
fn powers_and_roots_of_quantities() {
    let square = settle(|k| metres(AutoNum::Int(2)).pow_quantity(&number(AutoNum::Int(2)), k));
    assert_eq!(square, Ok(Quantity::new(AutoNum::Int(4), Dimension::new(0, 2, 0, 0, 0, 0, 0, 1))));
    let squared = square.unwrap();
    let root = settle(|k| squared.root_n(2, k));
    assert_eq!(root, Ok(metres(AutoNum::Int(2))));
    assert_eq!(
        settle(|k| number(AutoNum::Int(2)).pow_quantity(&number(float(0.5)), k)),
        Ok(number(float(2f64.powf(0.5))))
    );
    assert_eq!(
        settle(|k| metres(AutoNum::Int(2)).root_n(0, k)),
        Err(String::from("cannot take a root of units unless its index is positive"))
    );
}

#[test]
fn negative_and_undim() {
    assert_eq!(settle(|k| metres(AutoNum::Int(2)).negative(k)), Ok(metres(AutoNum::Int(-2))));
    assert_eq!(metres(AutoNum::Int(2)).undim(), number(AutoNum::Int(2)));
    assert_eq!(number(AutoNum::Int(2)).units, Dimension::none());
}

#[test]
fn functions_of_numbers() {
    assert_eq!(
        settle(|k| number(AutoNum::Int(50)).unitless_op(ScalarFn::Percent, k)),
        Ok(number(float(0.5)))
    );
    assert_eq!(
        settle(|k| number(AutoNum::Int(4)).unitless_op(ScalarFn::Factorial, k)),
        Ok(number(AutoNum::Int(24)))
    );
    assert_eq!(
        settle(|k| number(AutoNum::Int(0)).unitless_op(ScalarFn::Cos, k)),
        Ok(number(float(1.0)))
    );
    assert_eq!(
        settle(|k| metres(AutoNum::Int(0)).unitless_op(ScalarFn::Cos, k)),
        Err(String::from("cannot take the cosine of quantity with units (degrees are dimensionless)"))
    );
}

#[test]
fn quantity_in_words() {
    let mut known = Known::new();
    assert_eq!(metres(AutoNum::Int(3)).to_str(&known), Ok(String::from("3 m :: int")));
    let speed = Quantity::new(float(1.5), Dimension::new(0, 1, -1, 0, 0, 0, 0, 1));
    let large = metres(float(2.5e10));
    for q in [speed, large] {
        if let Err(request) = q.to_str(&known) {
            supply(&mut known, request, "");
        }
    }
    assert_eq!(speed.to_str(&known), Ok(String::from("1.5 m s^-1 :: float")));
    assert_eq!(large.to_str(&known), Ok(String::from("2.5e10 m :: float")));
}

#[test]
fn evaluation_of_a_tree() {
    let tree = Expr::binary(
        BinaryOp::Add,
        Expr::Quantity(number(AutoNum::Int(1))),
        Expr::unary(
            UnaryOp::Negative,
            Expr::binary(
                BinaryOp::Mul,
                Expr::Quantity(number(AutoNum::Int(2))),
                Expr::Quantity(number(AutoNum::Int(3))),
            ),
        ),
    );
    assert_eq!(settle(|k| tree.eval(k)), Ok(number(AutoNum::Int(-5))));
    let binary = Binary {
        op: BinaryOp::Pow,
        lhs: Expr::Quantity(number(AutoNum::Int(2))),
        rhs: Expr::Quantity(number(AutoNum::Int(5))),
    };
    assert_eq!(settle(|k| binary.eval(k)), Ok(number(AutoNum::Int(32))));
    let unary = Unary { op: UnaryOp::Undim, operand: Expr::Quantity(metres(AutoNum::Int(2))) };
    assert_eq!(settle(|k| unary.eval(k)), Ok(number(AutoNum::Int(2))));
    let positive = Unary { op: UnaryOp::Positive, operand: Expr::Quantity(metres(AutoNum::Int(2))) };
    assert_eq!(settle(|k| positive.eval(k)), Ok(metres(AutoNum::Int(2))));
    let with_units = Expr::with_units(Expr::Quantity(number(AutoNum::Int(2))), metres(AutoNum::Int(3)));
    assert_eq!(settle(|k| with_units.eval(k)), Ok(metres(AutoNum::Int(6))));
}

#[test]
fn an_operation_is_asked_for_once_and_then_known() {
    let mut known = Known::new();
    let half = Expr::binary(
        BinaryOp::Div,
        Expr::Quantity(number(AutoNum::Int(1))),
        Expr::Quantity(number(AutoNum::Int(2))),
    );
    let request = match half.eval(&known) {
        Err(Halt::Awaits(request)) => request,
        _ => panic!("nothing was asked for"),
    };
    assert_eq!(
        request,
        Request::Arith(FloatCall { op: FloatOp::Div, lhs: AutoNum::Int(1), rhs: AutoNum::Int(2) })
    );
    supply(&mut known, request, "");
    match half.eval(&known) {
        Ok(q) => assert_eq!(q, number(float(0.5))),
        _ => panic!("no value"),
    }
}

#[test]
fn operators() {
    assert!(matches!(try_get_binary_operator('+'), Some((BinaryOp::Add, 10, false))));
    assert!(matches!(try_get_binary_operator('-'), Some((BinaryOp::Sub, 10, false))));
    assert!(matches!(try_get_binary_operator('*'), Some((BinaryOp::Mul, 20, false))));
    assert!(matches!(try_get_binary_operator('/'), Some((BinaryOp::Div, 20, false))));
    assert!(try_get_binary_operator('^').is_none());
    assert_eq!(try_get_prefix_operator('+'), Some(UnaryOp::Positive));
    assert_eq!(try_get_prefix_operator('-'), Some(UnaryOp::Negative));
    assert_eq!(try_get_prefix_operator('!'), None);
    assert_eq!(try_get_postfix_operator('%'), Some(UnaryOp::Percent));
    assert_eq!(try_get_postfix_operator('!'), Some(UnaryOp::Factorial));
    assert_eq!(try_get_postfix_operator('-'), None);
    assert_eq!(try_get_function("sqrt"), Some(UnaryOp::RootN(2)));
    assert_eq!(try_get_function("cbrt"), Some(UnaryOp::RootN(3)));
    assert_eq!(try_get_function("sin"), Some(UnaryOp::Sin));
    assert_eq!(try_get_function("cos"), Some(UnaryOp::Cos));
    assert_eq!(try_get_function("tan"), Some(UnaryOp::Tan));
    assert_eq!(try_get_function("exp"), Some(UnaryOp::Exp));
    assert_eq!(try_get_function("ln"), Some(UnaryOp::Ln));
    assert_eq!(try_get_function("log"), Some(UnaryOp::Log));
    assert_eq!(try_get_function("root"), None);
    assert_eq!(try_get_function("Sin"), None);
    assert_eq!(try_get_function(""), None);
}

#[test]
fn query_keywords() {
    for word in ["in", "round", "fixed", "scientific", "hideunits", "rd", "fd", "sc", "hide"] {
        assert!(is_query_keyword(word));
    }
    for word in ["per", "over", "under", "never", "always", "if", "", "In", "inn"] {
        assert!(!is_query_keyword(word));
    }
}

#[test]
fn names_of_tokens() {
    let name = |data: TokenData<'static>, substr: &'static str| {
        get_token_str(&Token { data, start_pos: 0, end_pos: 0, substr })
    };
    assert_eq!(name(TokenData::Num(pack(1.5)), "1.5"), "number '1.5'");
    assert_eq!(name(TokenData::Int(12), "012"), "integer '012'");
    assert_eq!(name(TokenData::LBracket, "("), "left bracket '('");
    assert_eq!(name(TokenData::RBracket, ")"), "right bracket ')'");
    assert_eq!(name(TokenData::Sym('#'), "#"), "symbol '#'");
    assert_eq!(name(TokenData::Word("km"), "km"), "word 'km'");
    assert_eq!(name(TokenData::EndOfInput, "end of input"), "end of input");
}

#[test]
fn errors_with_their_positions() {
    let token = Token { data: TokenData::Word("km"), start_pos: 3, end_pos: 5, substr: "km" };
    let e = ParseError::from_token(String::from("bad"), &token, "12 km");
    assert_eq!((e.start_pos, e.end_pos, e.error.as_str(), e.original), (3, 5, "bad", "12 km"));
    assert_eq!(
        e.error_report(),
        "\u{1B}[mError in parsing: bad\n | 12 km\n | \u{1B}[3C\u{1B}[31m^^"
    );
    let e = ParseError::from_pos(String::from("worse"), 0, "x");
    assert_eq!((e.start_pos, e.end_pos), (0, 0));
    assert_eq!(e.error_report(), "\u{1B}[mError in parsing: worse\n | x\n | \u{1B}[31m^");
    let e = ParseError::from_pos(String::from("late"), 12, "0123456789 12");
    assert_eq!(
        e.error_report(),
        "\u{1B}[mError in parsing: late\n | 0123456789 12\n | \u{1B}[12C\u{1B}[31m^"
    );
}

#[test]
fn definitions_by_name() {
    let defs = definitions();
    let known = Known::new();
    assert_eq!(defs.get_constant("two"), Some(number(AutoNum::Int(2))));
    assert_eq!(defs.get_constant("m"), None);
    assert_eq!(defs.get_unit("m", &known), Ok(Some(metres(float(1.0)))));
    assert_eq!(defs.get_unit("in", &known), Ok(Some(metres(float(0.0254)))));
    assert_eq!(defs.get_unit("", &known), Ok(None));
    assert_eq!(defs.get_unit("x", &known), Ok(None));
    assert_eq!(defs.get_unit("xm", &known), Ok(None));
    assert_eq!(defs.get_unit("kx", &known), Ok(None));
    assert_eq!(defs.get_unit("k", &known), Ok(None));
    let request =
        Request::Arith(FloatCall { op: FloatOp::Mul, lhs: float(1.0), rhs: float(1e3) });
    assert_eq!(defs.get_unit("km", &known), Err(request));
    let mut known = Known::new();
    supply(&mut known, request, "");
    assert_eq!(defs.get_unit("km", &known), Ok(Some(metres(float(1000.0)))));
}

fn read_units(input: &str) -> Result<(String, Quantity, usize), (String, usize, usize)> {
    let defs = definitions();
    let mut known = Known::new();
    loop {
        let mut lexer = Lexer::new(input);
        match parse_units(&mut lexer, &defs, &known) {
            Ok((label, unit)) => {
                let next = match lexer.peek_token(&known) {
                    Ok(token) => token.start_pos,
                    Err(_) => usize::MAX,
                };
                return Ok((label, unit, next));
            }
            Err(Halt::Failed(e)) => return Err((e.error, e.start_pos, e.end_pos)),
            Err(Halt::Awaits(request)) => supply(&mut known, request, input),
        }
    }
}

#[test]
fn runs_of_units() {
    assert_eq!(read_units(""), Ok((String::new(), number(float(1.0)), 0)));
    assert_eq!(read_units("+ m"), Ok((String::new(), number(float(1.0)), 0)));
    assert_eq!(read_units("per m"), Ok((String::new(), number(float(1.0)), 0)));
    assert_eq!(read_units("m"), Ok((String::from("m"), metres(float(1.0)), 1)));
    assert_eq!(read_units("km round 2"), Ok((String::from("km"), metres(float(1000.0)), 3)));
    assert_eq!(
        read_units("m^2 s^-1 + 1"),
        Ok((
            String::from("m^2 s^-1"),
            Quantity::new(float(1.0), Dimension::new(0, 2, -1, 0, 0, 0, 0, 1)),
            9
        ))
    );
    assert_eq!(
        read_units("m s"),
        Ok((
            String::from("ms"),
            Quantity::new(float(1.0), Dimension::new(0, 1, 1, 0, 0, 0, 0, 1)),
            3
        ))
    );
    assert_eq!(read_units("m x"), Err((String::from("'x' is not a valid unit"), 2, 3)));
    assert_eq!(
        read_units("m^127 m"),
        Err((String::from("overflow error in the calculation of units"), 6, 7))
    );
}

fn read_exponent(input: &str) -> Result<(i8, String), (String, usize, usize)> {
    let known = Known::new();
    let mut lexer = Lexer::new(input);
    let mut text = String::from("m^");
    match parse_unit_exponent(&mut lexer, &mut text, &known) {
        Ok(n) => Ok((n, text)),
        Err(Halt::Failed(e)) => Err((e.error, e.start_pos, e.end_pos)),
        Err(Halt::Awaits(_)) => panic!("an exponent needs no floating-point work"),
    }
}

#[test]
fn exponents_of_units() {
    assert_eq!(read_exponent("2"), Ok((2, String::from("m^2"))));
    assert_eq!(read_exponent("0"), Ok((0, String::from("m^0"))));
    assert_eq!(read_exponent("007"), Ok((7, String::from("m^007"))));
    assert_eq!(read_exponent("127"), Ok((127, String::from("m^127"))));
    assert_eq!(read_exponent("- 3"), Ok((-3, String::from("m^-3"))));
    assert_eq!(read_exponent("-128"), Ok((-128, String::from("m^-128"))));
    assert_eq!(
        read_exponent("128"),
        Err((String::from("magnitude of '128' exceeds maximum (max: -128 to 127)"), 0, 3))
    );
    assert_eq!(
        read_exponent("-129"),
        Err((String::from("magnitude of '129' exceeds maximum (max: -128 to 127)"), 1, 4))
    );
    assert_eq!(
        read_exponent("+2"),
        Err((String::from("unexpected symbol '+', expected integer in exponent"), 0, 1))
    );
    assert_eq!(
        read_exponent(""),
        Err((String::from("unexpected end of input, expected integer in exponent"), 0, 0))
    );
    assert_eq!(
        read_exponent("-("),
        Err((String::from("unexpected left bracket '(', expected integer in exponent"), 1, 2))
    );
}

#[test]
fn an_expression_ends_before_the_directions() {
    let defs = definitions();
    let known = Known::new();
    let mut lexer = Lexer::new("1 + two * 3 round 2");
    let expr = match parse_expr(&mut lexer, &defs, &known) {
        Ok(expr) => expr,
        Err(_) => panic!("no expression"),
    };
    assert_eq!(settle(|k| expr.eval(k)), Ok(number(AutoNum::Int(7))));
    match lexer.next_token(&known) {
        Ok(token) => assert_eq!((token.substr, token.start_pos), ("round", 12)),
        Err(_) => panic!("no token"),
    }
}

#[test]
fn scientific_notation_of_a_number() {
    let text = |x: f64, n: usize, fixed: bool| {
        let mut known = Known::new();
        loop {
            match get_scientific(pack(x), n, fixed, &known) {
                Ok(s) => return s,
                Err(request) => supply(&mut known, request, ""),
            }
        }
    };
    assert_eq!(text(12345.0, 2, false), "1.23e4");
    assert_eq!(text(12345.0, 2, true), "+1.23e+004");
    assert_eq!(text(-1.5e-7, 3, true), "-1.500e-007");
    assert_eq!(text(1e100, 0, true), "+1e+100");
    assert_eq!(text(1e-100, 1, true), "+1.0e-100");
    assert_eq!(text(f64::INFINITY, 2, true), "       inf");
    assert_eq!(text(f64::NEG_INFINITY, 2, true), "      -inf");
    assert_eq!(text(f64::NAN, 2, true), "       NaN");
    assert_eq!(text(f64::NAN, 0, true), "    NaN");
    assert_eq!(text(f64::INFINITY, 2, false), "inf");
    assert_eq!(text(5e-324, 2, true), "+4.94e-324");
}

#[test]
fn a_text_that_is_no_number_is_left_as_it_is() {
    let mut known = Known::new();
    let call = FormatCall { style: FormatStyle::SignedExponent, digits: 2, value: pack(1.0) };
    known.record_format(call, String::from("+1.0"));
    assert_eq!(get_scientific(pack(1.0), 2, true, &known), Ok(String::from("+1.0")));
}

#[test]
fn text() {
    assert_eq!(decimal_string(0), "0");
    assert_eq!(decimal_string(7), "7");
    assert_eq!(decimal_string(-7), "-7");
    assert_eq!(decimal_string(1000), "1000");
    assert_eq!(decimal_string(i64::MAX), "9223372036854775807");
    assert_eq!(decimal_string(i64::MIN), "-9223372036854775808");
    assert!(same_text("km", "km"));
    assert!(!same_text("km", "k"));
    assert!(!same_text("km", "kn"));
    assert!(same_text("", ""));
    assert_eq!(chars_of("aé"), vec!['a', 'é']);
    assert_eq!(string_of(&vec!['a', 'b', 'c'], 1, 3), "bc");
    assert_eq!(string_of(&vec!['a', 'b', 'c'], 2, 2), "");
}
