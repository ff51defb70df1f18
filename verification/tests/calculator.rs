use unitcalc::autonum::AutoNum;
use unitcalc::binary64::Binary64;
use unitcalc::consts::{Definitions, Named, Prefix};
use unitcalc::floats::{FloatCall, FloatOp, FormatCall, FormatStyle, Halt, Known, Request};
use unitcalc::query::parse;
use unitcalc::units::{Dimension, Quantity};

fn pack(x: f64) -> Binary64 {
    Binary64::from_bits(x.to_bits())
}

fn unpack(x: Binary64) -> f64 {
    f64::from_bits(x.to_bits())
}

fn operand(n: &AutoNum) -> f64 {
    match n {
        AutoNum::Int(i) => *i as f64,
        AutoNum::Float(x) => unpack(*x),
    }
}

fn compute(call: &FloatCall) -> f64 {
    let a = operand(&call.lhs);
    let b = operand(&call.rhs);
    match call.op {
        FloatOp::Cast => a,
        FloatOp::Add => a + b,
        FloatOp::Sub => a - b,
        FloatOp::Mul => a * b,
        FloatOp::Div => a / b,
        FloatOp::Pow => a.powf(b),
        FloatOp::Sqrt => a.sqrt(),
        FloatOp::Cbrt => a.cbrt(),
        FloatOp::Sin => a.sin(),
        FloatOp::Cos => a.cos(),
        FloatOp::Tan => a.tan(),
        FloatOp::Exp => a.exp(),
        FloatOp::Ln => a.ln(),
        FloatOp::Log10 => a.log10(),
    }
}

fn write(call: &FormatCall) -> String {
    let x = unpack(call.value);
    let n = call.digits;
    match call.style {
        FormatStyle::Fixed => format!("{x:.n$}"),
        FormatStyle::Exponent => format!("{x:.n$e}"),
        FormatStyle::SignedExponent => format!("{x:+.n$e}"),
        FormatStyle::Shortest => format!("{x}"),
        FormatStyle::ShortestExponent => format!("{x:e}"),
    }
}

fn supply(known: &mut Known, request: &Request, input: &str) {
    match request {
        Request::Arith(call) => known.record_arith(*call, pack(compute(call))),
        Request::Literal { start, end } => {
            let text: String = input.chars().skip(*start).take(end - start).collect();
            known.record_literal(*start, *end, pack(text.parse::<f64>().unwrap()));
        }
        Request::Format(call) => known.record_format(*call, write(call)),
    }
}

fn unit(name: &str, value: f64, e: [i8; 7]) -> Named {
    Named {
        name: String::from(name),
        quantity: Quantity::new(
            AutoNum::Float(pack(value)),
            Dimension::new(e[0], e[1], e[2], e[3], e[4], e[5], e[6], 1),
        ),
    }
}

fn definitions() -> Definitions {
    let constants = vec![
        Named {
            name: String::from("pi"),
            quantity: Quantity::dimensionless(AutoNum::Float(pack(std::f64::consts::PI))),
        },
        unit("c", 299792458.0, [0, 1, -1, 0, 0, 0, 0]),
    ];
    let units = vec![
        unit("g", 0.001, [1, 0, 0, 0, 0, 0, 0]),
        unit("m", 1.0, [0, 1, 0, 0, 0, 0, 0]),
        unit("s", 1.0, [0, 0, 1, 0, 0, 0, 0]),
        unit("A", 1.0, [0, 0, 0, 1, 0, 0, 0]),
        unit("N", 1.0, [1, 1, -2, 0, 0, 0, 0]),
        unit("min", 60.0, [0, 0, 1, 0, 0, 0, 0]),
        unit("h", 3600.0, [0, 0, 1, 0, 0, 0, 0]),
        Named {
            name: String::from("deg"),
            quantity: Quantity::dimensionless(AutoNum::Float(pack(
                std::f64::consts::PI / 180.0,
            ))),
        },
    ];
    let prefixes = vec![
        Prefix { symbol: 'k', factor: AutoNum::Float(pack(1e3)) },
        Prefix { symbol: 'c', factor: AutoNum::Float(pack(1e-2)) },
        Prefix { symbol: 'm', factor: AutoNum::Float(pack(1e-3)) },
    ];
    Definitions::new(constants, units, prefixes)
}

#[derive(Debug, PartialEq)]
enum Outcome {
    Answer(String),
    ParseError(String, usize, usize),
    EvalError(String),
}

fn run(input: &str) -> Outcome {
    let defs = definitions();
    let mut known = Known::new();
    let query = loop {
        match parse(input, &defs, &known) {
            Ok(query) => break query,
            Err(Halt::Failed(e)) => return Outcome::ParseError(e.error, e.start_pos, e.end_pos),
            Err(Halt::Awaits(request)) => supply(&mut known, &request, input),
        }
    };
    loop {
        match query.get_answer(&known) {
            Ok(text) => return Outcome::Answer(text),
            Err(Halt::Failed(e)) => return Outcome::EvalError(e.error),
            Err(Halt::Awaits(request)) => supply(&mut known, &request, input),
        }
    }
}

fn answer(input: &str) -> String {
    match run(input) {
        Outcome::Answer(text) => text,
        other => panic!("no answer to '{input}': {other:?}"),
    }
}

fn eval_error(input: &str) -> String {
    match run(input) {
        Outcome::EvalError(message) => message,
        other => panic!("no evaluation error for '{input}': {other:?}"),
    }
}

fn parse_error(input: &str) -> (String, usize, usize) {
    match run(input) {
        Outcome::ParseError(message, start, end) => (message, start, end),
        other => panic!("no parse error for '{input}': {other:?}"),
    }
}

#[test]
fn integers_stay_exact() {
    assert_eq!(answer("1 + 2 * 3"), "7");
    assert_eq!(answer("6 / 3"), "2");
    assert_eq!(answer("2 ^ 10"), "1024");
    assert_eq!(answer("5!"), "120");
    assert_eq!(answer("-7 + 2"), "-5");
    assert_eq!(answer("(1 + 2) * 3"), "9");
}

#[test]
fn inexact_division_gives_a_float() {
    assert_eq!(answer("7 / 2"), "3.5");
    assert_eq!(answer("1 / 3"), "0.33333333");
}

#[test]
fn division_by_zero_is_an_error() {
    assert_eq!(eval_error("1 / 0"), "Division by 0");
    assert_eq!(eval_error("1 / 0.0"), "Division by 0");
}

#[test]
fn negative_power_inverts() {
    assert_eq!(answer("2 ^ -1"), "0.5");
}

#[test]
fn power_groups_to_the_right() {
    assert_eq!(answer("2 ^ 3 ^ 2"), "512");
    assert_eq!(answer("-2 ^ 2"), "-4");
    assert_eq!(answer("2 * 3 ^ 2"), "18");
}

#[test]
fn subtraction_and_division_group_to_the_left() {
    assert_eq!(answer("10 - 4 - 3"), "3");
    assert_eq!(answer("64 / 4 / 2"), "8");
}

#[test]
fn adding_lengths() {
    assert_eq!(answer("1 m + 1 m"), "2 m");
}

#[test]
fn adding_a_length_and_a_time_names_both_units() {
    let message = eval_error("1 m + 1 s");
    assert_eq!(message, "cannot add two quantities with different units: m and s");
    assert_eq!(
        eval_error("1 m - 1"),
        "cannot subtract two quantities with different units: m and no units"
    );
}

#[test]
fn power_of_a_quantity_with_units() {
    assert_eq!(answer("(2 m)^2"), "4 m^2");
    assert_eq!(
        eval_error("(2 m)^0.5"),
        "raising a quantity with units to a non-integer power not supported (power cannot be guaranteed to be an integer)"
    );
    assert_eq!(
        eval_error("(2 m)^200"),
        "power too large to raise quantity with units (max: -128 <= n <= 127)"
    );
    assert_eq!(eval_error("2 ^ (1 m)"), "cannot take the power of a quantity with units");
    assert_eq!(answer("(2 m)^100 hide"), "1.2677e30");
    assert_eq!(eval_error("(2 m^2)^100"), "overflow error in the calculation of units");
}

#[test]
fn conversion_to_kilometres() {
    assert_eq!(answer("10 m in km"), "0.01 km");
}

#[test]
fn conversion_needs_the_same_dimension() {
    assert_eq!(eval_error("10 m in s"), "cannot convert to given units: m -> s");
}

#[test]
fn square_root_of_a_negative_number_is_an_error() {
    assert_eq!(eval_error("sqrt(-1)"), "Cannot take the square root of a negative number");
    assert_eq!(eval_error("root 4(-16)"), "Cannot take the 4-root of a negative number");
}

#[test]
fn roots() {
    assert_eq!(answer("root 4(16)"), "2");
    assert_eq!(answer("sqrt(16)"), "4");
    assert_eq!(answer("sqrt(2)"), "1.41421356");
    assert_eq!(answer("cbrt(27)"), "3");
    assert_eq!(answer("sqrt(4 m^2)"), "2 m");
    assert_eq!(answer("sqrt(2 m)"), "1.41421356 m^1/2");
}

#[test]
fn integer_answer_reads_back_as_itself() {
    for text in ["0", "7", "1024", "-5", "9999999999", "-9999999999"] {
        assert_eq!(answer(text), text);
        assert_eq!(answer(&answer(text)), text);
    }
}

#[test]
fn large_integers_fall_back_to_floats() {
    assert_eq!(answer("9223372036854775807 + 1"), "9.2234e18");
    assert_eq!(answer("3037000500 * 3037000500"), "9.2234e18");
    assert_eq!(answer("21!"), "5.1091e19");
    assert_eq!(answer("20! sc never"), "2432902008176640000");
}

#[test]
fn a_long_chain_of_floating_point_work() {
    assert_eq!(answer("100!"), "9.3326e157");
    assert_eq!(answer("3 ^ 50"), "7.1790e23");
    assert_eq!(answer("1.5 ^ 20 round 3"), "3325.257");
    assert_eq!(answer("3 km / 2 min in m s^-1 round 2"), "25 ms^-1");
}

#[test]
fn functions_need_numbers_without_units() {
    assert_eq!(answer("sin(0)"), "0");
    assert_eq!(answer("cos(0)"), "1");
    assert_eq!(answer("exp(0)"), "1");
    assert_eq!(answer("ln(1)"), "0");
    assert_eq!(answer("log(1000)"), "3");
    assert_eq!(answer("50%"), "0.5");
    assert_eq!(answer("sin(90 deg)"), "1");
    assert_eq!(
        eval_error("sin(1 m)"),
        "cannot take the sine of quantity with units (degrees are dimensionless)"
    );
    assert_eq!(
        eval_error("cos(1 m)"),
        "cannot take the cosine of quantity with units (degrees are dimensionless)"
    );
    assert_eq!(
        eval_error("tan(1 m)"),
        "cannot take the tangent of quantity with units (degrees are dimensionless)"
    );
    assert_eq!(eval_error("exp(1 m)"), "cannot take the exponentiation of a quantity with units");
    assert_eq!(eval_error("ln(1 m)"), "cannot take the natural log of a quantity with units");
    assert_eq!(eval_error("log(1 m)"), "cannot take the base-10 log of a quantity with units");
    assert_eq!(eval_error("(1 m)!"), "cannot take the factorial of quantity with units");
    assert_eq!(
        eval_error("(1 m)%"),
        "cannot use percentage on quantity with units, consider using x / 100 instead"
    );
}

#[test]
fn domain_errors() {
    assert_eq!(eval_error("ln(0)"), "Cannot take the natural log of a non-positive number");
    assert_eq!(eval_error("log(-1)"), "Cannot take the base-10 log of a non-positive number");
    assert_eq!(eval_error("(-1)!"), "Cannot take the factorial of a negative number");
    assert_eq!(eval_error("1.5!"), "Cannot take the factorial of a floating point value");
}

#[test]
fn first_error_from_the_left_wins() {
    assert_eq!(eval_error("1 / 0 + sqrt(-1)"), "Division by 0");
    assert_eq!(
        eval_error("sqrt(-1) + 1 / 0"),
        "Cannot take the square root of a negative number"
    );
}

#[test]
fn units_and_prefixes() {
    assert_eq!(answer("2 km"), "2000 m");
    assert_eq!(answer("3 N"), "3 kg m s^-2");
    assert_eq!(answer("1 h in min"), "60 min");
    assert_eq!(answer("5 m s^-1"), "5 m s^-1");
    assert_eq!(answer("10 m per s"), "10 m s^-1");
    assert_eq!(answer("1 km^2"), "1000000 m^2");
    assert_eq!(answer("c in km s^-1"), "299792.458 kms^-1");
}

#[test]
fn label_of_the_unit_to_convert_to() {
    assert_eq!(answer("1 m^2 s in m^2 s"), "1 m^2 s");
    assert_eq!(answer("1 m s^2 in m s^2"), "1 ms^2");
    assert_eq!(answer("2000 m^2 in km^2"), "0.002 km^2");
    assert_eq!(answer("1 m^-1 in m^-1"), "1 m^-1");
}

#[test]
fn undimensioned_expression() {
    assert_eq!(answer(": 5 m"), "5");
    assert_eq!(answer(": 10 m per s"), "10");
}

#[test]
fn hiding_units() {
    assert_eq!(answer("2 km hideunits"), "2000");
    assert_eq!(answer("10 m in km hide"), "0.01");
}

#[test]
fn rounding() {
    assert_eq!(answer("1 / 3 round 2"), "0.33");
    assert_eq!(answer("1 / 2 round 3"), "0.5");
    assert_eq!(answer("1 / 2 fixed 3"), "0.500");
    assert_eq!(answer("2 / 3 rd 0"), "1");
    assert_eq!(answer("1200.0 rd 0"), "1200");
    assert_eq!(answer("1 / 4 fd 1"), "0.2");
}

#[test]
fn scientific_notation() {
    assert_eq!(answer("10000000000"), "1.0000e10");
    assert_eq!(answer("0.00001"), "1.0000e-5");
    assert_eq!(answer("0.0001"), "0.0001");
    assert_eq!(answer("12345 scientific always"), "1.2345e4");
    assert_eq!(answer("12345 sc al fd"), "+1.2345e+004");
    assert_eq!(answer("-0.00012345 sc always fixed"), "-1.2345e-004");
    assert_eq!(answer("12345 sc always fixed round 0"), "+1e+004");
    assert_eq!(answer("10000000000 sc never"), "10000000000");
    assert_eq!(answer("1e300 * 1e300 sc al fd"), "         inf");
    assert_eq!(answer("-1e300 * 1e300 sc al fd"), "        -inf");
    assert_eq!(answer("1e300 * 1e300 - 1e300 * 1e300 sc al fd"), "         NaN");
    assert_eq!(answer("1e300 * 1e300 sc al fd rd 0"), "    inf");
    assert_eq!(answer("0.0 sc al fd"), "+0.0000e+000");
    assert_eq!(answer("150.0 sc if over 100.0"), "1.5000e2");
    assert_eq!(answer("50.0 sc if over 100.0"), "50");
    assert_eq!(answer("0.5 sc if under 1.0"), "5.0000e-1");
    assert_eq!(answer("0.5 sc if > 100.0 < 1.0"), "5.0000e-1");
    assert_eq!(answer("150.0 sc if over 100.0 hide"), "1.5000e2");
}

#[test]
fn malformed_queries() {
    assert_eq!(
        parse_error("1 in m in s"),
        (String::from("'in' query already specified"), 7, 9)
    );
    assert_eq!(
        parse_error("1 round 2 fixed 3"),
        (String::from("'round' query already specified"), 10, 15)
    );
    assert_eq!(
        parse_error("1 sc never sc never"),
        (String::from("'scientific' query already specified"), 11, 13)
    );
    assert_eq!(
        parse_error("1 hide hide"),
        (String::from("'hideunits' query already specified"), 7, 11)
    );
    assert_eq!(parse_error("1 round x"), (String::from("expected integer for round query"), 8, 9));
    assert_eq!(
        parse_error("1 sc sometimes"),
        (String::from("expected 'never'/'always'/'if' for 'scientific' query"), 5, 14)
    );
    assert_eq!(
        parse_error("1 sc if"),
        (String::from("expected 'more'/'less' for 'scientific if' subquery"), 5, 7)
    );
    assert_eq!(
        parse_error("1 sc if over 1.0 over 2.0"),
        (String::from("'over' subquery already specified"), 17, 21)
    );
    assert_eq!(
        parse_error("1 sc if under 5"),
        (String::from("expected floating point number for 'under' subquery"), 14, 15)
    );
    assert_eq!(parse_error("1 2"), (String::from("unexpected integer '2'"), 2, 3));
    assert_eq!(parse_error("1 m )"), (String::from("unexpected right bracket ')'"), 4, 5));
}

#[test]
fn malformed_expressions() {
    assert_eq!(parse_error(""), (String::from("unexpected end of input"), 0, 0));
    assert_eq!(parse_error("1 +"), (String::from("unexpected end of input"), 3, 3));
    assert_eq!(parse_error("(1 + 2"), (String::from("unexpected end of input"), 6, 6));
    assert_eq!(parse_error("1 + * 2"), (String::from("unexpected symbol '*'"), 4, 5));
    assert_eq!(
        parse_error("foo(1)"),
        (String::from("'foo' is not a valid function or constant"), 0, 3)
    );
    assert_eq!(parse_error("1 parsec"), (String::from("'parsec' is not a valid unit"), 2, 8));
    assert_eq!(
        parse_error("sin 1"),
        (String::from("expected left bracket '(' after function"), 4, 5)
    );
    assert_eq!(parse_error("root 0(4)"), (String::from("cannot take 0-root"), 5, 6));
    assert_eq!(
        parse_error("root 128(4)"),
        (
            String::from(
                "128-root exceeds maximum supported for the program (max: 127). Use x^(1/y) instead"
            ),
            5,
            8
        )
    );
    assert_eq!(parse_error("root x(4)"), (String::from("Missing integer for root function"), 5, 5));
    assert_eq!(
        parse_error("root 2 4"),
        (String::from("expected left bracket '(' after function"), 7, 8)
    );
    assert_eq!(
        parse_error("1 m^x"),
        (String::from("unexpected word 'x', expected integer in exponent"), 4, 5)
    );
    assert_eq!(
        parse_error("1 m^-x"),
        (String::from("unexpected word 'x', expected integer in exponent"), 5, 6)
    );
    assert_eq!(
        parse_error("1 m^128"),
        (String::from("magnitude of '128' exceeds maximum (max: -128 to 127)"), 4, 7)
    );
    assert_eq!(
        parse_error("1 m^-129"),
        (String::from("magnitude of '129' exceeds maximum (max: -128 to 127)"), 5, 8)
    );
    assert_eq!(
        parse_error("1 m^100 m^100"),
        (String::from("overflow error in the calculation of units"), 8, 9)
    );
    assert_eq!(parse_error("1 + ."), (String::from("Lone decimal dot with no digits"), 4, 4));
    assert_eq!(parse_error("1e"), (String::from("Missing exponent"), 2, 2));
    assert_eq!(parse_error("1e-"), (String::from("Missing exponent"), 3, 3));
    assert_eq!(parse_error("1 frobnicate 2"), (String::from("'frobnicate' is not a valid unit"), 2, 12));
    assert_eq!(parse_error("1 ) ."), (String::from("unexpected right bracket ')'"), 2, 3));
}

#[test]
fn unit_exponents_at_the_ends_of_the_range() {
    assert_eq!(answer("1 m^127 hide"), "1");
    assert_eq!(answer("1 m^-128 hide"), "1");
}

#[test]
fn constants() {
    assert_eq!(answer("pi round 2"), "3.14");
    assert_eq!(answer("c"), "299792458 m s^-1");
}
