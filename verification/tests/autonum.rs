use unitcalc::autonum::{isqrt, AutoNum};
use unitcalc::binary64::Binary64;
use unitcalc::floats::{FloatCall, FloatOp, Halt, Known, Request};

fn pack(x: f64) -> Binary64 {
    Binary64::from_bits(x.to_bits())
}

fn float(x: f64) -> AutoNum {
    AutoNum::Float(pack(x))
}

fn operand(n: &AutoNum) -> f64 {
    match n {
        AutoNum::Int(i) => *i as f64,
        AutoNum::Float(x) => f64::from_bits(x.to_bits()),
    }
}

fn compute(call: &FloatCall) -> f64 {
    let a = operand(&call.lhs);
    let b = operand(&call.rhs);
    match call.op {
        FloatOp::Cast => a,
        FloatOp::Add => a + b,
        FloatOp::Sub => a - b,
        FloatOp::Mul => a * b,
        FloatOp::Div => a / b,
        FloatOp::Pow => a.powf(b),
        FloatOp::Sqrt => a.sqrt(),
        FloatOp::Cbrt => a.cbrt(),
        FloatOp::Sin => a.sin(),
        FloatOp::Cos => a.cos(),
        FloatOp::Tan => a.tan(),
        FloatOp::Exp => a.exp(),
        FloatOp::Ln => a.ln(),
        FloatOp::Log10 => a.log10(),
    }
}

fn supply(known: &mut Known, request: Request) {
    match request {
        Request::Arith(call) => known.record_arith(call, pack(compute(&call))),
        other => panic!("not an operation: {other:?}"),
    }
}

/// Runs `f` until it asks for nothing more; gives its result and the
/// number of operations that it asked for.
fn settle(f: impl Fn(&Known) -> Result<AutoNum, Request>) -> (AutoNum, usize) {
    let mut known = Known::new();
    let mut asked = 0;
    loop {
        match f(&known) {
            Ok(value) => return (value, asked),
            Err(request) => {
                asked += 1;
                supply(&mut known, request);
            }
        }
    }
}

fn settle_checked(
    f: impl Fn(&Known) -> Result<AutoNum, Halt<unitcalc::ast::EvalError>>,
) -> Result<(AutoNum, usize), String> {
    let mut known = Known::new();
    let mut asked = 0;
    loop {
        match f(&known) {
            Ok(value) => return Ok((value, asked)),
            Err(Halt::Failed(e)) => return Err(e.error),
            Err(Halt::Awaits(request)) => {
                asked += 1;
                supply(&mut known, request);
            }
        }
    }
}

fn call(op: FloatOp, lhs: AutoNum, rhs: AutoNum) -> Request {
    Request::Arith(FloatCall { op, lhs, rhs })
}

#[test]
fn product_of_integers_is_exact() {
    let known = Known::new();
    assert_eq!(AutoNum::Int(6).auto_mul(&AutoNum::Int(7), &known), Ok(AutoNum::Int(42)));
    assert_eq!(AutoNum::Int(-6).auto_mul(&AutoNum::Int(7), &known), Ok(AutoNum::Int(-42)));
    assert_eq!(
        AutoNum::Int(3037000499).auto_mul(&AutoNum::Int(3037000499), &known),
        Ok(AutoNum::Int(9223372030926249001))
    );
    assert_eq!(
        AutoNum::Int(i64::MAX).auto_mul(&AutoNum::Int(1), &known),
        Ok(AutoNum::Int(i64::MAX))
    );
    assert_eq!(
        AutoNum::Int(i64::MIN).auto_mul(&AutoNum::Int(1), &known),
        Ok(AutoNum::Int(i64::MIN))
    );
}

#[test]
fn product_past_the_boundary_is_the_float_product() {
    let known = Known::new();
    let a = AutoNum::Int(3037000500);
    assert_eq!(a.auto_mul(&a, &known), Err(call(FloatOp::Mul, a, a)));
    assert_eq!(settle(|k| a.auto_mul(&a, k)), (float(3037000500.0 * 3037000500.0), 1));
    let max = AutoNum::Int(i64::MAX);
    let two = AutoNum::Int(2);
    assert_eq!(settle(|k| max.auto_mul(&two, k)), (float(i64::MAX as f64 * 2.0), 1));
    let min = AutoNum::Int(i64::MIN);
    assert_eq!(settle(|k| min.auto_mul(&AutoNum::Int(-1), k)), (float(9223372036854775808.0), 1));
}

#[test]
fn sums_and_differences() {
    let known = Known::new();
    assert_eq!(AutoNum::Int(2).auto_add(&AutoNum::Int(3), &known), Ok(AutoNum::Int(5)));
    assert_eq!(AutoNum::Int(2).auto_sub(&AutoNum::Int(3), &known), Ok(AutoNum::Int(-1)));
    assert_eq!(
        settle(|k| AutoNum::Int(i64::MAX).auto_add(&AutoNum::Int(1), k)),
        (float(9223372036854775808.0), 1)
    );
    assert_eq!(
        settle(|k| AutoNum::Int(i64::MIN).auto_sub(&AutoNum::Int(1), k)),
        (float(-9223372036854775808.0), 1)
    );
    assert_eq!(settle(|k| AutoNum::Int(1).auto_add(&float(0.5), k)), (float(1.5), 1));
    assert_eq!(settle(|k| float(0.25).auto_sub(&float(0.5), k)), (float(-0.25), 1));
}

#[test]
fn a_float_never_becomes_an_integer_again() {
    assert_eq!(settle(|k| float(2.0).auto_mul(&AutoNum::Int(3), k)), (float(6.0), 1));
    assert_eq!(settle(|k| float(2.0).auto_add(&float(2.0), k)), (float(4.0), 1));
    assert_eq!(settle_checked(|k| float(6.0).auto_div(&AutoNum::Int(3), k)), Ok((float(2.0), 1)));
}

#[test]
fn exact_division_stays_an_integer() {
    let known = Known::new();
    let divide = |a: i64, b: i64| match AutoNum::Int(a).auto_div(&AutoNum::Int(b), &known) {
        Ok(v) => v,
        Err(_) => panic!("{a} / {b} gave no integer"),
    };
    assert_eq!(divide(6, 3), AutoNum::Int(2));
    assert_eq!(divide(-6, 3), AutoNum::Int(-2));
    assert_eq!(divide(6, -3), AutoNum::Int(-2));
    assert_eq!(divide(-6, -3), AutoNum::Int(2));
    assert_eq!(divide(0, 5), AutoNum::Int(0));
    assert_eq!(divide(i64::MIN, 1), AutoNum::Int(i64::MIN));
    assert_eq!(divide(i64::MIN, 2), AutoNum::Int(i64::MIN / 2));
    assert_eq!(divide(i64::MAX, -1), AutoNum::Int(-i64::MAX));
}

#[test]
fn inexact_division_is_the_float_quotient() {
    assert_eq!(
        settle_checked(|k| AutoNum::Int(7).auto_div(&AutoNum::Int(2), k)),
        Ok((float(3.5), 1))
    );
    assert_eq!(
        settle_checked(|k| AutoNum::Int(i64::MIN).auto_div(&AutoNum::Int(-1), k)),
        Ok((float(9223372036854775808.0), 1))
    );
    assert_eq!(
        settle_checked(|k| AutoNum::Int(1).auto_div(&float(4.0), k)),
        Ok((float(0.25), 1))
    );
}

#[test]
fn division_by_zero() {
    let zeros = [AutoNum::Int(0), float(0.0), float(-0.0)];
    let dividends = [AutoNum::Int(1), AutoNum::Int(0), float(1.0)];
    for zero in zeros {
        for dividend in dividends {
            assert_eq!(
                settle_checked(|k| dividend.auto_div(&zero, k)),
                Err(String::from("Division by 0"))
            );
        }
    }
}

#[test]
fn powers_of_numbers() {
    assert_eq!(settle(|k| AutoNum::Int(2).auto_pow(&AutoNum::Int(10), k)), (AutoNum::Int(1024), 0));
    assert_eq!(settle(|k| AutoNum::Int(2).auto_pow(&AutoNum::Int(0), k)), (AutoNum::Int(1), 0));
    assert_eq!(settle(|k| float(2.0).auto_pow(&AutoNum::Int(0), k)), (AutoNum::Int(1), 0));
    assert_eq!(settle(|k| AutoNum::Int(-3).auto_pow(&AutoNum::Int(3), k)), (AutoNum::Int(-27), 0));
    assert_eq!(
        settle(|k| AutoNum::Int(2).auto_pow(&AutoNum::Int(62), k)),
        (AutoNum::Int(1 << 62), 0)
    );
    assert_eq!(settle(|k| AutoNum::Int(2).auto_pow(&AutoNum::Int(-1), k)), (float(0.5), 1));
    assert_eq!(settle(|k| AutoNum::Int(2).auto_pow(&AutoNum::Int(-2), k)), (float(0.25), 1));
    assert_eq!(
        settle(|k| AutoNum::Int(2).auto_pow(&AutoNum::Int(63), k)),
        (float(9223372036854775808.0), 1)
    );
    assert_eq!(
        settle(|k| AutoNum::Int(2).auto_pow(&AutoNum::Int(64), k)),
        (float(18446744073709551616.0), 1)
    );
    assert_eq!(settle(|k| AutoNum::Int(4).auto_pow(&float(0.5), k)), (float(2.0), 1));
    assert_eq!(settle(|k| float(1.5).auto_pow(&AutoNum::Int(2), k)), (float(2.25), 2));
}

#[test]
fn power_by_a_large_exponent_is_one_float_power() {
    let known = Known::new();
    let two = AutoNum::Int(2);
    assert_eq!(
        two.auto_pow(&AutoNum::Int(64), &known),
        Err(call(FloatOp::Pow, two, AutoNum::Int(64)))
    );
    assert_eq!(
        two.auto_pow(&AutoNum::Int(-64), &known),
        Err(call(FloatOp::Pow, two, AutoNum::Int(-64)))
    );
    assert_eq!(
        two.auto_pow(&float(0.5), &known),
        Err(call(FloatOp::Pow, two, float(0.5)))
    );
}

#[test]
fn factorials() {
    assert_eq!(settle_checked(|k| AutoNum::Int(0).auto_factorial(k)), Ok((AutoNum::Int(1), 0)));
    assert_eq!(settle_checked(|k| AutoNum::Int(5).auto_factorial(k)), Ok((AutoNum::Int(120), 0)));
    assert_eq!(
        settle_checked(|k| AutoNum::Int(20).auto_factorial(k)),
        Ok((AutoNum::Int(2432902008176640000), 0))
    );
    assert_eq!(
        settle_checked(|k| AutoNum::Int(21).auto_factorial(k)),
        Ok((float(2432902008176640000.0 * 21.0), 1))
    );
    assert_eq!(
        settle_checked(|k| AutoNum::Int(-1).auto_factorial(k)),
        Err(String::from("Cannot take the factorial of a negative number"))
    );
    assert_eq!(
        settle_checked(|k| float(3.0).auto_factorial(k)),
        Err(String::from("Cannot take the factorial of a floating point value"))
    );
}

#[test]
fn square_roots() {
    assert_eq!(settle_checked(|k| AutoNum::Int(16).auto_root_n(2, k)), Ok((AutoNum::Int(4), 0)));
    assert_eq!(settle_checked(|k| AutoNum::Int(0).auto_root_n(2, k)), Ok((AutoNum::Int(0), 0)));
    assert_eq!(
        settle_checked(|k| AutoNum::Int(9223372030926249001).auto_root_n(2, k)),
        Ok((AutoNum::Int(3037000499), 0))
    );
    assert_eq!(
        settle_checked(|k| AutoNum::Int(15).auto_root_n(2, k)),
        Ok((float(15f64.sqrt()), 1))
    );
    assert_eq!(
        settle_checked(|k| AutoNum::Int(i64::MAX).auto_root_n(2, k)),
        Ok((float((i64::MAX as f64).sqrt()), 1))
    );
    assert_eq!(settle_checked(|k| float(2.25).auto_root_n(2, k)), Ok((float(1.5), 1)));
    assert_eq!(settle_checked(|k| float(-0.0).auto_root_n(2, k)), Ok((float(-0.0), 1)));
    for negative in [AutoNum::Int(-1), float(-0.5), float(f64::NEG_INFINITY)] {
        assert_eq!(
            settle_checked(|k| negative.auto_root_n(2, k)),
            Err(String::from("Cannot take the square root of a negative number"))
        );
    }
}

#[test]
fn other_roots() {
    assert_eq!(settle_checked(|k| AutoNum::Int(27).auto_root_n(3, k)), Ok((float(3.0), 1)));
    assert_eq!(settle_checked(|k| AutoNum::Int(-27).auto_root_n(3, k)), Ok((float(-3.0), 1)));
    assert_eq!(settle_checked(|k| AutoNum::Int(16).auto_root_n(4, k)), Ok((float(2.0), 2)));
    assert_eq!(
        settle_checked(|k| AutoNum::Int(-32).auto_root_n(5, k)),
        Ok((float((-32f64).powf(1.0 / 5.0)), 2))
    );
    assert_eq!(
        settle_checked(|k| AutoNum::Int(-16).auto_root_n(4, k)),
        Err(String::from("Cannot take the 4-root of a negative number"))
    );
    assert_eq!(
        settle_checked(|k| float(-16.0).auto_root_n(-2, k)),
        Err(String::from("Cannot take the -2-root of a negative number"))
    );
    assert_eq!(
        settle_checked(|k| float(-1.0).auto_root_n(0, k)),
        Err(String::from("Cannot take the 0-root of a negative number"))
    );
}

#[test]
fn logarithms() {
    assert_eq!(settle_checked(|k| AutoNum::Int(1).auto_ln(k)), Ok((float(0.0), 1)));
    assert_eq!(settle_checked(|k| AutoNum::Int(1000).auto_log10(k)), Ok((float(1000f64.log10()), 1)));
    for bad in [AutoNum::Int(0), AutoNum::Int(-1), float(0.0), float(-0.0), float(-2.0)] {
        assert_eq!(
            settle_checked(|k| bad.auto_ln(k)),
            Err(String::from("Cannot take the natural log of a non-positive number"))
        );
        assert_eq!(
            settle_checked(|k| bad.auto_log10(k)),
            Err(String::from("Cannot take the base-10 log of a non-positive number"))
        );
    }
}

#[test]
fn positive_only() {
    assert_eq!(
        settle_checked(|k| AutoNum::Int(0).auto_positive_only(FloatOp::Sqrt, true, "no", k)),
        Ok((float(0.0), 1))
    );
    assert_eq!(
        settle_checked(|k| AutoNum::Int(0).auto_positive_only(FloatOp::Sqrt, false, "no", k)),
        Err(String::from("no"))
    );
}

#[test]
fn negation() {
    assert_eq!(settle(|k| AutoNum::Int(5).auto_negate(k)), (AutoNum::Int(-5), 0));
    assert_eq!(settle(|k| AutoNum::Int(0).auto_negate(k)), (AutoNum::Int(0), 0));
    assert_eq!(settle(|k| AutoNum::Int(i64::MAX).auto_negate(k)), (AutoNum::Int(-i64::MAX), 0));
    assert_eq!(
        settle(|k| AutoNum::Int(i64::MIN).auto_negate(k)),
        (float(9223372036854775808.0), 1)
    );
    assert_eq!(settle(|k| float(1.5).auto_negate(k)), (float(-1.5), 0));
    assert_eq!(settle(|k| float(0.0).auto_negate(k)), (float(-0.0), 0));
    assert_eq!(settle(|k| float(f64::INFINITY).auto_negate(k)), (float(f64::NEG_INFINITY), 0));
}

#[test]
fn cast() {
    let known = Known::new();
    assert_eq!(float(1.5).cast(&known), Ok(pack(1.5)));
    assert_eq!(
        AutoNum::Int(3).cast(&known),
        Err(call(FloatOp::Cast, AutoNum::Int(3), AutoNum::Int(0)))
    );
    let mut known = Known::new();
    supply(&mut known, call(FloatOp::Cast, AutoNum::Int(3), AutoNum::Int(0)));
    assert_eq!(AutoNum::Int(3).cast(&known), Ok(pack(3.0)));
    assert_eq!(
        AutoNum::Int(3).cast_then(FloatOp::Sin, &known),
        Err(call(FloatOp::Sin, AutoNum::Int(3), AutoNum::Int(0)))
    );
}

#[test]
fn sign_and_zero() {
    assert!(AutoNum::Int(-1).is_negative());
    assert!(!AutoNum::Int(0).is_negative());
    assert!(float(-1e-300).is_negative());
    assert!(!float(-0.0).is_negative());
    assert!(!float(f64::NAN).is_negative());
    assert!(AutoNum::Int(0).is_zero());
    assert!(float(-0.0).is_zero());
    assert!(!float(f64::NAN).is_zero());
    assert!(!float(5e-324).is_zero());
}

#[test]
fn integer_square_root() {
    for (x, r) in [
        (0u64, 0u64),
        (1, 1),
        (2, 1),
        (3, 1),
        (4, 2),
        (15, 3),
        (16, 4),
        (17, 4),
        (9223372036854775807, 3037000499),
        (18446744073709551615, 4294967295),
        (18446744065119617025, 4294967295),
        (18446744065119617024, 4294967294),
    ] {
        assert_eq!(isqrt(x), r);
    }
}
