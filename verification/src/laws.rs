//! What holds of the library as a whole: of the algebra of dimensions, of
//! the arithmetic of integers, and of writing an integer and reading it
//! back.

use crate::arith::{
    divides, gcd, lemma_divides_quotient, lemma_gcd_scales, lemma_gcd_symmetric,
    lemma_multiple_divides, magnitude,
};
use crate::ast::{waiting, Expr};
use crate::autonum::{exact_quotient, factorial_up_to, fits_i64, AutoNum};
use crate::consts::Definitions;
use crate::error::Fault;
use crate::floats::{FloatOp, Halt, Known, Request};
use crate::grammar;
use crate::grammar::Context;
use crate::lex::{digits_end, end_token, read, Cursor, Lexeme, Mark};
use crate::query::{no_directions, number_text, query_of, wants_scientific, Asked, Directions};
use crate::text::{all_digits, decimal, is_digit, lemma_numeral, numeral};
use crate::units::{
    lemma_common_denominator, lemma_divisor, lemma_reduced, Dimension, Measure, Powers,
};
use vstd::arithmetic::power::pow;
use vstd::prelude::*;

verus! {

/// The magnitude of a positive multiple is that multiple of the magnitude.
proof fn lemma_magnitude_scales(x: int, m: int)
    requires
        m >= 1,
    ensures
        magnitude(x * m) == (m as nat) * magnitude(x),
{
    assert(magnitude(x * m) == (m as nat) * magnitude(x)) by (nonlinear_arith)
        requires
            m >= 1,
    ;
}

/// Multiplying all eight numbers by `m` multiplies their divisor by `m`.
proof fn lemma_divisor_scales(p: Powers, m: int)
    requires
        m >= 1,
    ensures
        p.times(m).divisor() == (m as nat) * p.divisor(),
{
    let k = m as nat;
    let d0 = magnitude(p.denom);
    let d1 = gcd(d0, magnitude(p.mass));
    let d2 = gcd(d1, magnitude(p.length));
    let d3 = gcd(d2, magnitude(p.time));
    let d4 = gcd(d3, magnitude(p.current));
    let d5 = gcd(d4, magnitude(p.temperature));
    let d6 = gcd(d5, magnitude(p.amount));
    lemma_magnitude_scales(p.denom, m);
    lemma_magnitude_scales(p.mass, m);
    lemma_magnitude_scales(p.length, m);
    lemma_magnitude_scales(p.time, m);
    lemma_magnitude_scales(p.current, m);
    lemma_magnitude_scales(p.temperature, m);
    lemma_magnitude_scales(p.amount, m);
    lemma_magnitude_scales(p.luminosity, m);
    lemma_gcd_scales(d0, magnitude(p.mass), k);
    lemma_gcd_scales(d1, magnitude(p.length), k);
    lemma_gcd_scales(d2, magnitude(p.time), k);
    lemma_gcd_scales(d3, magnitude(p.current), k);
    lemma_gcd_scales(d4, magnitude(p.temperature), k);
    lemma_gcd_scales(d5, magnitude(p.amount), k);
    lemma_gcd_scales(d6, magnitude(p.luminosity), k);
}

/// `(x * m) / (m * g)` is `x / g` where `g` divides `x`.
proof fn lemma_cancel(x: int, m: int, g: int)
    requires
        m >= 1,
        divides(g, x),
    ensures
        (x * m) / (m * g) == x / g,
{
    lemma_divides_quotient(g, x);
    let q = x / g;
    assert(m * g >= 1 && x * m == (m * g) * q) by (nonlinear_arith)
        requires
            m >= 1,
            g >= 1,
            x == g * q,
    ;
    lemma_multiple_divides(m * g, q);
}

/// Exponents that differ by a common positive factor have the same reduced
/// form.
pub proof fn lemma_reduced_of_multiple(p: Powers, m: int)
    requires
        p.denom >= 1,
        m >= 1,
    ensures
        p.times(m).reduced() == p.reduced(),
{
    lemma_divisor(p);
    lemma_divisor_scales(p, m);
    let g = p.divisor() as int;
    assert(p.times(m).divisor() as int == m * g);
    lemma_cancel(p.mass, m, g);
    lemma_cancel(p.length, m, g);
    lemma_cancel(p.time, m, g);
    lemma_cancel(p.current, m, g);
    lemma_cancel(p.temperature, m, g);
    lemma_cancel(p.amount, m, g);
    lemma_cancel(p.luminosity, m, g);
    lemma_cancel(p.denom, m, g);
}

/// The dimension of a product does not depend on the order of the factors:
/// either both orders overflow, or both give the same dimension.
pub proof fn law_product_commutes(a: Powers, b: Powers)
    requires
        a.denom >= 1,
        b.denom >= 1,
    ensures
        a.combined(b, false) == b.combined(a, false),
{
    lemma_gcd_symmetric(magnitude(a.denom), magnitude(b.denom));
    lemma_common_denominator(a.denom, b.denom);
}

/// Taking the `n`-th root of the `n`-th power of a dimension gives the
/// dimension back, whenever neither step overflows. For the square and the
/// square root, `n` is 2.
pub proof fn law_root_of_power(p: Powers, n: int)
    requires
        p.lowest_terms(),
        n >= 1,
        p.raised(n) is Some,
        p.raised(n).unwrap().rooted(n) is Some,
    ensures
        p.raised(n).unwrap().rooted(n) == Some(p),
{
    let powered = p.numerators_times(n);
    let q = powered.reduced();
    lemma_reduced(powered);
    let g = powered.divisor() as int;
    lemma_divisor(powered);
    let spread = q.denom_times(n);
    let both = p.times(n);
    assert(spread.times(g) == both) by {
        assert(q.times(g) == powered);
        assert((q.denom * n) * g == (q.denom * g) * n) by (nonlinear_arith);
    }
    assert(spread.denom >= 1) by (nonlinear_arith)
        requires
            spread.denom == q.denom * n,
            q.denom >= 1,
            n >= 1,
    ;
    lemma_reduced_of_multiple(spread, g);
    lemma_reduced_of_multiple(p, n);
    crate::units::lemma_lowest_terms_reduced(p);
}

/// The square root of the square of a dimension is the dimension, whenever
/// neither step overflows.
pub proof fn law_root_of_square(p: Powers)
    requires
        p.lowest_terms(),
        p.raised(2) is Some,
        p.raised(2).unwrap().rooted(2) is Some,
    ensures
        p.raised(2).unwrap().rooted(2) == Some(p),
{
    law_root_of_power(p, 2);
}


/// The product of two integers is the integer product, whenever that fits
/// in 64 signed bits, whatever floating-point results are known; where it
/// does not fit, the product is the floating-point product of the two.
pub proof fn law_integer_product(a: i64, b: i64, known: Known)
    ensures
        fits_i64(a * b) ==> AutoNum::Int(a).product(AutoNum::Int(b), known) == Ok::<
            AutoNum,
            Request,
        >(AutoNum::Int((a * b) as i64)),
        !fits_i64(a * b) ==> AutoNum::Int(a).product(AutoNum::Int(b), known) == known.float(
            FloatOp::Mul,
            AutoNum::Int(a),
            AutoNum::Int(b),
        ),
{
}

/// The quotient of two integers is the integer quotient, whenever the
/// division leaves no remainder and the quotient fits in 64 signed bits;
/// a divisor that is zero gives an error; where the magnitude of the
/// divisor does not divide that of the dividend, the quotient is the
/// floating-point quotient of the two.
pub proof fn law_integer_quotient(a: i64, b: i64, q: int, known: Known)
    ensures
        b == 0 ==> AutoNum::Int(a).quotient(AutoNum::Int(b), known) is Err,
        b != 0 && a == q * b && fits_i64(q) ==> AutoNum::Int(a).quotient(AutoNum::Int(b), known)
            == Ok::<AutoNum, Halt<Seq<char>>>(AutoNum::Int(q as i64)),
        b != 0 && magnitude(a as int) % magnitude(b as int) != 0 ==> AutoNum::Int(a).quotient(
            AutoNum::Int(b),
            known,
        ) == waiting(known.float(FloatOp::Div, AutoNum::Int(a), AutoNum::Int(b))),
{
    if b != 0 {
        let x = magnitude(a as int) as int;
        let y = magnitude(b as int) as int;
        if a == q * b {
            let m = magnitude(q) as int;
            assert(x == y * m) by (nonlinear_arith)
                requires
                    a == q * b,
                    x == (if a < 0 {
                        -a
                    } else {
                        a as int
                    }),
                    y == (if b < 0 {
                        -b
                    } else {
                        b as int
                    }),
                    m == (if q < 0 {
                        -q
                    } else {
                        q
                    }),
            ;
            lemma_multiple_divides(y, m);
            assert(exact_quotient(a as int, b as int) == q) by (nonlinear_arith)
                requires
                    a == q * b,
                    b != 0,
                    x / y == m,
                    m == (if q < 0 {
                        -q
                    } else {
                        q
                    }),
                    exact_quotient(a as int, b as int) == (if (a < 0) == (b < 0) {
                        x / y
                    } else {
                        -(x / y)
                    }),
            ;
        }
        if x % y == 0 {
            crate::autonum::lemma_exact_quotient(a as int, b as int);
        }
    }
}

/// Whatever is divided by an integer or a floating-point number that is
/// zero, the division is an error, whatever floating-point results are
/// known.
pub proof fn law_division_by_zero(a: AutoNum, b: AutoNum, known: Known)
    requires
        b.zero(),
    ensures
        a.quotient(b, known) == Err::<AutoNum, Halt<Seq<char>>>(
            Halt::Failed(crate::autonum::division_message()),
        ),
{
}

/// A text that holds digits from `pos` to its end has its run of digits
/// end there.
proof fn lemma_digits_to_end(s: Seq<char>, pos: int)
    requires
        0 <= pos <= s.len(),
        all_digits(s.subrange(pos, s.len() as int)),
    ensures
        digits_end(s, pos) == s.len(),
    decreases s.len() - pos,
{
    if pos < s.len() {
        assert(s[pos] == s.subrange(pos, s.len() as int)[0]);
        assert forall|i: int| 0 <= i < s.len() - (pos + 1) implies is_digit(
            #[trigger] s.subrange(pos + 1, s.len() as int)[i],
        ) by {
            assert(s.subrange(pos + 1, s.len() as int)[i] == s.subrange(pos, s.len() as int)[i
                + 1]);
        }
        lemma_digits_to_end(s, pos + 1);
    }
}

/// A numeral at the end of a text is read as the integer that it stands
/// for, and after it comes the end of the text.
proof fn lemma_read_numeral(s: Seq<char>, pos: int, m: nat, last_end: nat, known: Known)
    requires
        0 <= pos < s.len(),
        s.subrange(pos, s.len() as int) == numeral(m),
        m <= i64::MAX,
    ensures
        read(s, Cursor { pos, last_end }, known) == (
            Ok::<Lexeme, Halt<Fault>>(
                Lexeme {
                    mark: Mark::Int(m as i64),
                    start: pos as nat,
                    end: s.len(),
                    text: numeral(m),
                },
            ),
            Cursor { pos: s.len() as int, last_end: s.len() },
        ),
        read(s, Cursor { pos: s.len() as int, last_end: s.len() }, known) == (
            Ok::<Lexeme, Halt<Fault>>(end_token(s.len())),
            Cursor { pos: s.len() as int, last_end: s.len() },
        ),
{
    lemma_numeral(m);
    lemma_digits_to_end(s, pos);
    assert(s[pos] == numeral(m)[0]);
    assert(is_digit(s[pos]));
}

/// A token that is an integer, with the end of the text after it, is an
/// operand with nothing after it.
proof fn lemma_integer_operand(ctx: Context, cursor: Cursor, token: Lexeme, m: i64)
    requires
        grammar::within(ctx.text, cursor),
        token.mark == Mark::Int(m),
        read(ctx.text, cursor, ctx.known) == (
            Ok::<Lexeme, Halt<Fault>>(token),
            Cursor { pos: ctx.text.len() as int, last_end: ctx.text.len() },
        ),
        read(
            ctx.text,
            Cursor { pos: ctx.text.len() as int, last_end: ctx.text.len() },
            ctx.known,
        ) == (
            Ok::<Lexeme, Halt<Fault>>(end_token(ctx.text.len())),
            Cursor { pos: ctx.text.len() as int, last_end: ctx.text.len() },
        ),
    ensures
        grammar::prefixed(ctx, cursor, true) == Ok::<(Expr, Cursor), Halt<Fault>>(
            (
                grammar::literal(AutoNum::Int(m)),
                Cursor { pos: ctx.text.len() as int, last_end: ctx.text.len() },
            ),
        ),
{
    let done = Cursor { pos: ctx.text.len() as int, last_end: ctx.text.len() };
    let operand = grammar::literal(AutoNum::Int(m));
    assert(grammar::atom(ctx, cursor) == Ok::<(Expr, Cursor), Halt<Fault>>((operand, done)));
    assert(grammar::postfix_from(ctx, done, operand, true) == Ok::<(Expr, Cursor), Halt<Fault>>(
        (operand, done),
    ));
    assert(grammar::postfixed(ctx, cursor, true) == Ok::<(Expr, Cursor), Halt<Fault>>(
        (operand, done),
    ));
}

/// An operand that reaches the end of a text which does not start with
/// `:` is the whole query.
proof fn lemma_whole_query(ctx: Context, first: Lexeme, after: Cursor, expr: Expr)
    requires
        read(ctx.text, Cursor { pos: 0, last_end: 0 }, ctx.known) == (
            Ok::<Lexeme, Halt<Fault>>(first),
            after,
        ),
        first.mark != Mark::Sym(':'),
        grammar::prefixed(ctx, Cursor { pos: 0, last_end: 0 }, true) == Ok::<
            (Expr, Cursor),
            Halt<Fault>,
        >((expr, Cursor { pos: ctx.text.len() as int, last_end: ctx.text.len() })),
        read(
            ctx.text,
            Cursor { pos: ctx.text.len() as int, last_end: ctx.text.len() },
            ctx.known,
        ) == (
            Ok::<Lexeme, Halt<Fault>>(end_token(ctx.text.len())),
            Cursor { pos: ctx.text.len() as int, last_end: ctx.text.len() },
        ),
    ensures
        query_of(ctx) == Ok::<Asked, Halt<Fault>>(Asked { expr, directions: no_directions() }),
{
    let start = Cursor { pos: 0, last_end: 0 };
    let done = Cursor { pos: ctx.text.len() as int, last_end: ctx.text.len() };
    assert(grammar::climb_from(ctx, done, expr, 0) == Ok::<(Expr, Cursor), Halt<Fault>>(
        (expr, done),
    ));
    assert(grammar::climb(ctx, start, 0) == Ok::<(Expr, Cursor), Halt<Fault>>((expr, done)));
    assert(grammar::expression(ctx, start) == Ok::<(Expr, Cursor), Halt<Fault>>((expr, done)));
    assert(crate::query::directions_from(ctx, done, no_directions()) == Ok::<
        Directions,
        Halt<Fault>,
    >(no_directions()));
}

/// The decimal text of an integer reads back as the integer: the text of
/// an integer other than the least one of 64 bits is a query without
/// directions, and the value of its expression is the integer, without
/// units.
pub proof fn law_integer_round_trip(n: i64, defs: Definitions, known: Known)
    requires
        n != i64::MIN,
    ensures
        query_of(Context { text: decimal(n as int), defs, known }) matches Ok(asked)
            && asked.directions == no_directions() && asked.expr.value(known) == Ok::<
            Measure,
            Halt<Seq<char>>,
        >(Measure { value: AutoNum::Int(n), powers: Powers::none() }),
{
    let text = decimal(n as int);
    let ctx = Context { text, defs, known };
    let start = Cursor { pos: 0, last_end: 0 };
    let done = Cursor { pos: text.len() as int, last_end: text.len() };
    Dimension::lemma_powers_kept(Powers::none());
    if n >= 0 {
        lemma_numeral(n as nat);
        assert(text.subrange(0, text.len() as int) =~= numeral(n as nat));
        lemma_read_numeral(text, 0, n as nat, 0, known);
        let token = Lexeme {
            mark: Mark::Int(n),
            start: 0,
            end: text.len(),
            text: numeral(n as nat),
        };
        lemma_integer_operand(ctx, start, token, n);
        lemma_whole_query(ctx, token, done, grammar::literal(AutoNum::Int(n)));
        lemma_literal_value(AutoNum::Int(n), known);
    } else {
        let m = (-n) as nat;
        lemma_numeral(m);
        assert(text.subrange(1, text.len() as int) =~= numeral(m));
        assert(text[0] == '-');
        let after_sign = Cursor { pos: 1, last_end: 1 };
        let sign = Lexeme { mark: Mark::Sym('-'), start: 0, end: 1, text: text.subrange(0, 1) };
        assert(read(text, start, known) == (Ok::<Lexeme, Halt<Fault>>(sign), after_sign));
        lemma_read_numeral(text, 1, m, 1, known);
        let token = Lexeme {
            mark: Mark::Int(m as i64),
            start: 1,
            end: text.len(),
            text: numeral(m),
        };
        lemma_integer_operand(ctx, after_sign, token, m as i64);
        let operand = grammar::literal(AutoNum::Int(m as i64));
        let negated = grammar::unary(crate::operator::UnaryOp::Negative, operand);
        assert(grammar::prefixed(ctx, start, true) == Ok::<(Expr, Cursor), Halt<Fault>>(
            (negated, done),
        ));
        lemma_whole_query(ctx, sign, after_sign, negated);
        lemma_literal_value(AutoNum::Int(m as i64), known);
        assert(negated.value(known) == crate::ast::apply_unary(
            crate::operator::UnaryOp::Negative,
            Measure { value: AutoNum::Int(m as i64), powers: Powers::none() },
            known,
        )) by {
            reveal_with_fuel(Expr::value, 2);
            reveal_with_fuel(crate::ast::Unary::value, 2);
        }
    }
}

/// The value of a literal is the number, without units.
proof fn lemma_literal_value(value: AutoNum, known: Known)
    ensures
        grammar::literal(value).value(known) == Ok::<Measure, Halt<Seq<char>>>(
            Measure { value, powers: Powers::none() },
        ),
{
    Dimension::lemma_powers_kept(Powers::none());
}

/// An integer that is not to be written with an exponent is written as
/// its decimal text.
pub proof fn law_integer_text(n: i64, d: Directions, known: Known)
    requires
        AutoNum::Int(n).as_float(known) matches Ok(x) && !wants_scientific(d, x).0,
    ensures
        number_text(d, AutoNum::Int(n), known) == Ok::<Seq<char>, Request>(decimal(n as int)),
{
}


/// The magnitudes of the powers of an integer other than zero do not
/// fall as the exponent grows: they stay 1 for 1 and -1, and at least
/// double with each step for every other integer.
proof fn lemma_powers_grow(a: int, j: nat, k: nat)
    requires
        a != 0,
        j <= k,
    ensures
        magnitude(pow(a, j)) <= magnitude(pow(a, k)),
        magnitude(a) == 1 ==> magnitude(pow(a, j)) == 1,
        j < k && magnitude(a) >= 2 ==> 2 * magnitude(pow(a, j)) <= magnitude(pow(a, k)),
    decreases k - j,
{
    reveal_with_fuel(pow, 2);
    if j < k {
        lemma_powers_grow(a, j + 1, k);
        let p = pow(a, j);
        assert(pow(a, j + 1) == a * p);
        assert(magnitude(a * p) == magnitude(a) * magnitude(p)) by (nonlinear_arith);
        assert(magnitude(a) * magnitude(p) >= magnitude(p)) by (nonlinear_arith)
            requires
                magnitude(a) >= 1,
        ;
        assert(magnitude(a) >= 2 ==> magnitude(a) * magnitude(p) >= 2 * magnitude(p))
            by (nonlinear_arith);
    }
    if magnitude(a) == 1 {
        lemma_power_of_unit(a, j);
    }
}

/// The powers of 1 and of -1 have the magnitude 1.
proof fn lemma_power_of_unit(a: int, j: nat)
    requires
        magnitude(a) == 1,
    ensures
        magnitude(pow(a, j)) == 1,
    decreases j,
{
    reveal_with_fuel(pow, 2);
    if j > 0 {
        lemma_power_of_unit(a, (j - 1) as nat);
        let p = pow(a, (j - 1) as nat);
        assert(magnitude(a * p) == magnitude(a) * magnitude(p)) by (nonlinear_arith);
    }
}

/// A power of an integer with an exponent from 0 to 63 is the integer
/// power, whenever that fits in 64 signed bits, whatever floating-point
/// results are known.
pub proof fn law_integer_power(a: i64, n: i64, known: Known)
    requires
        0 <= n < 64,
        fits_i64(pow(a as int, n as nat)),
    ensures
        AutoNum::Int(a).power(AutoNum::Int(n), known) == Ok::<AutoNum, Request>(
            AutoNum::Int(pow(a as int, n as nat) as i64),
        ),
{
    lemma_repeated_exact(a, n as nat, n as nat, known);
}

/// The product of `j` factors `a` is the integer power, where the `k`-th
/// power fits and `j` is at most `k`.
proof fn lemma_repeated_exact(a: i64, j: nat, k: nat, known: Known)
    requires
        j <= k,
        fits_i64(pow(a as int, k)),
    ensures
        fits_i64(pow(a as int, j)),
        AutoNum::Int(a).repeated(j, known) == Ok::<AutoNum, Request>(
            AutoNum::Int(pow(a as int, j) as i64),
        ),
    decreases j,
{
    reveal_with_fuel(pow, 2);
    if a != 0 {
        lemma_powers_grow(a as int, j, k);
    } else if j > 0 {
        assert(pow(0, j) == 0 * pow(0, (j - 1) as nat));
    }
    assert(fits_i64(pow(a as int, j)));
    if j > 0 {
        lemma_repeated_exact(a, (j - 1) as nat, k, known);
        let p = pow(a as int, (j - 1) as nat);
        assert(p * a == a * p) by (nonlinear_arith);
        assert(pow(a as int, j) == a * p);
    }
}

/// The product of the integers from 1 to `n`.
pub open spec fn factorial_of(n: nat) -> nat
    decreases n,
{
    if n == 0 {
        1
    } else {
        n * factorial_of((n - 1) as nat)
    }
}

/// A factorial is at least 1.
proof fn lemma_factorial_positive(n: nat)
    ensures
        factorial_of(n) >= 1,
    decreases n,
{
    if n > 0 {
        lemma_factorial_positive((n - 1) as nat);
        let f = factorial_of((n - 1) as nat);
        assert(n * f >= 1) by (nonlinear_arith)
            requires
                f >= 1,
                n >= 1,
        ;
    }
}

/// Factorials do not fall as the number grows, and that of 20 fits in 64
/// signed bits.
proof fn lemma_factorials(j: nat, k: nat)
    requires
        j <= k,
    ensures
        1 <= factorial_of(j) <= factorial_of(k),
        factorial_of(20) == 2432902008176640000,
    decreases k - j,
{
    lemma_factorial_positive(j);
    if j < k {
        lemma_factorials(j + 1, k);
        let f = factorial_of(j);
        assert((j + 1) * f >= f) by (nonlinear_arith)
            requires
                f >= 1,
        ;
    }
    lemma_factorial_of_20();
}

/// The factorial of 20.
proof fn lemma_factorial_of_20()
    ensures
        factorial_of(20) == 2432902008176640000,
{
    assert(factorial_of(0) == 1);
    assert(factorial_of(1) == 1);
    assert(factorial_of(2) == 2);
    assert(factorial_of(3) == 6);
    assert(factorial_of(4) == 24);
    assert(factorial_of(5) == 120);
    assert(factorial_of(6) == 720);
    assert(factorial_of(7) == 5040);
    assert(factorial_of(8) == 40320);
    assert(factorial_of(9) == 362880);
    assert(factorial_of(10) == 3628800);
    assert(factorial_of(11) == 39916800);
    assert(factorial_of(12) == 479001600);
    assert(factorial_of(13) == 6227020800);
    assert(factorial_of(14) == 87178291200);
    assert(factorial_of(15) == 1307674368000);
    assert(factorial_of(16) == 20922789888000);
    assert(factorial_of(17) == 355687428096000);
    assert(factorial_of(18) == 6402373705728000);
    assert(factorial_of(19) == 121645100408832000);
    assert(factorial_of(20) == 2432902008176640000);
}

/// The factorial of an integer from 0 to 20 is the integer factorial,
/// whatever floating-point results are known.
pub proof fn law_integer_factorial(n: i64, known: Known)
    requires
        0 <= n <= 20,
    ensures
        AutoNum::Int(n).factorial(known) == Ok::<AutoNum, Halt<Seq<char>>>(
            AutoNum::Int(factorial_of(n as nat) as i64),
        ),
{
    lemma_factorial_exact(n as nat, known);
}

proof fn lemma_factorial_exact(n: nat, known: Known)
    requires
        n <= 20,
    ensures
        factorial_of(n) <= i64::MAX,
        factorial_up_to(n, known) == Ok::<AutoNum, Request>(
            AutoNum::Int(factorial_of(n) as i64),
        ),
    decreases n,
{
    lemma_factorials(n, 20);
    if n > 0 {
        lemma_factorial_exact((n - 1) as nat, known);
        let f = factorial_of((n - 1) as nat);
        assert(f * n == n * f) by (nonlinear_arith);
    }
}

} // verus!
