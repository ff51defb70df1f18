//! Physical dimensions with rational exponents, and quantities that carry
//! them.

use crate::arith::{
    divides, gcd, gcd_u8, lemma_divides_quotient, lemma_gcd_divides, lemma_gcd_greatest,
    lemma_multiple_divides, magnitude,
};
use crate::ast::{or_await, waiting, EvalError};
use crate::autonum::AutoNum;
use crate::binary64::{Binary64, LARGE_BITS};
use crate::floats::{FloatOp, FormatCall, FormatStyle, Halt, Known, Request};
use crate::operator::ScalarFn;
use crate::text::{decimal, push_decimal};
use vstd::arithmetic::div_mod::lemma_div_basics_2;
use vstd::prelude::*;
use vstd::string::*;

verus! {

/// The exponents of the seven base quantities over one shared denominator:
/// the exponent of mass is `mass / denom`, and so on.
pub struct Powers {
    pub mass: int,
    pub length: int,
    pub time: int,
    pub current: int,
    pub temperature: int,
    pub amount: int,
    pub luminosity: int,
    pub denom: int,
}

/// Whether `x` can be held in eight signed bits.
pub open spec fn fits_i8(x: int) -> bool {
    -128 <= x <= 127
}

impl Powers {
    /// The greatest common divisor of the denominator and the seven
    /// numerators.
    pub open spec fn divisor(self) -> nat {
        gcd(
            gcd(
                gcd(
                    gcd(
                        gcd(
                            gcd(
                                gcd(magnitude(self.denom), magnitude(self.mass)),
                                magnitude(self.length),
                            ),
                            magnitude(self.time),
                        ),
                        magnitude(self.current),
                    ),
                    magnitude(self.temperature),
                ),
                magnitude(self.amount),
            ),
            magnitude(self.luminosity),
        )
    }

    /// `k` divides the denominator and every numerator.
    pub open spec fn shares(self, k: int) -> bool {
        &&& divides(k, self.denom)
        &&& divides(k, self.mass)
        &&& divides(k, self.length)
        &&& divides(k, self.time)
        &&& divides(k, self.current)
        &&& divides(k, self.temperature)
        &&& divides(k, self.amount)
        &&& divides(k, self.luminosity)
    }

    /// The denominator and every numerator divided by `k`.
    pub open spec fn over(self, k: int) -> Powers {
        Powers {
            mass: self.mass / k,
            length: self.length / k,
            time: self.time / k,
            current: self.current / k,
            temperature: self.temperature / k,
            amount: self.amount / k,
            luminosity: self.luminosity / k,
            denom: self.denom / k,
        }
    }

    /// The denominator and every numerator multiplied by `k`.
    pub open spec fn times(self, k: int) -> Powers {
        Powers {
            mass: self.mass * k,
            length: self.length * k,
            time: self.time * k,
            current: self.current * k,
            temperature: self.temperature * k,
            amount: self.amount * k,
            luminosity: self.luminosity * k,
            denom: self.denom * k,
        }
    }

    /// The same exponents in lowest terms.
    pub open spec fn reduced(self) -> Powers {
        self.over(self.divisor() as int)
    }

    /// A positive denominator that has no divisor in common with all seven
    /// numerators.
    pub open spec fn lowest_terms(self) -> bool {
        self.denom >= 1 && self.divisor() == 1
    }

    /// Every number can be held in eight signed bits.
    pub open spec fn fits(self) -> bool {
        &&& fits_i8(self.mass)
        &&& fits_i8(self.length)
        &&& fits_i8(self.time)
        &&& fits_i8(self.current)
        &&& fits_i8(self.temperature)
        &&& fits_i8(self.amount)
        &&& fits_i8(self.luminosity)
        &&& fits_i8(self.denom)
    }

    /// All seven exponents are zero.
    pub open spec fn unitless(self) -> bool {
        &&& self.mass == 0
        &&& self.length == 0
        &&& self.time == 0
        &&& self.current == 0
        &&& self.temperature == 0
        &&& self.amount == 0
        &&& self.luminosity == 0
    }

    /// The numerators scaled by `k`, over the same denominator.
    pub open spec fn numerators_times(self, k: int) -> Powers {
        Powers {
            mass: self.mass * k,
            length: self.length * k,
            time: self.time * k,
            current: self.current * k,
            temperature: self.temperature * k,
            amount: self.amount * k,
            luminosity: self.luminosity * k,
            denom: self.denom,
        }
    }

    /// The same numerators over `k` times the denominator.
    pub open spec fn denom_times(self, k: int) -> Powers {
        Powers { denom: self.denom * k, ..self }
    }

    /// The numerators of `self` plus (or, with `divide`, minus) those of
    /// `other`, over the denominator of `self`.
    pub open spec fn merged(self, other: Powers, divide: bool) -> Powers {
        if divide {
            Powers {
                mass: self.mass - other.mass,
                length: self.length - other.length,
                time: self.time - other.time,
                current: self.current - other.current,
                temperature: self.temperature - other.temperature,
                amount: self.amount - other.amount,
                luminosity: self.luminosity - other.luminosity,
                denom: self.denom,
            }
        } else {
            Powers {
                mass: self.mass + other.mass,
                length: self.length + other.length,
                time: self.time + other.time,
                current: self.current + other.current,
                temperature: self.temperature + other.temperature,
                amount: self.amount + other.amount,
                luminosity: self.luminosity + other.luminosity,
                denom: self.denom,
            }
        }
    }

    /// The dimension of a product (or, with `divide`, of a quotient): both
    /// operands are brought to the least common denominator, the numerators
    /// are added (or subtracted), and the result is reduced. `None` when a
    /// scaled numerator, a sum or the common denominator cannot be held in
    /// eight signed bits.
    pub open spec fn combined(self, other: Powers, divide: bool) -> Option<Powers> {
        let g = gcd(magnitude(self.denom), magnitude(other.denom)) as int;
        let left = self.times(other.denom / g);
        let right = other.times(self.denom / g);
        let sum = left.merged(right, divide);
        if left.fits() && right.fits() && sum.fits() {
            Some(sum.reduced())
        } else {
            None
        }
    }

    /// The dimension of an `n`-th power: every numerator times `n`, reduced.
    /// `None` when a product cannot be held in eight signed bits.
    pub open spec fn raised(self, n: int) -> Option<Powers> {
        let product = self.numerators_times(n);
        if product.fits() {
            Some(product.reduced())
        } else {
            None
        }
    }

    /// The dimension of an `n`-th root: the denominator times `n`, reduced.
    /// `None` when `n` is not positive or the product cannot be held in
    /// eight signed bits.
    pub open spec fn rooted(self, n: int) -> Option<Powers> {
        let product = self.denom_times(n);
        if n >= 1 && product.fits() {
            Some(product.reduced())
        } else {
            None
        }
    }
}

/// How one base quantity is written: nothing for a zero exponent, the bare
/// symbol for the exponent 1, `symbol^n` for another whole exponent, and
/// `symbol^n/d` for the fraction `n/d` in lowest terms.
pub open spec fn term(symbol: Seq<char>, numerator: int, denom: int) -> Seq<char> {
    let g = gcd(magnitude(numerator), magnitude(denom)) as int;
    let n = numerator / g;
    let d = denom / g;
    if numerator == 0 {
        Seq::empty()
    } else if n == 1 && d == 1 {
        symbol
    } else if d == 1 {
        symbol + seq!['^'] + decimal(n)
    } else {
        symbol + seq!['^'] + decimal(n) + seq!['/'] + decimal(d)
    }
}

/// Two texts with a space between them, where neither is empty.
pub open spec fn spaced(a: Seq<char>, b: Seq<char>) -> Seq<char> {
    if a.len() == 0 {
        b
    } else if b.len() == 0 {
        a
    } else {
        a + seq![' '] + b
    }
}

impl Powers {
    /// The dimension written in the symbols of the base units, in the order
    /// kg, m, s, A, K, mol, cd, with single spaces between the terms.
    pub open spec fn text(self) -> Seq<char> {
        spaced(
            spaced(
                spaced(
                    spaced(
                        spaced(
                            spaced(
                                term("kg"@, self.mass, self.denom),
                                term("m"@, self.length, self.denom),
                            ),
                            term("s"@, self.time, self.denom),
                        ),
                        term("A"@, self.current, self.denom),
                    ),
                    term("K"@, self.temperature, self.denom),
                ),
                term("mol"@, self.amount, self.denom),
            ),
            term("cd"@, self.luminosity, self.denom),
        )
    }
}

/// The divisor of valid exponents is positive, divides all eight numbers,
/// and is divisible by whatever else divides all eight.
pub proof fn lemma_divisor(p: Powers)
    requires
        p.denom >= 1,
    ensures
        1 <= p.divisor() <= p.denom,
        p.shares(p.divisor() as int),
        forall|k: int| p.shares(k) ==> divides(k, p.divisor() as int),
{
    let d0 = magnitude(p.denom);
    let d1 = gcd(d0, magnitude(p.mass));
    let d2 = gcd(d1, magnitude(p.length));
    let d3 = gcd(d2, magnitude(p.time));
    let d4 = gcd(d3, magnitude(p.current));
    let d5 = gcd(d4, magnitude(p.temperature));
    let d6 = gcd(d5, magnitude(p.amount));
    let d7 = gcd(d6, magnitude(p.luminosity));
    lemma_gcd_divides(d0, magnitude(p.mass));
    lemma_gcd_divides(d1, magnitude(p.length));
    lemma_gcd_divides(d2, magnitude(p.time));
    lemma_gcd_divides(d3, magnitude(p.current));
    lemma_gcd_divides(d4, magnitude(p.temperature));
    lemma_gcd_divides(d5, magnitude(p.amount));
    lemma_gcd_divides(d6, magnitude(p.luminosity));
    let g = d7 as int;
    crate::arith::lemma_divides_transitive(g, d6 as int, d5 as int);
    crate::arith::lemma_divides_transitive(g, d5 as int, d4 as int);
    crate::arith::lemma_divides_transitive(g, d4 as int, d3 as int);
    crate::arith::lemma_divides_transitive(g, d3 as int, d2 as int);
    crate::arith::lemma_divides_transitive(g, d2 as int, d1 as int);
    crate::arith::lemma_divides_transitive(g, d1 as int, d0 as int);
    crate::arith::lemma_divides_transitive(g, d6 as int, magnitude(p.amount) as int);
    crate::arith::lemma_divides_transitive(g, d5 as int, magnitude(p.temperature) as int);
    crate::arith::lemma_divides_transitive(g, d4 as int, magnitude(p.current) as int);
    crate::arith::lemma_divides_transitive(g, d3 as int, magnitude(p.time) as int);
    crate::arith::lemma_divides_transitive(g, d2 as int, magnitude(p.length) as int);
    crate::arith::lemma_divides_transitive(g, d1 as int, magnitude(p.mass) as int);
    lemma_divides_magnitude(g, p.mass);
    lemma_divides_magnitude(g, p.length);
    lemma_divides_magnitude(g, p.time);
    lemma_divides_magnitude(g, p.current);
    lemma_divides_magnitude(g, p.temperature);
    lemma_divides_magnitude(g, p.amount);
    lemma_divides_magnitude(g, p.luminosity);
    crate::arith::lemma_divisor_at_most(g, p.denom);
    assert forall|k: int| p.shares(k) implies divides(k, p.divisor() as int) by {
        lemma_divides_magnitude(k, p.mass);
        lemma_divides_magnitude(k, p.length);
        lemma_divides_magnitude(k, p.time);
        lemma_divides_magnitude(k, p.current);
        lemma_divides_magnitude(k, p.temperature);
        lemma_divides_magnitude(k, p.amount);
        lemma_divides_magnitude(k, p.luminosity);
        lemma_gcd_greatest(d0, magnitude(p.mass), k);
        lemma_gcd_greatest(d1, magnitude(p.length), k);
        lemma_gcd_greatest(d2, magnitude(p.time), k);
        lemma_gcd_greatest(d3, magnitude(p.current), k);
        lemma_gcd_greatest(d4, magnitude(p.temperature), k);
        lemma_gcd_greatest(d5, magnitude(p.amount), k);
        lemma_gcd_greatest(d6, magnitude(p.luminosity), k);
    }
}

/// A number and its magnitude have the same divisors.
pub proof fn lemma_divides_magnitude(k: int, x: int)
    requires
        k > 0,
    ensures
        divides(k, x) <==> divides(k, magnitude(x) as int),
{
    if x < 0 {
        if divides(k, x) {
            crate::arith::lemma_divides_product(k, x, -1);
            assert(x * -1 == -x);
        }
        if divides(k, -x) {
            crate::arith::lemma_divides_product(k, -x, -1);
            assert((-x) * -1 == x);
        }
    }
}


/// Reducing valid exponents gives exponents in lowest terms, each of them
/// the given number divided by the divisor without remainder.
pub proof fn lemma_reduced(p: Powers)
    requires
        p.denom >= 1,
    ensures
        p.reduced().lowest_terms(),
        p.reduced().times(p.divisor() as int) == p,
        p.fits() ==> p.reduced().fits(),
{
    lemma_divisor(p);
    let g = p.divisor() as int;
    let q = p.reduced();
    lemma_divides_quotient(g, p.denom);
    lemma_divides_quotient(g, p.mass);
    lemma_divides_quotient(g, p.length);
    lemma_divides_quotient(g, p.time);
    lemma_divides_quotient(g, p.current);
    lemma_divides_quotient(g, p.temperature);
    lemma_divides_quotient(g, p.amount);
    lemma_divides_quotient(g, p.luminosity);
    lemma_times_commutes(q, g);
    assert(q.denom >= 1) by (nonlinear_arith)
        requires
            p.denom == g * q.denom,
            g >= 1,
            p.denom >= 1,
    ;
    lemma_quotient_no_larger(p.mass, g);
    lemma_quotient_no_larger(p.length, g);
    lemma_quotient_no_larger(p.time, g);
    lemma_quotient_no_larger(p.current, g);
    lemma_quotient_no_larger(p.temperature, g);
    lemma_quotient_no_larger(p.amount, g);
    lemma_quotient_no_larger(p.luminosity, g);
    lemma_quotient_no_larger(p.denom, g);
    lemma_divisor(q);
    let h = q.divisor() as int;
    lemma_scaled_shares(q, h, g);
    assert(h == 1) by {
        lemma_divides_quotient(g * h, g);
        let m = g / (g * h);
        assert(h == 1) by (nonlinear_arith)
            requires
                g == (g * h) * m,
                g >= 1,
                h >= 1,
        ;
    }
}

/// `times` does not depend on the order of the factors.
proof fn lemma_times_commutes(q: Powers, g: int)
    ensures
        q.times(g) == (Powers {
            mass: g * q.mass,
            length: g * q.length,
            time: g * q.time,
            current: g * q.current,
            temperature: g * q.temperature,
            amount: g * q.amount,
            luminosity: g * q.luminosity,
            denom: g * q.denom,
        }),
{
    assert(q.mass * g == g * q.mass) by (nonlinear_arith);
    assert(q.length * g == g * q.length) by (nonlinear_arith);
    assert(q.time * g == g * q.time) by (nonlinear_arith);
    assert(q.current * g == g * q.current) by (nonlinear_arith);
    assert(q.temperature * g == g * q.temperature) by (nonlinear_arith);
    assert(q.amount * g == g * q.amount) by (nonlinear_arith);
    assert(q.luminosity * g == g * q.luminosity) by (nonlinear_arith);
    assert(q.denom * g == g * q.denom) by (nonlinear_arith);
}

/// An exact quotient by a positive number is no further from zero than the
/// dividend.
proof fn lemma_quotient_no_larger(x: int, g: int)
    requires
        g >= 1,
        x == g * (x / g),
    ensures
        x >= 0 ==> 0 <= x / g <= x,
        x <= 0 ==> x <= x / g <= 0,
{
    let q = x / g;
    assert((x >= 0 ==> 0 <= q <= x) && (x <= 0 ==> x <= q <= 0)) by (nonlinear_arith)
        requires
            x == g * q,
            g >= 1,
    ;
}

/// What divides every number of `q` divides, times `g`, every number of
/// `q.times(g)`.
proof fn lemma_scaled_shares(q: Powers, h: int, g: int)
    requires
        q.shares(h),
        g >= 1,
    ensures
        q.times(g).shares(g * h),
{
    lemma_scaled_divides(q.denom, h, g);
    lemma_scaled_divides(q.mass, h, g);
    lemma_scaled_divides(q.length, h, g);
    lemma_scaled_divides(q.time, h, g);
    lemma_scaled_divides(q.current, h, g);
    lemma_scaled_divides(q.temperature, h, g);
    lemma_scaled_divides(q.amount, h, g);
    lemma_scaled_divides(q.luminosity, h, g);
}

/// If `h` divides `x`, then `g * h` divides `x * g`.
proof fn lemma_scaled_divides(x: int, h: int, g: int)
    requires
        divides(h, x),
        g >= 1,
    ensures
        divides(g * h, x * g),
{
    lemma_divides_quotient(h, x);
    let y = x / h;
    assert(g * h > 0) by (nonlinear_arith)
        requires
            g >= 1,
            h >= 1,
    ;
    assert(x * g == (g * h) * y) by (nonlinear_arith)
        requires
            x == h * y,
    ;
    lemma_multiple_divides(g * h, y);
}

/// Exponents in lowest terms are their own reduced form.
pub proof fn lemma_lowest_terms_reduced(p: Powers)
    requires
        p.lowest_terms(),
    ensures
        p.reduced() == p,
{
    lemma_div_basics_2(p.mass);
    lemma_div_basics_2(p.length);
    lemma_div_basics_2(p.time);
    lemma_div_basics_2(p.current);
    lemma_div_basics_2(p.temperature);
    lemma_div_basics_2(p.amount);
    lemma_div_basics_2(p.luminosity);
    lemma_div_basics_2(p.denom);
}

/// A physical dimension: the exponents of mass, length, time, electric
/// current, temperature, amount of substance and luminous intensity, as
/// fractions over one shared denominator, always in lowest terms.
#[derive(Clone, Copy, Debug, PartialEq, Eq, Structural)]
pub struct Dimension {
    mass: i8,
    length: i8,
    time: i8,
    current: i8,
    temperature: i8,
    amount: i8,
    luminosity: i8,
    denom: i8,
}

impl View for Dimension {
    type V = Powers;

    closed spec fn view(&self) -> Powers {
        Powers {
            mass: self.mass as int,
            length: self.length as int,
            time: self.time as int,
            current: self.current as int,
            temperature: self.temperature as int,
            amount: self.amount as int,
            luminosity: self.luminosity as int,
            denom: self.denom as int,
        }
    }
}

/// The message of the error that the algebra of dimensions gives when a
/// number leaves the range of eight signed bits.
pub open spec fn overflow_message() -> Seq<char> {
    "overflow error in the calculation of units"@
}

/// The message of the error for a root whose index is not positive.
pub open spec fn root_index_message() -> Seq<char> {
    "cannot take a root of units unless its index is positive"@
}

fn overflow_error() -> (e: EvalError)
    ensures
        e.error@ == overflow_message(),
{
    EvalError { error: String::from_str("overflow error in the calculation of units") }
}

fn abs_u8(e: i8) -> (r: u8)
    ensures
        r == magnitude(e as int),
{
    if e < 0 {
        (-(e as i16)) as u8
    } else {
        e as u8
    }
}

/// `e / g`, where `g` divides `e`.
fn quotient(e: i8, g: u8) -> (r: i8)
    requires
        1 <= g <= 127,
        divides(g as int, e as int),
    ensures
        r as int == (e as int) / (g as int),
{
    let m: u8 = abs_u8(e);
    let q: u8 = m / g;
    proof {
        lemma_divides_magnitude(g as int, e as int);
        lemma_divides_quotient(g as int, m as int);
        lemma_quotient_no_larger(m as int, g as int);
        if e < 0 {
            assert((e as int) == (g as int) * (-(q as int))) by (nonlinear_arith)
                requires
                    (m as int) == (g as int) * (q as int),
                    (e as int) == -(m as int),
            ;
            lemma_multiple_divides(g as int, -(q as int));
        } else {
            lemma_multiple_divides(g as int, q as int);
        }
    }
    if e < 0 {
        (-(q as i16)) as i8
    } else {
        q as i8
    }
}

/// `a * fa + b * fb`, or the difference with `divide`, where both products
/// and the result can be held in eight signed bits.
fn combine_one(a: i8, fa: i8, b: i8, fb: i8, divide: bool) -> (r: Option<i8>)
    ensures
        r == (if fits_i8(a * fa) && fits_i8(b * fb) && fits_i8(
            if divide {
                a * fa - b * fb
            } else {
                a * fa + b * fb
            },
        ) {
            Some(
                (if divide {
                    a * fa - b * fb
                } else {
                    a * fa + b * fb
                }) as i8,
            )
        } else {
            None
        }),
{
    match a.checked_mul(fa) {
        None => None,
        Some(x) => match b.checked_mul(fb) {
            None => None,
            Some(y) => if divide {
                x.checked_sub(y)
            } else {
                x.checked_add(y)
            },
        },
    }
}

/// Appends the term of one base quantity to `s`, after a space where `s`
/// already holds a term.
fn push_term(s: &mut String, symbol: &str, numerator: i8, denom: i8)
    requires
        denom >= 1,
        symbol@.len() > 0,
    ensures
        final(s)@ == spaced(old(s)@, term(symbol@, numerator as int, denom as int)),
{
    if numerator == 0 {
        return ;
    }
    if !s.as_str().is_empty() {
        s.push(' ');
    }
    let g: u8 = gcd_u8(abs_u8(numerator), denom as u8);
    proof {
        lemma_gcd_divides(magnitude(numerator as int), denom as nat);
        lemma_divides_magnitude(g as int, numerator as int);
        crate::arith::lemma_divisor_at_most(g as int, denom as int);
    }
    let n: i8 = quotient(numerator, g);
    let d: i8 = quotient(denom, g);
    s.append(symbol);
    if n == 1 && d == 1 {
    } else if d == 1 {
        s.push('^');
        push_decimal(s, n as i64);
    } else {
        s.push('^');
        push_decimal(s, n as i64);
        s.push('/');
        push_decimal(s, d as i64);
    }
    proof {
        let t = term(symbol@, numerator as int, denom as int);
        assert(t.len() > 0);
        if old(s)@.len() == 0 {
            assert(final(s)@ =~= t);
        } else {
            assert(final(s)@ =~= old(s)@ + seq![' '] + t);
        }
    }
}

impl Dimension {
    /// What every value of this type satisfies.
    #[verifier::type_invariant]
    pub open spec fn valid(self) -> bool {
        self@.lowest_terms() && self@.fits()
    }

    /// The dimension with the given numerators over `denom`, in lowest
    /// terms.
    fn reduce(
        mass: i8,
        length: i8,
        time: i8,
        current: i8,
        temperature: i8,
        amount: i8,
        luminosity: i8,
        denom: i8,
    ) -> (r: Dimension)
        requires
            denom >= 1,
        ensures
            r@ == (Powers {
                mass: mass as int,
                length: length as int,
                time: time as int,
                current: current as int,
                temperature: temperature as int,
                amount: amount as int,
                luminosity: luminosity as int,
                denom: denom as int,
            }).reduced(),
    {
        let ghost raw = Powers {
            mass: mass as int,
            length: length as int,
            time: time as int,
            current: current as int,
            temperature: temperature as int,
            amount: amount as int,
            luminosity: luminosity as int,
            denom: denom as int,
        };
        let d0: u8 = denom as u8;
        let d1: u8 = gcd_u8(d0, abs_u8(mass));
        let d2: u8 = gcd_u8(d1, abs_u8(length));
        let d3: u8 = gcd_u8(d2, abs_u8(time));
        let d4: u8 = gcd_u8(d3, abs_u8(current));
        let d5: u8 = gcd_u8(d4, abs_u8(temperature));
        let d6: u8 = gcd_u8(d5, abs_u8(amount));
        let g: u8 = gcd_u8(d6, abs_u8(luminosity));
        proof {
            assert(g == raw.divisor());
            lemma_divisor(raw);
            lemma_reduced(raw);
        }
        Dimension {
            mass: quotient(mass, g),
            length: quotient(length, g),
            time: quotient(time, g),
            current: quotient(current, g),
            temperature: quotient(temperature, g),
            amount: quotient(amount, g),
            luminosity: quotient(luminosity, g),
            denom: quotient(denom, g),
        }
    }

    /// The dimension with exponents `mass / denom`, `length / denom` and so
    /// on, in lowest terms.
    pub fn new(
        mass: i8,
        length: i8,
        time: i8,
        current: i8,
        temp: i8,
        mole: i8,
        lum: i8,
        denom: i8,
    ) -> (r: Dimension)
        requires
            denom >= 1,
        ensures
            r@ == (Powers {
                mass: mass as int,
                length: length as int,
                time: time as int,
                current: current as int,
                temperature: temp as int,
                amount: mole as int,
                luminosity: lum as int,
                denom: denom as int,
            }).reduced(),
            r@.lowest_terms(),
    {
        let r = Dimension::reduce(mass, length, time, current, temp, mole, lum, denom);
        proof {
            use_type_invariant(&r);
        }
        r
    }

    /// The same dimension in lowest terms: since every value of this type
    /// is kept in lowest terms, the dimension itself.
    pub fn simplify(&self) -> (r: Dimension)
        ensures
            r == *self,
            r@ == self@.reduced(),
            r@.lowest_terms(),
    {
        proof {
            use_type_invariant(self);
            lemma_lowest_terms_reduced(self@);
        }
        let r = Dimension::reduce(
            self.mass,
            self.length,
            self.time,
            self.current,
            self.temperature,
            self.amount,
            self.luminosity,
            self.denom,
        );
        r
    }

    /// The dimension of the product of a quantity of this dimension and one
    /// of dimension `other`, or of their quotient with `div_other`.
    pub fn combine(&self, other: &Dimension, div_other: bool) -> (r: Result<Dimension, EvalError>)
        ensures
            match r {
                Ok(d) => self@.combined(other@, div_other) == Some(d@),
                Err(e) => self@.combined(other@, div_other) is None && e.error@
                    == overflow_message(),
            },
    {
        proof {
            use_type_invariant(self);
            use_type_invariant(other);
            lemma_gcd_divides(self.denom as nat, other.denom as nat);
            lemma_common_denominator(self@.denom, other@.denom);
        }
        let g: u8 = gcd_u8(self.denom as u8, other.denom as u8);
        let fa: i8 = ((other.denom as u8) / g) as i8;
        let fb: i8 = ((self.denom as u8) / g) as i8;
        let mass = match combine_one(self.mass, fa, other.mass, fb, div_other) {
            Some(x) => x,
            None => {
                return Err(overflow_error());
            },
        };
        let length = match combine_one(self.length, fa, other.length, fb, div_other) {
            Some(x) => x,
            None => {
                return Err(overflow_error());
            },
        };
        let time = match combine_one(self.time, fa, other.time, fb, div_other) {
            Some(x) => x,
            None => {
                return Err(overflow_error());
            },
        };
        let current = match combine_one(self.current, fa, other.current, fb, div_other) {
            Some(x) => x,
            None => {
                return Err(overflow_error());
            },
        };
        let temperature = match combine_one(
            self.temperature,
            fa,
            other.temperature,
            fb,
            div_other,
        ) {
            Some(x) => x,
            None => {
                return Err(overflow_error());
            },
        };
        let amount = match combine_one(self.amount, fa, other.amount, fb, div_other) {
            Some(x) => x,
            None => {
                return Err(overflow_error());
            },
        };
        let luminosity = match combine_one(self.luminosity, fa, other.luminosity, fb, div_other) {
            Some(x) => x,
            None => {
                return Err(overflow_error());
            },
        };
        let denom = match self.denom.checked_mul(fa) {
            Some(x) => x,
            None => {
                return Err(overflow_error());
            },
        };
        assert(denom >= 1) by (nonlinear_arith)
            requires
                denom == self.denom * fa,
                self.denom >= 1,
                fa >= 1,
        ;
        Ok(Dimension::reduce(mass, length, time, current, temperature, amount, luminosity, denom))
    }

    /// The dimension of the `n`-th root of a quantity of this dimension.
    pub fn root(&self, n: i8) -> (r: Result<Dimension, EvalError>)
        ensures
            match r {
                Ok(d) => self@.rooted(n as int) == Some(d@),
                Err(e) => self@.rooted(n as int) is None && e.error@ == (if n >= 1 {
                    overflow_message()
                } else {
                    root_index_message()
                }),
            },
    {
        proof {
            use_type_invariant(self);
        }
        if n < 1 {
            return Err(
                EvalError {
                    error: String::from_str(
                        "cannot take a root of units unless its index is positive",
                    ),
                },
            );
        }
        match self.denom.checked_mul(n) {
            Some(denom) => {
                assert(denom >= 1) by (nonlinear_arith)
                    requires
                        denom == self.denom * n,
                        self.denom >= 1,
                        n >= 1,
                ;
                Ok(
                    Dimension::reduce(
                        self.mass,
                        self.length,
                        self.time,
                        self.current,
                        self.temperature,
                        self.amount,
                        self.luminosity,
                        denom,
                    ),
                )
            },
            None => Err(overflow_error()),
        }
    }

    /// The dimension of the `n`-th power of a quantity of this dimension.
    pub fn pow(&self, n: i8) -> (r: Result<Dimension, EvalError>)
        ensures
            match r {
                Ok(d) => self@.raised(n as int) == Some(d@),
                Err(e) => self@.raised(n as int) is None && e.error@ == overflow_message(),
            },
    {
        proof {
            use_type_invariant(self);
        }
        let mass = match self.mass.checked_mul(n) {
            Some(x) => x,
            None => {
                return Err(overflow_error());
            },
        };
        let length = match self.length.checked_mul(n) {
            Some(x) => x,
            None => {
                return Err(overflow_error());
            },
        };
        let time = match self.time.checked_mul(n) {
            Some(x) => x,
            None => {
                return Err(overflow_error());
            },
        };
        let current = match self.current.checked_mul(n) {
            Some(x) => x,
            None => {
                return Err(overflow_error());
            },
        };
        let temperature = match self.temperature.checked_mul(n) {
            Some(x) => x,
            None => {
                return Err(overflow_error());
            },
        };
        let amount = match self.amount.checked_mul(n) {
            Some(x) => x,
            None => {
                return Err(overflow_error());
            },
        };
        let luminosity = match self.luminosity.checked_mul(n) {
            Some(x) => x,
            None => {
                return Err(overflow_error());
            },
        };
        Ok(
            Dimension::reduce(
                mass,
                length,
                time,
                current,
                temperature,
                amount,
                luminosity,
                self.denom,
            ),
        )
    }

    /// The dimension written in the symbols of the base units.
    pub fn to_si_units_str(&self) -> (s: String)
        ensures
            s@ == self@.text(),
    {
        proof {
            use_type_invariant(self);
            reveal_strlit("kg");
            reveal_strlit("m");
            reveal_strlit("s");
            reveal_strlit("A");
            reveal_strlit("K");
            reveal_strlit("mol");
            reveal_strlit("cd");
        }
        let mut s = String::new();
        push_term(&mut s, "kg", self.mass, self.denom);
        assert(s@ =~= term("kg"@, self@.mass, self@.denom));
        push_term(&mut s, "m", self.length, self.denom);
        push_term(&mut s, "s", self.time, self.denom);
        push_term(&mut s, "A", self.current, self.denom);
        push_term(&mut s, "K", self.temperature, self.denom);
        push_term(&mut s, "mol", self.amount, self.denom);
        push_term(&mut s, "cd", self.luminosity, self.denom);
        s
    }

    /// The dimension written in the symbols of the base units.
    pub fn to_str(&self) -> (s: String)
        ensures
            s@ == self@.text(),
    {
        self.to_si_units_str()
    }

    /// Whether all seven exponents are zero.
    pub fn no_units(&self) -> (r: bool)
        ensures
            r == self@.unitless(),
    {
        self.mass == 0 && self.length == 0 && self.time == 0 && self.current == 0
            && self.temperature == 0 && self.amount == 0 && self.luminosity == 0
    }
}

/// The least common denominator is the same from either side: with `g` the
/// greatest common divisor of two positive denominators `a` and `b`,
/// `a * (b / g)` is `b * (a / g)`, and both factors are positive.
pub proof fn lemma_common_denominator(a: int, b: int)
    requires
        a >= 1,
        b >= 1,
    ensures
        gcd(a as nat, b as nat) >= 1,
        a / (gcd(a as nat, b as nat) as int) >= 1,
        b / (gcd(a as nat, b as nat) as int) >= 1,
        a * (b / (gcd(a as nat, b as nat) as int)) == b * (a / (gcd(a as nat, b as nat) as int)),
{
    lemma_gcd_divides(a as nat, b as nat);
    let g = gcd(a as nat, b as nat) as int;
    lemma_divides_quotient(g, a);
    lemma_divides_quotient(g, b);
    let p = a / g;
    let q = b / g;
    assert(p >= 1 && q >= 1 && a * q == b * p) by (nonlinear_arith)
        requires
            a == g * p,
            b == g * q,
            a >= 1,
            b >= 1,
            g >= 1,
    ;
}

/// Two dimensions with the same exponents are the same value.
pub proof fn lemma_view_decides(a: Dimension, b: Dimension)
    ensures
        (a@ == b@) == (a == b),
{
}


impl Powers {
    /// No units: every exponent zero, over the denominator 1.
    pub open spec fn none() -> Powers {
        Powers {
            mass: 0,
            length: 0,
            time: 0,
            current: 0,
            temperature: 0,
            amount: 0,
            luminosity: 0,
            denom: 1,
        }
    }

    /// How the dimension is named in a message: by its text, or as
    /// "no units".
    pub open spec fn name(self) -> Seq<char> {
        if self.unitless() {
            "no units"@
        } else {
            self.text()
        }
    }
}

/// Exponents that are all zero are in lowest terms over the denominator 1
/// only.
pub proof fn lemma_unitless_lowest_terms(p: Powers)
    requires
        p.unitless(),
        p.denom >= 1,
    ensures
        p.lowest_terms() <==> p == Powers::none(),
        p.divisor() == p.denom,
{
}

/// A value with the exponents of its dimension.
pub struct Measure {
    pub value: AutoNum,
    pub powers: Powers,
}

/// A number with a physical dimension.
#[derive(Clone, Copy, Debug, PartialEq, Eq, Structural)]
pub struct Quantity {
    pub value: AutoNum,
    pub units: Dimension,
}

impl View for Quantity {
    type V = Measure;

    open spec fn view(&self) -> Measure {
        Measure { value: self.value, powers: self.units@ }
    }
}

/// A result with the quantity taken by its view and the error by its
/// message.
pub open spec fn seen(r: Result<Quantity, Halt<EvalError>>) -> Result<Measure, Halt<Seq<char>>> {
    match r {
        Ok(q) => Ok(q@),
        Err(Halt::Failed(e)) => Err(Halt::Failed(e.error@)),
        Err(Halt::Awaits(q)) => Err(Halt::Awaits(q)),
    }
}

/// The value `v` with the exponents `powers`, where `v` is there.
pub open spec fn measured(v: Result<AutoNum, Halt<Seq<char>>>, powers: Powers) -> Result<
    Measure,
    Halt<Seq<char>>,
> {
    match v {
        Ok(value) => Ok(Measure { value, powers }),
        Err(h) => Err(h),
    }
}

/// The message for two operands of a sum or a difference whose dimensions
/// differ: `reason`, and the names of both dimensions.
pub open spec fn mismatch_message(reason: Seq<char>, left: Powers, right: Powers) -> Seq<char> {
    reason + ": "@ + left.name() + " and "@ + right.name()
}

/// The reason given where the operands of a sum differ in dimension.
pub open spec fn add_message() -> Seq<char> {
    "cannot add two quantities with different units"@
}

/// The reason given where the operands of a difference differ in
/// dimension.
pub open spec fn sub_message() -> Seq<char> {
    "cannot subtract two quantities with different units"@
}

/// The message for an exponent with units.
pub open spec fn power_units_message() -> Seq<char> {
    "cannot take the power of a quantity with units"@
}

/// The message for an exponent of a quantity with units that is out of
/// range.
pub open spec fn power_range_message() -> Seq<char> {
    "power too large to raise quantity with units (max: -128 <= n <= 127)"@
}

/// The message for a floating-point exponent of a quantity with units.
pub open spec fn power_fraction_message() -> Seq<char> {
    "raising a quantity with units to a non-integer power not supported (power cannot be guaranteed to be an integer)"@
}

/// The message for a function of a number that was given a quantity with
/// units.
pub open spec fn units_message(f: ScalarFn) -> Seq<char> {
    match f {
        ScalarFn::Percent => "cannot use percentage on quantity with units, consider using x / 100 instead"@,
        ScalarFn::Factorial => "cannot take the factorial of quantity with units"@,
        ScalarFn::Sin => "cannot take the sine of quantity with units (degrees are dimensionless)"@,
        ScalarFn::Cos => "cannot take the cosine of quantity with units (degrees are dimensionless)"@,
        ScalarFn::Tan => "cannot take the tangent of quantity with units (degrees are dimensionless)"@,
        ScalarFn::Exp => "cannot take the exponentiation of a quantity with units"@,
        ScalarFn::Ln => "cannot take the natural log of a quantity with units"@,
        ScalarFn::Log => "cannot take the base-10 log of a quantity with units"@,
    }
}

/// The function `f` of a number.
pub open spec fn scalar_function(f: ScalarFn, value: AutoNum, known: Known) -> Result<
    AutoNum,
    Halt<Seq<char>>,
> {
    match f {
        ScalarFn::Percent => waiting(known.float(FloatOp::Div, value, AutoNum::Int(100))),
        ScalarFn::Factorial => value.factorial(known),
        ScalarFn::Sin => waiting(known.float(FloatOp::Sin, value, AutoNum::Int(0))),
        ScalarFn::Cos => waiting(known.float(FloatOp::Cos, value, AutoNum::Int(0))),
        ScalarFn::Tan => waiting(known.float(FloatOp::Tan, value, AutoNum::Int(0))),
        ScalarFn::Exp => waiting(known.float(FloatOp::Exp, value, AutoNum::Int(0))),
        ScalarFn::Ln => value.natural_log(known),
        ScalarFn::Log => value.decimal_log(known),
    }
}

impl Measure {
    /// The quantity in words, for a reader of the program: the number (a
    /// floating-point number from 10000000000 with an exponent), the
    /// units, and the kind of the number.
    pub open spec fn text(self, known: Known) -> Result<Seq<char>, Request> {
        match self.value {
            AutoNum::Int(n) => Ok(decimal(n as int) + " "@ + self.powers.text() + " :: int"@),
            AutoNum::Float(x) => match known.written(
                FormatCall {
                    style: if (Binary64 { bits: LARGE_BITS }).at_most(x) {
                        FormatStyle::ShortestExponent
                    } else {
                        FormatStyle::Shortest
                    },
                    digits: 0,
                    value: x,
                },
            ) {
                Ok(number) => Ok(number + " "@ + self.powers.text() + " :: float"@),
                Err(q) => Err(q),
            },
        }
    }

    /// The sum (for `FloatOp::Add`) or the difference (for `FloatOp::Sub`)
    /// of two quantities of one dimension; an error, with `reason` and the
    /// names of both dimensions for its message, where the dimensions
    /// differ.
    pub open spec fn termwise(self, other: Measure, op: FloatOp, reason: Seq<char>, known: Known)
        -> Result<Measure, Halt<Seq<char>>> {
        if self.powers != other.powers {
            Err(Halt::Failed(mismatch_message(reason, self.powers, other.powers)))
        } else {
            measured(waiting(self.value.combined(other.value, op, known)), self.powers)
        }
    }

    /// The sum of two quantities of one dimension.
    pub open spec fn sum(self, other: Measure, known: Known) -> Result<Measure, Halt<Seq<char>>> {
        self.termwise(other, FloatOp::Add, add_message(), known)
    }

    /// The difference of two quantities of one dimension.
    pub open spec fn difference(self, other: Measure, known: Known) -> Result<
        Measure,
        Halt<Seq<char>>,
    > {
        self.termwise(other, FloatOp::Sub, sub_message(), known)
    }

    /// The product: the product of the values, with the dimension of the
    /// product.
    pub open spec fn product(self, other: Measure, known: Known) -> Result<
        Measure,
        Halt<Seq<char>>,
    > {
        match self.value.product(other.value, known) {
            Err(q) => Err(Halt::Awaits(q)),
            Ok(value) => match self.powers.combined(other.powers, false) {
                None => Err(Halt::Failed(overflow_message())),
                Some(powers) => Ok(Measure { value, powers }),
            },
        }
    }

    /// The quotient: the quotient of the values, with the dimension of the
    /// quotient.
    pub open spec fn quotient(self, other: Measure, known: Known) -> Result<
        Measure,
        Halt<Seq<char>>,
    > {
        match self.value.quotient(other.value, known) {
            Err(h) => Err(h),
            Ok(value) => match self.powers.combined(other.powers, true) {
                None => Err(Halt::Failed(overflow_message())),
                Some(powers) => Ok(Measure { value, powers }),
            },
        }
    }

    /// The power. The exponent has no units. A base without units takes
    /// any exponent; a base with units takes an integer from -128 to 127,
    /// which its dimension is raised to as well.
    pub open spec fn power(self, exponent: Measure, known: Known) -> Result<
        Measure,
        Halt<Seq<char>>,
    > {
        if !exponent.powers.unitless() {
            Err(Halt::Failed(power_units_message()))
        } else if self.powers.unitless() {
            measured(waiting(self.value.power(exponent.value, known)), self.powers)
        } else {
            match exponent.value {
                AutoNum::Int(n) => if -128 <= n <= 127 {
                    match self.powers.raised(n as int) {
                        None => Err(Halt::Failed(overflow_message())),
                        Some(powers) => measured(
                            waiting(self.value.power(exponent.value, known)),
                            powers,
                        ),
                    }
                } else {
                    Err(Halt::Failed(power_range_message()))
                },
                AutoNum::Float(_) => Err(Halt::Failed(power_fraction_message())),
            }
        }
    }

    /// The quantity with the opposite sign.
    pub open spec fn negation(self, known: Known) -> Result<Measure, Halt<Seq<char>>> {
        measured(waiting(self.value.negation(known)), self.powers)
    }

    /// The `n`-th root: the root of the value, with the dimension of the
    /// root.
    pub open spec fn root(self, n: i8, known: Known) -> Result<Measure, Halt<Seq<char>>> {
        match self.value.root(n, known) {
            Err(h) => Err(h),
            Ok(value) => match self.powers.rooted(n as int) {
                None => Err(
                    Halt::Failed(
                        if n >= 1 {
                            overflow_message()
                        } else {
                            root_index_message()
                        },
                    ),
                ),
                Some(powers) => Ok(Measure { value, powers }),
            },
        }
    }

    /// The function `f` of a quantity without units; an error for one with
    /// units.
    pub open spec fn function(self, f: ScalarFn, known: Known) -> Result<Measure, Halt<Seq<char>>> {
        if self.powers.unitless() {
            measured(scalar_function(f, self.value, known), Powers::none())
        } else {
            Err(Halt::Failed(units_message(f)))
        }
    }

    /// The value without its units.
    pub open spec fn stripped(self) -> Measure {
        Measure { value: self.value, powers: Powers::none() }
    }
}

fn units_error(f: ScalarFn) -> (r: Result<Quantity, Halt<EvalError>>)
    ensures
        seen(r) == Err::<Measure, Halt<Seq<char>>>(Halt::Failed(units_message(f))),
{
    let message: &str = match f {
        ScalarFn::Percent => "cannot use percentage on quantity with units, consider using x / 100 instead",
        ScalarFn::Factorial => "cannot take the factorial of quantity with units",
        ScalarFn::Sin => "cannot take the sine of quantity with units (degrees are dimensionless)",
        ScalarFn::Cos => "cannot take the cosine of quantity with units (degrees are dimensionless)",
        ScalarFn::Tan => "cannot take the tangent of quantity with units (degrees are dimensionless)",
        ScalarFn::Exp => "cannot take the exponentiation of a quantity with units",
        ScalarFn::Ln => "cannot take the natural log of a quantity with units",
        ScalarFn::Log => "cannot take the base-10 log of a quantity with units",
    };
    Err(Halt::Failed(EvalError { error: String::from_str(message) }))
}

fn dimension_failure(e: EvalError) -> (r: Result<Quantity, Halt<EvalError>>)
    ensures
        seen(r) == Err::<Measure, Halt<Seq<char>>>(Halt::Failed(e.error@)),
{
    Err(Halt::Failed(e))
}

impl Dimension {
    /// The dimension with the exponents `p`, for exponents that fit.
    pub closed spec fn from_powers(p: Powers) -> Dimension {
        Dimension {
            mass: p.mass as i8,
            length: p.length as i8,
            time: p.time as i8,
            current: p.current as i8,
            temperature: p.temperature as i8,
            amount: p.amount as i8,
            luminosity: p.luminosity as i8,
            denom: p.denom as i8,
        }
    }

    /// The dimension with exponents that fit has these exponents.
    pub proof fn lemma_powers_kept(p: Powers)
        requires
            p.fits(),
        ensures
            Dimension::from_powers(p)@ == p,
    {
    }

    /// A dimension is the dimension with its exponents.
    pub proof fn lemma_from_powers(self)
        ensures
            Dimension::from_powers(self@) == self,
    {
    }

    /// The dimension of a number without units.
    pub fn none() -> (r: Dimension)
        ensures
            r@ == Powers::none(),
            r == Dimension::from_powers(Powers::none()),
    {
        proof {
            lemma_unitless_lowest_terms(Powers::none());
            lemma_lowest_terms_reduced(Powers::none());
        }
        Dimension::reduce(0, 0, 0, 0, 0, 0, 0, 1)
    }

    /// The name of the dimension in a message.
    fn push_name(&self, s: &mut String)
        ensures
            final(s)@ == old(s)@ + self@.name(),
    {
        if self.no_units() {
            s.append("no units");
        } else {
            let text = self.to_si_units_str();
            s.append(text.as_str());
        }
    }
}

impl Quantity {
    /// The quantity with the value and the exponents of `m`.
    pub open spec fn from_measure(m: Measure) -> Quantity {
        Quantity { value: m.value, units: Dimension::from_powers(m.powers) }
    }

    /// A quantity is the quantity with its value and its exponents.
    pub proof fn lemma_from_measure(self)
        ensures
            Quantity::from_measure(self@) == self,
    {
        self.units.lemma_from_powers();
    }

    /// The quantity with the value `value` and the dimension `units`.
    pub fn new(value: AutoNum, units: Dimension) -> (r: Quantity)
        ensures
            r.value == value,
            r.units == units,
    {
        Quantity { value, units }
    }

    /// The number `value`, without units.
    pub fn dimensionless(value: AutoNum) -> (r: Quantity)
        ensures
            r@ == (Measure { value, powers: Powers::none() }),
            r == Quantity::from_measure(Measure { value, powers: Powers::none() }),
    {
        Quantity { value, units: Dimension::none() }
    }

    /// The quantity in words, for a reader of the program.
    pub fn to_str(&self, known: &Known) -> (r: Result<String, Request>)
        ensures
            match r {
                Ok(s) => self@.text(*known) == Ok::<Seq<char>, Request>(s@),
                Err(q) => self@.text(*known) == Err::<Seq<char>, Request>(q),
            },
    {
        let units = self.units.to_si_units_str();
        match self.value {
            AutoNum::Int(n) => {
                let mut s = String::new();
                push_decimal(&mut s, n);
                s.append(" ");
                s.append(units.as_str());
                s.append(" :: int");
                Ok(s)
            },
            AutoNum::Float(x) => {
                let large = Binary64 { bits: LARGE_BITS };
                let style = if large.less_or_equal(&x) {
                    FormatStyle::ShortestExponent
                } else {
                    FormatStyle::Shortest
                };
                match known.write(FormatCall { style, digits: 0, value: x }) {
                    Ok(mut s) => {
                        s.append(" ");
                        s.append(units.as_str());
                        s.append(" :: float");
                        Ok(s)
                    },
                    Err(q) => Err(q),
                }
            },
        }
    }

    /// The sum or the difference of two quantities of one dimension.
    pub fn combine_quantity_terms(
        &self,
        other: &Quantity,
        op: FloatOp,
        error_msg: &str,
        known: &Known,
    ) -> (r: Result<Quantity, Halt<EvalError>>)
        ensures
            seen(r) == self@.termwise(other@, op, error_msg@, *known),
    {
        proof {
            lemma_view_decides(self.units, other.units);
        }
        if self.units != other.units {
            let mut message = String::from_str(error_msg);
            message.append(": ");
            self.units.push_name(&mut message);
            message.append(" and ");
            other.units.push_name(&mut message);
            Err(Halt::Failed(EvalError { error: message }))
        } else {
            match self.value.auto_checked_binary_op(&other.value, op, known) {
                Ok(value) => Ok(Quantity { value, units: self.units }),
                Err(q) => Err(Halt::Awaits(q)),
            }
        }
    }

    /// The sum of two quantities of one dimension.
    pub fn add_quantity(&self, other: &Quantity, known: &Known) -> (r: Result<
        Quantity,
        Halt<EvalError>,
    >)
        ensures
            seen(r) == self@.sum(other@, *known),
    {
        self.combine_quantity_terms(
            other,
            FloatOp::Add,
            "cannot add two quantities with different units",
            known,
        )
    }

    /// The difference of two quantities of one dimension.
    pub fn sub_quantity(&self, other: &Quantity, known: &Known) -> (r: Result<
        Quantity,
        Halt<EvalError>,
    >)
        ensures
            seen(r) == self@.difference(other@, *known),
    {
        self.combine_quantity_terms(
            other,
            FloatOp::Sub,
            "cannot subtract two quantities with different units",
            known,
        )
    }

    /// The product of two quantities.
    pub fn mul_quantity(&self, other: &Quantity, known: &Known) -> (r: Result<
        Quantity,
        Halt<EvalError>,
    >)
        ensures
            seen(r) == self@.product(other@, *known),
    {
        let value = match self.value.auto_mul(&other.value, known) {
            Ok(v) => v,
            Err(q) => {
                return Err(Halt::Awaits(q));
            },
        };
        match self.units.combine(&other.units, false) {
            Ok(units) => Ok(Quantity { value, units }),
            Err(e) => dimension_failure(e),
        }
    }

    /// The quotient of two quantities.
    pub fn div_quantity(&self, other: &Quantity, known: &Known) -> (r: Result<
        Quantity,
        Halt<EvalError>,
    >)
        ensures
            seen(r) == self@.quotient(other@, *known),
    {
        let value = match self.value.auto_div(&other.value, known) {
            Ok(v) => v,
            Err(Halt::Failed(e)) => {
                return Err(Halt::Failed(e));
            },
            Err(Halt::Awaits(q)) => {
                return Err(Halt::Awaits(q));
            },
        };
        match self.units.combine(&other.units, true) {
            Ok(units) => Ok(Quantity { value, units }),
            Err(e) => dimension_failure(e),
        }
    }

    /// The quantity to the power `other`.
    pub fn pow_quantity(&self, other: &Quantity, known: &Known) -> (r: Result<
        Quantity,
        Halt<EvalError>,
    >)
        ensures
            seen(r) == self@.power(other@, *known),
    {
        if !other.units.no_units() {
            return Err(
                Halt::Failed(
                    EvalError {
                        error: String::from_str("cannot take the power of a quantity with units"),
                    },
                ),
            );
        }
        if self.units.no_units() {
            return match self.value.auto_pow(&other.value, known) {
                Ok(value) => Ok(Quantity { value, units: self.units }),
                Err(q) => Err(Halt::Awaits(q)),
            };
        }
        match other.value {
            AutoNum::Int(n) => {
                if n <= 127 && n >= -128 {
                    let units = match self.units.pow(n as i8) {
                        Ok(units) => units,
                        Err(e) => {
                            return dimension_failure(e);
                        },
                    };
                    match self.value.auto_pow(&other.value, known) {
                        Ok(value) => Ok(Quantity { value, units }),
                        Err(q) => Err(Halt::Awaits(q)),
                    }
                } else {
                    Err(
                        Halt::Failed(
                            EvalError {
                                error: String::from_str(
                                    "power too large to raise quantity with units (max: -128 <= n <= 127)",
                                ),
                            },
                        ),
                    )
                }
            },
            AutoNum::Float(_) => Err(
                Halt::Failed(
                    EvalError {
                        error: String::from_str(
                            "raising a quantity with units to a non-integer power not supported (power cannot be guaranteed to be an integer)",
                        ),
                    },
                ),
            ),
        }
    }

    /// The quantity with the opposite sign.
    pub fn negative(&self, known: &Known) -> (r: Result<Quantity, Halt<EvalError>>)
        ensures
            seen(r) == self@.negation(*known),
    {
        match self.value.auto_negate(known) {
            Ok(value) => Ok(Quantity { value, units: self.units }),
            Err(q) => Err(Halt::Awaits(q)),
        }
    }

    /// The `n`-th root of the quantity.
    pub fn root_n(&self, n: i8, known: &Known) -> (r: Result<Quantity, Halt<EvalError>>)
        ensures
            seen(r) == self@.root(n, *known),
    {
        let value = match self.value.auto_root_n(n, known) {
            Ok(v) => v,
            Err(Halt::Failed(e)) => {
                return Err(Halt::Failed(e));
            },
            Err(Halt::Awaits(q)) => {
                return Err(Halt::Awaits(q));
            },
        };
        match self.units.root(n) {
            Ok(units) => Ok(Quantity { value, units }),
            Err(e) => dimension_failure(e),
        }
    }

    /// A function of a number, of the quantity.
    pub fn unitless_op(&self, f: ScalarFn, known: &Known) -> (r: Result<Quantity, Halt<EvalError>>)
        ensures
            seen(r) == self@.function(f, *known),
    {
        if self.units.no_units() {
            let value: Result<AutoNum, Halt<EvalError>> = match f {
                ScalarFn::Percent => or_await(
                    known.apply(FloatOp::Div, self.value, AutoNum::Int(100)),
                ),
                ScalarFn::Factorial => self.value.auto_factorial(known),
                ScalarFn::Sin => or_await(self.value.cast_then(FloatOp::Sin, known)),
                ScalarFn::Cos => or_await(self.value.cast_then(FloatOp::Cos, known)),
                ScalarFn::Tan => or_await(self.value.cast_then(FloatOp::Tan, known)),
                ScalarFn::Exp => or_await(self.value.cast_then(FloatOp::Exp, known)),
                ScalarFn::Ln => self.value.auto_ln(known),
                ScalarFn::Log => self.value.auto_log10(known),
            };
            match value {
                Ok(v) => Ok(Quantity::dimensionless(v)),
                Err(Halt::Failed(e)) => Err(Halt::Failed(e)),
                Err(Halt::Awaits(q)) => Err(Halt::Awaits(q)),
            }
        } else {
            units_error(f)
        }
    }

    /// The value of the quantity, without its units.
    pub fn undim(&self) -> (r: Quantity)
        ensures
            r@ == self@.stripped(),
    {
        Quantity::dimensionless(self.value)
    }
}

} // verus!
