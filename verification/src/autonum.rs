//! Numbers that stay whole while they can.

use crate::arith::magnitude;
use crate::ast::{failure, or_await, told, waiting, EvalError};
use crate::binary64::Binary64;
use crate::floats::{FloatOp, Halt, Known, Request};
use crate::text::{decimal, push_decimal};
use vstd::prelude::*;
use vstd::string::*;

verus! {

/// A number: a 64-bit integer for as long as every operation on it gives an
/// integer that fits, a floating-point number from the first operation
/// that does not.
#[derive(Clone, Copy, Debug, PartialEq, Eq, Structural)]
pub enum AutoNum {
    Int(i64),
    Float(Binary64),
}

/// Whether `x` can be held in 64 signed bits.
pub open spec fn fits_i64(x: int) -> bool {
    i64::MIN <= x <= i64::MAX
}

/// What `op` gives on two integers, for the three operations that give an
/// integer on all integers.
pub open spec fn whole(op: FloatOp, x: int, y: int) -> Option<int> {
    match op {
        FloatOp::Add => Some(x + y),
        FloatOp::Sub => Some(x - y),
        FloatOp::Mul => Some(x * y),
        _ => None,
    }
}

/// `r` is the largest integer whose square is at most `x`.
pub open spec fn is_floor_sqrt(r: int, x: int) -> bool {
    0 <= r && r * r <= x < (r + 1) * (r + 1)
}

/// The largest integer whose square is at most `x`, for `x` from 0.
pub open spec fn floor_sqrt(x: int) -> int {
    choose|r: int| is_floor_sqrt(r, x)
}

/// There is one largest integer whose square is at most `x`.
pub proof fn lemma_floor_sqrt(r: int, x: int)
    requires
        is_floor_sqrt(r, x),
    ensures
        floor_sqrt(x) == r,
{
    let s = floor_sqrt(x);
    assert(is_floor_sqrt(s, x));
    assert(s == r) by (nonlinear_arith)
        requires
            0 <= r,
            r * r <= x < (r + 1) * (r + 1),
            0 <= s,
            s * s <= x < (s + 1) * (s + 1),
    ;
}

/// The message for a division by zero.
pub open spec fn division_message() -> Seq<char> {
    "Division by 0"@
}

/// The message for the factorial of a negative integer.
pub open spec fn negative_factorial_message() -> Seq<char> {
    "Cannot take the factorial of a negative number"@
}

/// The message for the factorial of a floating-point number.
pub open spec fn float_factorial_message() -> Seq<char> {
    "Cannot take the factorial of a floating point value"@
}

/// The message for the square root of a negative number.
pub open spec fn square_root_message() -> Seq<char> {
    "Cannot take the square root of a negative number"@
}

/// The message for an even root of a negative number.
pub open spec fn even_root_message(n: int) -> Seq<char> {
    "Cannot take the "@ + decimal(n) + "-root of a negative number"@
}

/// The message for the natural logarithm of a number that is not above
/// zero.
pub open spec fn natural_log_message() -> Seq<char> {
    "Cannot take the natural log of a non-positive number"@
}

/// The message for the logarithm to base 10 of a number that is not above
/// zero.
pub open spec fn decimal_log_message() -> Seq<char> {
    "Cannot take the base-10 log of a non-positive number"@
}

impl AutoNum {
    /// Numerically below zero.
    pub open spec fn below_zero(self) -> bool {
        match self {
            AutoNum::Int(x) => x < 0,
            AutoNum::Float(f) => f.negative(),
        }
    }

    /// Numerically zero.
    pub open spec fn zero(self) -> bool {
        match self {
            AutoNum::Int(x) => x == 0,
            AutoNum::Float(f) => f.zero(),
        }
    }

    /// The number as a floating-point number.
    pub open spec fn as_float(self, known: Known) -> Result<Binary64, Request> {
        match self {
            AutoNum::Int(_) => match known.float(FloatOp::Cast, self, AutoNum::Int(0)) {
                Ok(AutoNum::Float(f)) => Ok(f),
                Ok(AutoNum::Int(_)) => Ok(Binary64 { bits: 0 }),
                Err(q) => Err(q),
            },
            AutoNum::Float(f) => Ok(f),
        }
    }

    /// `op` on two numbers: on two integers the integer result where `op`
    /// has one that fits, and the floating-point result in every other
    /// case.
    pub open spec fn combined(self, other: AutoNum, op: FloatOp, known: Known) -> Result<
        AutoNum,
        Request,
    > {
        match (self, other) {
            (AutoNum::Int(x), AutoNum::Int(y)) => match whole(op, x as int, y as int) {
                Some(v) => if fits_i64(v) {
                    Ok(AutoNum::Int(v as i64))
                } else {
                    known.float(op, self, other)
                },
                None => known.float(op, self, other),
            },
            _ => known.float(op, self, other),
        }
    }

    /// The sum, in integers where it fits.
    pub open spec fn sum(self, other: AutoNum, known: Known) -> Result<AutoNum, Request> {
        self.combined(other, FloatOp::Add, known)
    }

    /// The difference, in integers where it fits.
    pub open spec fn difference(self, other: AutoNum, known: Known) -> Result<AutoNum, Request> {
        self.combined(other, FloatOp::Sub, known)
    }

    /// The product, in integers where it fits.
    pub open spec fn product(self, other: AutoNum, known: Known) -> Result<AutoNum, Request> {
        self.combined(other, FloatOp::Mul, known)
    }

    /// The quotient: an error for a divisor that is zero, the integer
    /// quotient of two integers where it has no remainder and fits, and the
    /// floating-point quotient in every other case.
    pub open spec fn quotient(self, other: AutoNum, known: Known) -> Result<
        AutoNum,
        Halt<Seq<char>>,
    > {
        if other.zero() {
            Err(Halt::Failed(division_message()))
        } else {
            match (self, other) {
                (AutoNum::Int(x), AutoNum::Int(y)) => if magnitude(x as int) % magnitude(y as int)
                    == 0 && fits_i64(exact_quotient(x as int, y as int)) {
                    Ok(AutoNum::Int(exact_quotient(x as int, y as int) as i64))
                } else {
                    waiting(known.float(FloatOp::Div, self, other))
                },
                _ => waiting(known.float(FloatOp::Div, self, other)),
            }
        }
    }

    /// The number with the opposite sign: the opposite integer where it
    /// fits, and else the floating-point number with its sign flipped.
    pub open spec fn negation(self, known: Known) -> Result<AutoNum, Request> {
        match self {
            AutoNum::Int(x) => if x != i64::MIN {
                Ok(AutoNum::Int((-x) as i64))
            } else {
                match self.as_float(known) {
                    Ok(f) => Ok(AutoNum::Float(f.negated())),
                    Err(q) => Err(q),
                }
            },
            AutoNum::Float(f) => Ok(AutoNum::Float(f.negated())),
        }
    }

    /// The product of `count` factors `self`, multiplied up from 1 one
    /// factor at a time.
    pub open spec fn repeated(self, count: nat, known: Known) -> Result<AutoNum, Request>
        decreases count,
    {
        if count == 0 {
            Ok(AutoNum::Int(1))
        } else {
            match self.repeated((count - 1) as nat, known) {
                Ok(acc) => acc.product(self, known),
                Err(q) => Err(q),
            }
        }
    }

    /// The power: for an integer exponent of magnitude below 64 the
    /// repeated product, inverted for a negative exponent; for every other
    /// exponent the floating-point power.
    pub open spec fn power(self, exponent: AutoNum, known: Known) -> Result<AutoNum, Request> {
        match exponent {
            AutoNum::Int(n) => if -64 < n < 64 {
                match self.repeated(magnitude(n as int), known) {
                    Ok(p) => if n < 0 {
                        known.float(FloatOp::Div, AutoNum::Int(1), p)
                    } else {
                        Ok(p)
                    },
                    Err(q) => Err(q),
                }
            } else {
                known.float(FloatOp::Pow, self, exponent)
            },
            AutoNum::Float(_) => known.float(FloatOp::Pow, self, exponent),
        }
    }

    /// The factorial: an error for a floating-point number and for a
    /// negative integer, else the product of the integers from 1 to the
    /// number.
    pub open spec fn factorial(self, known: Known) -> Result<AutoNum, Halt<Seq<char>>> {
        match self {
            AutoNum::Int(n) => if n < 0 {
                Err(Halt::Failed(negative_factorial_message()))
            } else {
                waiting(factorial_up_to(n as nat, known))
            },
            AutoNum::Float(_) => Err(Halt::Failed(float_factorial_message())),
        }
    }

    /// `op` on the number as a floating-point number, where the number is
    /// above zero, or is zero and `can_equal_zero`; else the error with the
    /// given message.
    pub open spec fn positive_only(
        self,
        op: FloatOp,
        can_equal_zero: bool,
        message: Seq<char>,
        known: Known,
    ) -> Result<AutoNum, Halt<Seq<char>>> {
        if self.below_zero() || (self.zero() && !can_equal_zero) {
            Err(Halt::Failed(message))
        } else {
            waiting(known.float(op, self, AutoNum::Int(0)))
        }
    }

    /// The `n`-th root. The square root of a negative number is an error,
    /// that of an integer square is the integer, every other one is
    /// floating-point. The cube root is floating-point. For another `n`, an
    /// even root of a negative number is an error, and every other one is
    /// the number to the floating-point power `1 / n`.
    pub open spec fn root(self, n: i8, known: Known) -> Result<AutoNum, Halt<Seq<char>>> {
        if n == 2 {
            match self {
                AutoNum::Int(x) => if x < 0 {
                    Err(Halt::Failed(square_root_message()))
                } else if floor_sqrt(x as int) * floor_sqrt(x as int) == x {
                    Ok(AutoNum::Int(floor_sqrt(x as int) as i64))
                } else {
                    waiting(known.float(FloatOp::Sqrt, self, AutoNum::Int(0)))
                },
                AutoNum::Float(_) => self.positive_only(
                    FloatOp::Sqrt,
                    true,
                    square_root_message(),
                    known,
                ),
            }
        } else if n == 3 {
            waiting(known.float(FloatOp::Cbrt, self, AutoNum::Int(0)))
        } else if (n as int) % 2 == 0 && self.below_zero() {
            Err(Halt::Failed(even_root_message(n as int)))
        } else {
            match known.float(FloatOp::Div, AutoNum::Int(1), AutoNum::Int(n as i64)) {
                Ok(inverse) => waiting(known.float(FloatOp::Pow, self, inverse)),
                Err(q) => Err(Halt::Awaits(q)),
            }
        }
    }

    /// The natural logarithm; an error unless the number is above zero.
    pub open spec fn natural_log(self, known: Known) -> Result<AutoNum, Halt<Seq<char>>> {
        self.positive_only(FloatOp::Ln, false, natural_log_message(), known)
    }

    /// The logarithm to base 10; an error unless the number is above zero.
    pub open spec fn decimal_log(self, known: Known) -> Result<AutoNum, Halt<Seq<char>>> {
        self.positive_only(FloatOp::Log10, false, decimal_log_message(), known)
    }
}

/// `x / y` for a `y` that is not zero and divides `x`.
pub open spec fn exact_quotient(x: int, y: int) -> int {
    if (x < 0) == (y < 0) {
        (magnitude(x) / magnitude(y)) as int
    } else {
        -((magnitude(x) / magnitude(y)) as int)
    }
}

/// The product of the integers from 1 to `n`, multiplied up from 1 one
/// factor at a time.
pub open spec fn factorial_up_to(n: nat, known: Known) -> Result<AutoNum, Request>
    decreases n,
{
    if n == 0 {
        Ok(AutoNum::Int(1))
    } else {
        match factorial_up_to((n - 1) as nat, known) {
            Ok(acc) => acc.product(AutoNum::Int(n as i64), known),
            Err(q) => Err(q),
        }
    }
}

/// An exact quotient times the divisor is the dividend.
pub proof fn lemma_exact_quotient(x: int, y: int)
    requires
        y != 0,
        magnitude(x) % magnitude(y) == 0,
    ensures
        exact_quotient(x, y) * y == x,
{
    vstd::arithmetic::div_mod::lemma_fundamental_div_mod(magnitude(x) as int, magnitude(y) as int);
    let q = (magnitude(x) / magnitude(y)) as int;
    let a = magnitude(x) as int;
    let b = magnitude(y) as int;
    assert(a == b * q);
    if (x < 0) == (y < 0) {
        assert(q * y == x) by (nonlinear_arith)
            requires
                a == b * q,
                (x == a && y == b) || (x == -a && y == -b),
        ;
    } else {
        assert((-q) * y == x) by (nonlinear_arith)
            requires
                a == b * q,
                (x == a && y == -b) || (x == -a && y == b),
        ;
    }
}

/// A request that stops a repeated product stops every longer one.
pub proof fn lemma_repeated_stops(base: AutoNum, count: nat, longer: nat, known: Known)
    requires
        count <= longer,
        base.repeated(count, known) is Err,
    ensures
        base.repeated(longer, known) == base.repeated(count, known),
    decreases longer,
{
    if count < longer {
        lemma_repeated_stops(base, count, (longer - 1) as nat, known);
    }
}

/// A request that stops the product up to `n` stops every longer one.
pub proof fn lemma_factorial_stops(n: nat, longer: nat, known: Known)
    requires
        n <= longer,
        factorial_up_to(n, known) is Err,
    ensures
        factorial_up_to(longer, known) == factorial_up_to(n, known),
    decreases longer,
{
    if n < longer {
        lemma_factorial_stops(n, (longer - 1) as nat, known);
    }
}

fn abs_u64(x: i64) -> (r: u64)
    ensures
        r == magnitude(x as int),
{
    if x == i64::MIN {
        9223372036854775808u64
    } else if x < 0 {
        (-x) as u64
    } else {
        x as u64
    }
}

/// The largest integer whose square is at most `x`.
pub fn isqrt(x: u64) -> (r: u64)
    ensures
        is_floor_sqrt(r as int, x as int),
        r == floor_sqrt(x as int),
{
    let mut lo: u64 = 0;
    let mut hi: u64 = 4294967296;
    assert(4294967296u64 * 4294967296u64 > x) by (nonlinear_arith);
    while hi - lo > 1
        invariant
            lo < hi <= 4294967296,
            lo * lo <= x < hi * hi,
        decreases hi - lo,
    {
        let mid: u64 = lo + (hi - lo) / 2;
        assert(mid * mid <= 4294967295 * 4294967295) by (nonlinear_arith)
            requires
                mid <= 4294967295,
        ;
        if mid * mid <= x {
            lo = mid;
        } else {
            hi = mid;
        }
    }
    proof {
        lemma_floor_sqrt(lo as int, x as int);
    }
    lo
}

impl AutoNum {
    /// Whether the number is numerically below zero.
    pub fn is_negative(&self) -> (r: bool)
        ensures
            r == self.below_zero(),
    {
        match self {
            AutoNum::Int(x) => *x < 0,
            AutoNum::Float(f) => f.is_negative(),
        }
    }

    /// Whether the number is numerically zero.
    pub fn is_zero(&self) -> (r: bool)
        ensures
            r == self.zero(),
    {
        match self {
            AutoNum::Int(x) => *x == 0,
            AutoNum::Float(f) => f.is_zero(),
        }
    }

    /// The number as a floating-point number.
    pub fn cast(&self, known: &Known) -> (r: Result<Binary64, Request>)
        ensures
            r == self.as_float(*known),
    {
        match self {
            AutoNum::Int(_) => match known.apply(FloatOp::Cast, *self, AutoNum::Int(0)) {
                Ok(AutoNum::Float(f)) => Ok(f),
                Ok(AutoNum::Int(_)) => Ok(Binary64 { bits: 0 }),
                Err(q) => Err(q),
            },
            AutoNum::Float(f) => Ok(*f),
        }
    }

    /// The floating-point operation `op` on the number.
    pub fn cast_then(&self, op: FloatOp, known: &Known) -> (r: Result<AutoNum, Request>)
        ensures
            r == known.float(op, *self, AutoNum::Int(0)),
    {
        known.apply(op, *self, AutoNum::Int(0))
    }

    /// `op` on two numbers, in integers where both are integers and `op`
    /// has an integer result that fits.
    pub fn auto_checked_binary_op(&self, other: &AutoNum, op: FloatOp, known: &Known) -> (r:
        Result<AutoNum, Request>)
        ensures
            r == self.combined(*other, op, *known),
    {
        match (self, other) {
            (AutoNum::Int(x), AutoNum::Int(y)) => {
                let exact: Option<i64> = match op {
                    FloatOp::Add => x.checked_add(*y),
                    FloatOp::Sub => x.checked_sub(*y),
                    FloatOp::Mul => x.checked_mul(*y),
                    _ => None,
                };
                match exact {
                    Some(v) => Ok(AutoNum::Int(v)),
                    None => known.apply(op, *self, *other),
                }
            },
            _ => known.apply(op, *self, *other),
        }
    }

    /// The sum, in integers where it fits.
    pub fn auto_add(&self, other: &AutoNum, known: &Known) -> (r: Result<AutoNum, Request>)
        ensures
            r == self.sum(*other, *known),
    {
        self.auto_checked_binary_op(other, FloatOp::Add, known)
    }

    /// The difference, in integers where it fits.
    pub fn auto_sub(&self, other: &AutoNum, known: &Known) -> (r: Result<AutoNum, Request>)
        ensures
            r == self.difference(*other, *known),
    {
        self.auto_checked_binary_op(other, FloatOp::Sub, known)
    }

    /// The product, in integers where it fits.
    pub fn auto_mul(&self, other: &AutoNum, known: &Known) -> (r: Result<AutoNum, Request>)
        ensures
            r == self.product(*other, *known),
    {
        self.auto_checked_binary_op(other, FloatOp::Mul, known)
    }

    /// The quotient, in integers where the division leaves no remainder.
    pub fn auto_div(&self, other: &AutoNum, known: &Known) -> (r: Result<AutoNum, Halt<EvalError>>)
        ensures
            told(r) == self.quotient(*other, *known),
    {
        if other.is_zero() {
            return failure("Division by 0");
        }
        match (self, other) {
            (AutoNum::Int(x), AutoNum::Int(y)) => {
                let a: u64 = abs_u64(*x);
                let b: u64 = abs_u64(*y);
                if a % b == 0 {
                    let q: u64 = a / b;
                    if (*x < 0) == (*y < 0) {
                        if q <= 9223372036854775807u64 {
                            return Ok(AutoNum::Int(q as i64));
                        }
                    } else {
                        if q <= 9223372036854775807u64 {
                            return Ok(AutoNum::Int(-(q as i64)));
                        } else if q == 9223372036854775808u64 {
                            return Ok(AutoNum::Int(i64::MIN));
                        }
                    }
                }
                or_await(known.apply(FloatOp::Div, *self, *other))
            },
            _ => or_await(known.apply(FloatOp::Div, *self, *other)),
        }
    }

    /// The number with the opposite sign.
    pub fn auto_negate(&self, known: &Known) -> (r: Result<AutoNum, Request>)
        ensures
            r == self.negation(*known),
    {
        match self {
            AutoNum::Int(x) => if *x != i64::MIN {
                Ok(AutoNum::Int(-*x))
            } else {
                match self.cast(known) {
                    Ok(f) => Ok(AutoNum::Float(f.neg())),
                    Err(q) => Err(q),
                }
            },
            AutoNum::Float(f) => Ok(AutoNum::Float(f.neg())),
        }
    }

    /// The number to the power `other`.
    pub fn auto_pow(&self, other: &AutoNum, known: &Known) -> (r: Result<AutoNum, Request>)
        ensures
            r == self.power(*other, *known),
    {
        match other {
            AutoNum::Int(n) => {
                if *n < 64 && *n > -64 {
                    let count: u64 = abs_u64(*n);
                    let mut product: AutoNum = AutoNum::Int(1);
                    let mut i: u64 = 0;
                    while i < count
                        invariant
                            i <= count,
                            -64 < *n < 64,
                            *other == AutoNum::Int(*n),
                            count == magnitude(*n as int),
                            self.repeated(i as nat, *known) == Ok::<AutoNum, Request>(product),
                        decreases count - i,
                    {
                        match product.auto_mul(self, known) {
                            Ok(p) => {
                                product = p;
                            },
                            Err(q) => {
                                proof {
                                    assert(self.repeated((i + 1) as nat, *known) == Err::<
                                        AutoNum,
                                        Request,
                                    >(q));
                                    lemma_repeated_stops(
                                        *self,
                                        (i + 1) as nat,
                                        count as nat,
                                        *known,
                                    );
                                }
                                return Err(q);
                            },
                        }
                        i += 1;
                    }
                    if *n < 0 {
                        known.apply(FloatOp::Div, AutoNum::Int(1), product)
                    } else {
                        Ok(product)
                    }
                } else {
                    known.apply(FloatOp::Pow, *self, *other)
                }
            },
            AutoNum::Float(_) => known.apply(FloatOp::Pow, *self, *other),
        }
    }

    /// The factorial of the number.
    pub fn auto_factorial(&self, known: &Known) -> (r: Result<AutoNum, Halt<EvalError>>)
        ensures
            told(r) == self.factorial(*known),
    {
        match self {
            AutoNum::Int(n) => {
                if *n < 0 {
                    failure("Cannot take the factorial of a negative number")
                } else {
                    let mut product: AutoNum = AutoNum::Int(1);
                    let mut i: i64 = 0;
                    while i < *n
                        invariant
                            0 <= i <= *n,
                            *self == AutoNum::Int(*n),
                            factorial_up_to(i as nat, *known) == Ok::<AutoNum, Request>(product),
                        decreases *n - i,
                    {
                        i += 1;
                        match product.auto_mul(&AutoNum::Int(i), known) {
                            Ok(p) => {
                                product = p;
                            },
                            Err(q) => {
                                proof {
                                    assert(factorial_up_to(i as nat, *known) == Err::<
                                        AutoNum,
                                        Request,
                                    >(q));
                                    lemma_factorial_stops(i as nat, *n as nat, *known);
                                }
                                return Err(Halt::Awaits(q));
                            },
                        }
                    }
                    Ok(product)
                }
            },
            AutoNum::Float(_) => failure("Cannot take the factorial of a floating point value"),
        }
    }

    /// `op` on a number that is not below zero, nor zero unless
    /// `can_equals_zero`; for any other number the error with the message
    /// `error_msg`.
    pub fn auto_positive_only(
        &self,
        op: FloatOp,
        can_equals_zero: bool,
        error_msg: &str,
        known: &Known,
    ) -> (r: Result<AutoNum, Halt<EvalError>>)
        ensures
            told(r) == self.positive_only(op, can_equals_zero, error_msg@, *known),
    {
        if self.is_negative() || (self.is_zero() && !can_equals_zero) {
            failure(error_msg)
        } else {
            or_await(known.apply(op, *self, AutoNum::Int(0)))
        }
    }

    /// The `n`-th root of the number.
    pub fn auto_root_n(&self, n: i8, known: &Known) -> (r: Result<AutoNum, Halt<EvalError>>)
        ensures
            told(r) == self.root(n, *known),
    {
        if n == 2 {
            match self {
                AutoNum::Int(x) => {
                    if *x < 0 {
                        failure("Cannot take the square root of a negative number")
                    } else {
                        let s: u64 = isqrt(*x as u64);
                        assert(s * s <= 9223372036854775807);
                        if s * s == *x as u64 {
                            assert(s <= 9223372036854775807) by (nonlinear_arith)
                                requires
                                    s * s <= 9223372036854775807,
                            ;
                            Ok(AutoNum::Int(s as i64))
                        } else {
                            or_await(known.apply(FloatOp::Sqrt, *self, AutoNum::Int(0)))
                        }
                    }
                },
                AutoNum::Float(_) => self.auto_positive_only(
                    FloatOp::Sqrt,
                    true,
                    "Cannot take the square root of a negative number",
                    known,
                ),
            }
        } else if n == 3 {
            or_await(known.apply(FloatOp::Cbrt, *self, AutoNum::Int(0)))
        } else {
            let even: bool = ((n as i16) + 128) % 2 == 0;
            if even && self.is_negative() {
                let mut message = String::from_str("Cannot take the ");
                push_decimal(&mut message, n as i64);
                message.append("-root of a negative number");
                Err(Halt::Failed(EvalError { error: message }))
            } else {
                match known.apply(FloatOp::Div, AutoNum::Int(1), AutoNum::Int(n as i64)) {
                    Ok(inverse) => or_await(known.apply(FloatOp::Pow, *self, inverse)),
                    Err(q) => Err(Halt::Awaits(q)),
                }
            }
        }
    }

    /// The natural logarithm of the number.
    pub fn auto_ln(&self, known: &Known) -> (r: Result<AutoNum, Halt<EvalError>>)
        ensures
            told(r) == self.natural_log(*known),
    {
        self.auto_positive_only(
            FloatOp::Ln,
            false,
            "Cannot take the natural log of a non-positive number",
            known,
        )
    }

    /// The logarithm to base 10 of the number.
    pub fn auto_log10(&self, known: &Known) -> (r: Result<AutoNum, Halt<EvalError>>)
        ensures
            told(r) == self.decimal_log(*known),
    {
        self.auto_positive_only(
            FloatOp::Log10,
            false,
            "Cannot take the base-10 log of a non-positive number",
            known,
        )
    }
}

} // verus!
