use unitcalc::autonum::AutoNum;
use unitcalc::binary64::Binary64;
use unitcalc::floats::{FloatCall, FloatOp, FormatCall, FormatStyle, Known, Request};

fn pack(x: f64) -> Binary64 {
    Binary64::from_bits(x.to_bits())
}

#[test]
fn nothing_is_known_at_first() {
    let known = Known::new();
    let call = FloatCall { op: FloatOp::Add, lhs: AutoNum::Int(1), rhs: AutoNum::Int(2) };
    assert_eq!(known.lookup_arith(&call), None);
    assert_eq!(known.lookup_literal(0, 3), None);
    let format = FormatCall { style: FormatStyle::Fixed, digits: 2, value: pack(1.0) };
    assert_eq!(known.lookup_format(&format), None);
    assert_eq!(known.apply(FloatOp::Add, AutoNum::Int(1), AutoNum::Int(2)), Err(Request::Arith(call)));
    assert_eq!(known.compute(FloatOp::Add, AutoNum::Int(1), AutoNum::Int(2)), Err(Request::Arith(call)));
    assert_eq!(known.literal_at(0, 3), Err(Request::Literal { start: 0, end: 3 }));
    assert_eq!(known.write(format), Err(Request::Format(format)));
}

#[test]
fn what_is_recorded_is_known() {
    let mut known = Known::new();
    let add = FloatCall { op: FloatOp::Add, lhs: AutoNum::Int(1), rhs: AutoNum::Int(2) };
    let sub = FloatCall { op: FloatOp::Sub, lhs: AutoNum::Int(1), rhs: AutoNum::Int(2) };
    let swapped = FloatCall { op: FloatOp::Add, lhs: AutoNum::Int(2), rhs: AutoNum::Int(1) };
    known.record_arith(add, pack(3.0));
    known.record_arith(sub, pack(-1.0));
    assert_eq!(known.lookup_arith(&add), Some(pack(3.0)));
    assert_eq!(known.lookup_arith(&sub), Some(pack(-1.0)));
    assert_eq!(known.lookup_arith(&swapped), None);
    assert_eq!(
        known.apply(FloatOp::Add, AutoNum::Int(1), AutoNum::Int(2)),
        Ok(AutoNum::Float(pack(3.0)))
    );
    assert_eq!(known.compute(FloatOp::Sub, AutoNum::Int(1), AutoNum::Int(2)), Ok(pack(-1.0)));

    known.record_literal(2, 5, pack(1.5));
    assert_eq!(known.lookup_literal(2, 5), Some(pack(1.5)));
    assert_eq!(known.lookup_literal(2, 4), None);
    assert_eq!(known.literal_at(2, 5), Ok(pack(1.5)));

    let format = FormatCall { style: FormatStyle::Fixed, digits: 2, value: pack(1.0) };
    let other = FormatCall { style: FormatStyle::Exponent, digits: 2, value: pack(1.0) };
    known.record_format(format, String::from("1.00"));
    assert_eq!(known.lookup_format(&format), Some(String::from("1.00")));
    assert_eq!(known.lookup_format(&other), None);
    assert_eq!(known.write(format), Ok(String::from("1.00")));
    assert_eq!(known.lookup_arith(&add), Some(pack(3.0)));
}

#[test]
fn the_earlier_of_two_results_counts() {
    let mut known = Known::new();
    let add = FloatCall { op: FloatOp::Add, lhs: AutoNum::Int(1), rhs: AutoNum::Int(2) };
    known.record_arith(add, pack(3.0));
    known.record_arith(add, pack(4.0));
    assert_eq!(known.lookup_arith(&add), Some(pack(3.0)));
    known.record_literal(0, 1, pack(1.0));
    known.record_literal(0, 1, pack(2.0));
    assert_eq!(known.lookup_literal(0, 1), Some(pack(1.0)));
    let format = FormatCall { style: FormatStyle::Fixed, digits: 0, value: pack(1.0) };
    known.record_format(format, String::from("1"));
    known.record_format(format, String::from("one"));
    assert_eq!(known.lookup_format(&format), Some(String::from("1")));
}

#[test]
fn a_zero_and_its_negative_are_different_operands() {
    let mut known = Known::new();
    let plus = FloatCall { op: FloatOp::Sqrt, lhs: AutoNum::Float(pack(0.0)), rhs: AutoNum::Int(0) };
    let minus = FloatCall { op: FloatOp::Sqrt, lhs: AutoNum::Float(pack(-0.0)), rhs: AutoNum::Int(0) };
    known.record_arith(plus, pack(0.0));
    assert_eq!(known.lookup_arith(&minus), None);
}
