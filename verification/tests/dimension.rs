use unitcalc::units::Dimension;

fn dim(e: [i8; 7], denom: i8) -> Dimension {
    Dimension::new(e[0], e[1], e[2], e[3], e[4], e[5], e[6], denom)
}

fn length(n: i8, d: i8) -> Dimension {
    dim([0, n, 0, 0, 0, 0, 0], d)
}

fn overflow<T: std::fmt::Debug>(r: Result<T, unitcalc::ast::EvalError>) {
    match r {
        Err(e) => assert_eq!(e.error, "overflow error in the calculation of units"),
        Ok(v) => panic!("no overflow: {v:?}"),
    }
}

#[test]
fn dimension_is_kept_in_lowest_terms() {
    let a = dim([2, 4, -6, 0, 0, 0, 0], 2);
    let b = dim([1, 2, -3, 0, 0, 0, 0], 1);
    assert_eq!(a, b);
    assert_eq!(a.to_str(), "kg m^2 s^-3");
    assert_eq!(length(3, 6), length(1, 2));
    assert_eq!(length(-128, 64), length(-2, 1));
    assert_eq!(length(0, 5), Dimension::none());
    assert_eq!(dim([6, 9, 0, 0, 0, 0, 0], 12), dim([2, 3, 0, 0, 0, 0, 0], 4));
    assert_eq!(a.simplify(), a);
}

#[test]
fn no_units() {
    assert!(Dimension::none().no_units());
    assert!(dim([0, 0, 0, 0, 0, 0, 0], 7).no_units());
    assert!(!length(1, 1).no_units());
    assert!(!dim([0, 0, 0, 0, 0, 0, -1], 1).no_units());
}

#[test]
fn written_in_the_symbols_of_the_base_units() {
    assert_eq!(Dimension::none().to_str(), "");
    assert_eq!(dim([1, 0, 0, 0, 0, 0, 0], 1).to_str(), "kg");
    assert_eq!(dim([1, 1, 1, 1, 1, 1, 1], 1).to_str(), "kg m s A K mol cd");
    assert_eq!(dim([0, 2, -1, 0, 0, 0, 0], 1).to_str(), "m^2 s^-1");
    assert_eq!(length(1, 2).to_str(), "m^1/2");
    assert_eq!(dim([2, 1, -3, 0, 0, 0, 0], 2).to_str(), "kg m^1/2 s^-3/2");
    assert_eq!(dim([0, 0, 0, 0, 0, -128, 127], 1).to_str(), "mol^-128 cd^127");
    assert_eq!(dim([0, 0, 0, 0, 0, 0, -1], 127).to_str(), "cd^-1/127");
    assert_eq!(length(1, 1).to_si_units_str(), "m");
}

#[test]
fn product_and_quotient() {
    let force = dim([1, 1, -2, 0, 0, 0, 0], 1);
    let area = length(2, 1);
    assert_eq!(force.combine(&area, true).unwrap(), dim([1, -1, -2, 0, 0, 0, 0], 1));
    assert_eq!(force.combine(&area, false).unwrap(), dim([1, 3, -2, 0, 0, 0, 0], 1));
    assert_eq!(length(1, 2).combine(&length(1, 3), false).unwrap(), length(5, 6));
    assert_eq!(length(1, 2).combine(&length(1, 3), true).unwrap(), length(1, 6));
    assert_eq!(length(1, 2).combine(&length(1, 2), false).unwrap(), length(1, 1));
    assert_eq!(length(1, 2).combine(&length(1, 2), true).unwrap(), Dimension::none());
    assert_eq!(force.combine(&Dimension::none(), false).unwrap(), force);
    assert_eq!(length(1, 6).combine(&length(1, 10), false).unwrap(), length(4, 15));
}

#[test]
fn product_does_not_depend_on_the_order() {
    let dims = [
        Dimension::none(),
        length(1, 1),
        length(1, 2),
        length(-3, 7),
        dim([1, 1, -2, 0, 0, 0, 0], 1),
        dim([100, -100, 0, 5, 0, 0, 1], 3),
        length(127, 1),
        length(1, 127),
    ];
    for a in dims {
        for b in dims {
            let ab = a.combine(&b, false);
            let ba = b.combine(&a, false);
            match (ab, ba) {
                (Ok(x), Ok(y)) => assert_eq!(x, y),
                (Err(x), Err(y)) => assert_eq!(x.error, y.error),
                _ => panic!("one order overflowed and the other did not"),
            }
        }
    }
}

#[test]
fn overflow_in_a_product() {
    overflow(length(100, 1).combine(&length(100, 1), false));
    overflow(length(-100, 1).combine(&length(100, 1), true));
    overflow(length(1, 64).combine(&length(1, 3), false));
    overflow(length(127, 2).combine(&length(1, 3), false));
    assert_eq!(length(127, 1).combine(&length(-128, 1), false).unwrap(), length(-1, 1));
}

#[test]
fn powers_of_dimensions() {
    assert_eq!(length(1, 1).pow(2).unwrap(), length(2, 1));
    assert_eq!(length(1, 2).pow(2).unwrap(), length(1, 1));
    assert_eq!(length(3, 1).pow(-2).unwrap(), length(-6, 1));
    assert_eq!(length(3, 7).pow(0).unwrap(), Dimension::none());
    assert_eq!(length(-128, 1).pow(1).unwrap(), length(-128, 1));
    overflow(length(64, 1).pow(2));
    overflow(length(-128, 1).pow(-1));
    overflow(dim([1, 0, 0, 0, 0, 0, 43], 1).pow(3));
}

#[test]
fn roots_of_dimensions() {
    assert_eq!(length(2, 1).root(2).unwrap(), length(1, 1));
    assert_eq!(length(1, 1).root(2).unwrap(), length(1, 2));
    assert_eq!(length(1, 3).root(1).unwrap(), length(1, 3));
    assert_eq!(Dimension::none().root(127).unwrap(), Dimension::none());
    assert_eq!(length(1, 1).root(127).unwrap(), length(1, 127));
    overflow(length(1, 2).root(64));
    overflow(length(1, 127).root(2));
    for n in [0, -1, -128] {
        match length(1, 1).root(n) {
            Err(e) => {
                assert_eq!(e.error, "cannot take a root of units unless its index is positive")
            }
            Ok(d) => panic!("a root with the index {n}: {d:?}"),
        }
    }
}

#[test]
fn root_of_a_power_is_the_dimension() {
    let dims = [
        Dimension::none(),
        length(1, 1),
        length(1, 2),
        length(-3, 7),
        dim([1, 1, -2, 0, 0, 0, 0], 1),
        dim([10, -10, 0, 5, 0, 0, 1], 3),
        length(1, 63),
        length(1, 64),
        length(60, 1),
    ];
    for d in dims {
        for n in [1, 2, 3, 5] {
            if let Ok(powered) = d.pow(n) {
                if let Ok(back) = powered.root(n) {
                    assert_eq!(back, d);
                }
            }
        }
    }
    assert_eq!(length(1, 64).pow(2).unwrap().root(2).unwrap(), length(1, 64));
    assert_eq!(length(60, 1).pow(2).unwrap().root(2).unwrap(), length(60, 1));
    overflow(length(1, 65).pow(2).unwrap().root(2));
}
