use recipers::rational::RationalError;
use recipers::Rational;

fn rat(n: i64, d: i64) -> Rational {
    Rational::new(n, d).unwrap()
}

#[test]
fn canonical_form_of_constructed_values() {
    let cases: Vec<(i64, i64)> = vec![
        (1, 2),
        (2, 4),
        (-5, 2),
        (5, -2),
        (0, 7),
        (42, 6),
        (-36, -24),
        (7, 1),
        (1000000, 10),
    ];
    for (n, d) in cases {
        let r = rat(n, d);
        assert!(r.denominator > 0);
        let mut a = r.numerator.unsigned_abs();
        let mut b = r.denominator.unsigned_abs();
        while b != 0 {
            let t = a % b;
            a = b;
            b = t;
        }
        assert_eq!(a, 1, "gcd of |{}| and {} must be 1", r.numerator, r.denominator);
    }
}

#[test]
fn zero_is_unique() {
    assert_eq!(rat(0, 5), Rational::zero());
    assert_eq!(rat(0, -17), Rational::zero());
    assert_eq!(Rational::zero().numerator, 0);
    assert_eq!(Rational::zero().denominator, 1);
}

#[test]
fn equality_under_non_unique_input() {
    assert_eq!(rat(2, 4), rat(1, 2));
    assert_eq!(rat(-5, 2), rat(5, -2));
}

#[test]
fn construction_fails_on_zero_denominator() {
    assert_eq!(Rational::new(3, 0), Err(RationalError::DivisionByZero));
}

#[test]
fn integer_conversion() {
    let r = Rational::from_integer(-42);
    assert_eq!(r.numerator, -42);
    assert_eq!(r.denominator, 1);
    assert_eq!(Rational::from_integer(1), Rational::one());
}

#[test]
fn addition() {
    assert_eq!(rat(1, 2).add(rat(1, 3)), rat(5, 6));
    assert_eq!(rat(1, 2).add(rat(1, 2)), Rational::one());
    assert_eq!(rat(-1, 2).add(rat(1, 2)), Rational::zero());
}

#[test]
fn subtraction() {
    assert_eq!(rat(1, 2).sub(rat(1, 3)), rat(1, 6));
    assert_eq!(rat(1, 4).sub(rat(1, 2)), rat(-1, 4));
}

#[test]
fn multiplication() {
    assert_eq!(rat(2, 3).mul(rat(3, 4)), rat(1, 2));
    assert_eq!(rat(-2, 3).mul(rat(3, 2)), Rational::from_integer(-1));
}

#[test]
fn division() {
    assert_eq!(rat(1, 2).div(rat(1, 4)), Ok(Rational::from_integer(2)));
    assert_eq!(rat(3, 7).div(rat(3, 7)), Ok(Rational::one()));
    assert_eq!(rat(1, 2).div(Rational::zero()), Err(RationalError::DivisionByZero));
}

#[test]
fn additive_identity() {
    let samples: Vec<Rational> = vec![rat(3, 7), rat(-9, 4), Rational::zero(), rat(5, 1)];
    for a in samples {
        assert_eq!(a.add(Rational::zero()), a);
    }
}

#[test]
fn multiplicative_identity() {
    let samples: Vec<Rational> = vec![rat(3, 7), rat(-9, 4), Rational::zero(), rat(5, 1)];
    for a in samples {
        assert_eq!(a.mul(Rational::one()), a);
    }
}

#[test]
fn subtracting_self_gives_zero() {
    let samples: Vec<Rational> = vec![rat(3, 7), rat(-9, 4), Rational::zero(), rat(5, 1)];
    for a in samples {
        assert_eq!(a.sub(a), Rational::zero());
    }
}

#[test]
fn addition_commutes_and_associates() {
    let samples: Vec<(Rational, Rational, Rational)> = vec![
        (rat(1, 2), rat(1, 3), rat(1, 5)),
        (rat(-3, 4), rat(2, 7), rat(5, 6)),
        (rat(0, 1), rat(-1, 9), rat(4, 3)),
    ];
    for (a, b, c) in samples {
        assert_eq!(a.add(b), b.add(a));
        assert_eq!(a.add(b).add(c), a.add(b.add(c)));
    }
}

#[test]
fn multiplication_commutes_and_associates() {
    let samples: Vec<(Rational, Rational, Rational)> = vec![
        (rat(1, 2), rat(1, 3), rat(1, 5)),
        (rat(-3, 4), rat(2, 7), rat(5, 6)),
        (rat(0, 1), rat(-1, 9), rat(4, 3)),
    ];
    for (a, b, c) in samples {
        assert_eq!(a.mul(b), b.mul(a));
        assert_eq!(a.mul(b).mul(c), a.mul(b.mul(c)));
    }
}
