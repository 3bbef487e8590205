use recipers::Rational;

fn rat(n: i64, d: i64) -> Rational {
    Rational::new(n, d).unwrap()
}

fn assert_round_trip(r: Rational) {
    let text = r.format();
    assert_eq!(Rational::from_str(&text), Ok(r), "text {:?}", text);
}

#[test]
fn round_trip_zero() {
    assert_round_trip(Rational::zero());
}

#[test]
fn round_trip_negative_proper_fraction() {
    assert_round_trip(rat(-2, 11));
}

#[test]
fn round_trip_improper_fraction() {
    assert_round_trip(rat(23, 7));
}

#[test]
fn round_trip_mixed_number() {
    assert_round_trip(rat(112, 11));
    assert_round_trip(rat(-112, 11));
}

#[test]
fn round_trip_glyph_values() {
    let glyph_values: Vec<(i64, i64)> = vec![
        (1, 2),
        (1, 3),
        (2, 3),
        (1, 4),
        (3, 4),
        (1, 5),
        (2, 5),
        (3, 5),
        (4, 5),
        (1, 6),
        (5, 6),
        (1, 7),
        (1, 8),
        (3, 8),
        (5, 8),
        (7, 8),
        (1, 9),
        (1, 10),
    ];
    for (n, d) in glyph_values {
        assert_round_trip(rat(n, d));
    }
}

#[test]
fn round_trip_extremes() {
    assert_round_trip(rat(i64::MAX, 1));
    assert_round_trip(rat(i64::MIN + 1, 1));
    assert_round_trip(rat(i64::MAX, 2));
}
