use recipers::Rational;

fn rat(n: i64, d: i64) -> Rational {
    Rational::new(n, d).unwrap()
}

#[test]
fn formats_fractions_with_glyphs() {
    assert_eq!(rat(1, 2).format(), "\u{00bd}");
    assert_eq!(rat(7, 2).format(), "3\u{00bd}");
    assert_eq!(rat(-7, 2).format(), "-3\u{00bd}");
}

#[test]
fn formats_fractions_without_glyphs() {
    assert_eq!(rat(112, 11).format(), "10 2/11");
    assert_eq!(rat(-112, 11).format(), "-10 2/11");
    assert_eq!(rat(2, 11).format(), "2/11");
    assert_eq!(rat(-2, 11).format(), "-2/11");
}

#[test]
fn formats_integers() {
    assert_eq!(rat(0, 1).format(), "0");
    assert_eq!(rat(42, 1).format(), "42");
    assert_eq!(rat(-42, 1).format(), "-42");
    assert_eq!(rat(84, 2).format(), "42");
}

#[test]
fn formats_improper_fraction_reduced() {
    assert_eq!(rat(42, 5).format(), "8\u{2156}");
}
