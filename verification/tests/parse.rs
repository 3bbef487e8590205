use recipers::Rational;
use recipers::RationalParseError;

fn rat(n: i64, d: i64) -> Rational {
    Rational::new(n, d).unwrap()
}

#[test]
fn parses_plain_integers() {
    let cases: Vec<(&str, Rational)> = vec![
        ("0", rat(0, 1)),
        ("1", rat(1, 1)),
        ("+1", rat(1, 1)),
        ("-1", rat(-1, 1)),
        ("42", rat(42, 1)),
        ("+42", rat(42, 1)),
        ("-42", rat(-42, 1)),
    ];
    for (input, want) in cases {
        assert_eq!(Rational::from_str(input), Ok(want), "input {:?}", input);
    }
}

#[test]
fn parses_bare_fractions() {
    let cases: Vec<(&str, Rational)> = vec![
        ("1/2", rat(1, 2)),
        ("+1/2", rat(1, 2)),
        ("-1/2", rat(-1, 2)),
        ("1111/2222", rat(1111, 2222)),
        ("+123/124", rat(123, 124)),
        ("-125/126", rat(-125, 126)),
    ];
    for (input, want) in cases {
        assert_eq!(Rational::from_str(input), Ok(want), "input {:?}", input);
    }
}

#[test]
fn parses_vulgar_glyphs() {
    let cases: Vec<(&str, Rational)> = vec![
        ("\u{00bd}", rat(1, 2)),
        ("+\u{2153}", rat(1, 3)),
        ("-\u{2154}", rat(-2, 3)),
    ];
    for (input, want) in cases {
        assert_eq!(Rational::from_str(input), Ok(want), "input {:?}", input);
    }
}

#[test]
fn parses_mixed_numbers_with_glyphs() {
    let cases: Vec<(&str, Rational)> = vec![
        ("42\u{00bd}", rat(42 * 2 + 1, 2)),
        ("+17\u{2153}", rat(17 * 3 + 1, 3)),
        ("-6\u{2154}", rat(-6 * 3 + -2, 3)),
        ("42 \u{00bd}", rat(42 * 2 + 1, 2)),
        ("+17 \u{2153}", rat(17 * 3 + 1, 3)),
        ("-6 \u{2154}", rat(-6 * 3 + -2, 3)),
        ("17 \u{2153}", rat(52, 3)),
    ];
    for (input, want) in cases {
        assert_eq!(Rational::from_str(input), Ok(want), "input {:?}", input);
    }
}

#[test]
fn parses_mixed_numbers_with_plain_fractions() {
    let cases: Vec<(&str, Rational)> = vec![
        ("42 1/2", rat(42 * 2 + 1, 2)),
        ("+17 1/3", rat(17 * 3 + 1, 3)),
        ("-6 2/3", rat(-6 * 3 + -2, 3)),
    ];
    for (input, want) in cases {
        assert_eq!(Rational::from_str(input), Ok(want), "input {:?}", input);
    }
}

#[test]
fn parses_unreduced_input_to_canonical_form() {
    assert_eq!(Rational::from_str("2/4"), Ok(rat(1, 2)));
    assert_eq!(Rational::from_str("42 2/4"), Ok(rat(85, 2)));
}

#[test]
fn rejects_ill_formed_input() {
    let cases: Vec<(&str, RationalParseError)> = vec![
        ("", RationalParseError::UnexpectedEndOfLine),
        ("+", RationalParseError::NumberExpected),
        ("-", RationalParseError::NumberExpected),
        ("+-", RationalParseError::InvalidCharacter('-')),
        ("1/", RationalParseError::NumberExpected),
        ("1/-", RationalParseError::InvalidCharacter('-')),
        ("1/+", RationalParseError::InvalidCharacter('+')),
        ("1/a", RationalParseError::InvalidCharacter('a')),
        ("1//", RationalParseError::InvalidCharacter('/')),
        ("a", RationalParseError::InvalidCharacter('a')),
        ("1 2", RationalParseError::NumberExpected),
        ("1 ", RationalParseError::NumberExpected),
    ];
    for (input, want) in cases {
        assert_eq!(Rational::from_str(input), Err(want), "input {:?}", input);
    }
}

#[test]
fn rejects_unrepresentable_numbers() {
    assert_eq!(
        Rational::from_str("99999999999999999999999"),
        Err(RationalParseError::InvalidNumber)
    );
    assert_eq!(Rational::from_str("1/0"), Err(RationalParseError::InvalidNumber));
    assert_eq!(
        Rational::from_str("9223372036854775808"),
        Err(RationalParseError::InvalidNumber)
    );
    assert_eq!(Rational::from_str("9223372036854775807"), Ok(rat(i64::MAX, 1)));
}

#[test]
fn error_messages() {
    assert_eq!(
        RationalParseError::UnexpectedEndOfLine.message(),
        "unexpected end of line"
    );
    assert_eq!(RationalParseError::InvalidNumber.message(), "invalid number");
    assert_eq!(RationalParseError::NumberExpected.message(), "number expected");
    assert_eq!(RationalParseError::InvalidCharacter('x').message(), "invalid character");
}
