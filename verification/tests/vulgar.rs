use recipers::vulgar::{fraction_of_glyph, glyph_of_fraction, is_fraction_symbol};
use recipers::MixedFraction;
use recipers::Rational;

fn rat(n: i64, d: i64) -> Rational {
    Rational::new(n, d).unwrap()
}

#[test]
fn forward_lookup_of_glyphs() {
    assert_eq!(fraction_of_glyph('\u{00bd}'), Some(rat(1, 2)));
    assert_eq!(fraction_of_glyph('\u{2154}'), Some(rat(2, 3)));
    assert_eq!(fraction_of_glyph('\u{2152}'), Some(rat(1, 10)));
    assert_eq!(fraction_of_glyph('x'), None);
    assert_eq!(fraction_of_glyph('7'), None);
}

#[test]
fn glyph_symbol_classification() {
    assert!(is_fraction_symbol(&'\u{00bd}'));
    assert!(is_fraction_symbol(&'\u{215e}'));
    assert!(!is_fraction_symbol(&'/'));
    assert!(!is_fraction_symbol(&'3'));
}

#[test]
fn reverse_lookup_finds_only_exact_canonical_values() {
    assert_eq!(glyph_of_fraction(&rat(1, 2)), Some('\u{00bd}'));
    assert_eq!(glyph_of_fraction(&rat(2, 4)), Some('\u{00bd}'));
    assert_eq!(glyph_of_fraction(&rat(7, 8)), Some('\u{215e}'));
    assert_eq!(glyph_of_fraction(&rat(2, 11)), None);
    assert_eq!(glyph_of_fraction(&rat(3, 2)), None);
}

#[test]
fn mixed_fraction_whole_part() {
    let m = MixedFraction { sign: 1, number: 3, numerator: 1, denominator: 2 };
    assert_eq!(m.get_number(), Some(3));
    let none = MixedFraction { sign: 1, number: 0, numerator: 1, denominator: 2 };
    assert_eq!(none.get_number(), None);
}

#[test]
fn mixed_fraction_fraction_part() {
    let m = MixedFraction { sign: 1, number: 3, numerator: 5, denominator: 2 };
    assert_eq!(m.get_fraction(), Some(rat(1, 2)));
    let whole = MixedFraction { sign: 1, number: 3, numerator: 4, denominator: 2 };
    assert_eq!(whole.get_fraction(), None);
}

#[test]
fn mixed_fraction_glyph() {
    let m = MixedFraction { sign: 1, number: 0, numerator: 2, denominator: 4 };
    assert_eq!(m.vulgar_fraction(), Some('\u{00bd}'));
    let plain = MixedFraction { sign: 1, number: 0, numerator: 2, denominator: 11 };
    assert_eq!(plain.vulgar_fraction(), None);
}

#[test]
fn payload_combines_to_canonical_value() {
    let m = MixedFraction { sign: -1, number: 6, numerator: 2, denominator: 3 };
    assert_eq!(m.to_rational(), Ok(rat(-20, 3)));
    let zero_den = MixedFraction { sign: 1, number: 1, numerator: 0, denominator: 0 };
    assert_eq!(
        zero_den.to_rational(),
        Err(recipers::RationalParseError::InvalidNumber)
    );
}
