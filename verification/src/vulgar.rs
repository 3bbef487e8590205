//! The fixed, closed table of Unicode vulgar-fraction glyphs.
//!
//! Eighteen code points each denote one simple fraction.  The forward
//! lookup (glyph to fraction) is total over exactly those glyphs; the
//! reverse lookup (fraction to glyph) is partial: only the eighteen
//! exact canonical values have a glyph.

use crate::rational::Rational;
use vstd::prelude::*;

verus! {

/// The fraction denoted by a vulgar-fraction glyph, or `None` for any
/// other character.
pub open spec fn glyph_fraction(c: char) -> Option<Rational> {
    match c {
        '\u{00bd}' => Some(Rational { numerator: 1, denominator: 2 }),
        '\u{2153}' => Some(Rational { numerator: 1, denominator: 3 }),
        '\u{2154}' => Some(Rational { numerator: 2, denominator: 3 }),
        '\u{00bc}' => Some(Rational { numerator: 1, denominator: 4 }),
        '\u{00be}' => Some(Rational { numerator: 3, denominator: 4 }),
        '\u{2155}' => Some(Rational { numerator: 1, denominator: 5 }),
        '\u{2156}' => Some(Rational { numerator: 2, denominator: 5 }),
        '\u{2157}' => Some(Rational { numerator: 3, denominator: 5 }),
        '\u{2158}' => Some(Rational { numerator: 4, denominator: 5 }),
        '\u{2159}' => Some(Rational { numerator: 1, denominator: 6 }),
        '\u{215a}' => Some(Rational { numerator: 5, denominator: 6 }),
        '\u{2150}' => Some(Rational { numerator: 1, denominator: 7 }),
        '\u{215b}' => Some(Rational { numerator: 1, denominator: 8 }),
        '\u{215c}' => Some(Rational { numerator: 3, denominator: 8 }),
        '\u{215d}' => Some(Rational { numerator: 5, denominator: 8 }),
        '\u{215e}' => Some(Rational { numerator: 7, denominator: 8 }),
        '\u{2151}' => Some(Rational { numerator: 1, denominator: 9 }),
        '\u{2152}' => Some(Rational { numerator: 1, denominator: 10 }),
        _ => None,
    }
}

/// The glyph denoting a fraction, or `None` if the fraction has no
/// glyph.  Only the eighteen exact canonical pairs of the table match.
pub open spec fn glyph_for(r: Rational) -> Option<char> {
    if r == (Rational { numerator: 1, denominator: 2 }) {
        Some('\u{00bd}')
    } else if r == (Rational { numerator: 1, denominator: 3 }) {
        Some('\u{2153}')
    } else if r == (Rational { numerator: 2, denominator: 3 }) {
        Some('\u{2154}')
    } else if r == (Rational { numerator: 1, denominator: 4 }) {
        Some('\u{00bc}')
    } else if r == (Rational { numerator: 3, denominator: 4 }) {
        Some('\u{00be}')
    } else if r == (Rational { numerator: 1, denominator: 5 }) {
        Some('\u{2155}')
    } else if r == (Rational { numerator: 2, denominator: 5 }) {
        Some('\u{2156}')
    } else if r == (Rational { numerator: 3, denominator: 5 }) {
        Some('\u{2157}')
    } else if r == (Rational { numerator: 4, denominator: 5 }) {
        Some('\u{2158}')
    } else if r == (Rational { numerator: 1, denominator: 6 }) {
        Some('\u{2159}')
    } else if r == (Rational { numerator: 5, denominator: 6 }) {
        Some('\u{215a}')
    } else if r == (Rational { numerator: 1, denominator: 7 }) {
        Some('\u{2150}')
    } else if r == (Rational { numerator: 1, denominator: 8 }) {
        Some('\u{215b}')
    } else if r == (Rational { numerator: 3, denominator: 8 }) {
        Some('\u{215c}')
    } else if r == (Rational { numerator: 5, denominator: 8 }) {
        Some('\u{215d}')
    } else if r == (Rational { numerator: 7, denominator: 8 }) {
        Some('\u{215e}')
    } else if r == (Rational { numerator: 1, denominator: 9 }) {
        Some('\u{2151}')
    } else if r == (Rational { numerator: 1, denominator: 10 }) {
        Some('\u{2152}')
    } else {
        None
    }
}

/// The two lookups of the table agree: the reverse lookup yields a
/// glyph only for the exact value the forward lookup assigns to it,
/// and every glyph of the table is found again by the reverse lookup.
pub proof fn lemma_glyph_table_consistent(r: Rational, c: char)
    ensures
        glyph_for(r) == Some(c) ==> glyph_fraction(c) == Some(r),
        glyph_fraction(c) == Some(r) ==> glyph_for(r) == Some(c),
{
}

/// Forward lookup: the fraction a glyph denotes.
pub fn fraction_of_glyph(c: char) -> (r: Option<Rational>)
    ensures
        r == glyph_fraction(c),
{
    match c {
        '\u{00bd}' => Some(Rational { numerator: 1, denominator: 2 }),
        '\u{2153}' => Some(Rational { numerator: 1, denominator: 3 }),
        '\u{2154}' => Some(Rational { numerator: 2, denominator: 3 }),
        '\u{00bc}' => Some(Rational { numerator: 1, denominator: 4 }),
        '\u{00be}' => Some(Rational { numerator: 3, denominator: 4 }),
        '\u{2155}' => Some(Rational { numerator: 1, denominator: 5 }),
        '\u{2156}' => Some(Rational { numerator: 2, denominator: 5 }),
        '\u{2157}' => Some(Rational { numerator: 3, denominator: 5 }),
        '\u{2158}' => Some(Rational { numerator: 4, denominator: 5 }),
        '\u{2159}' => Some(Rational { numerator: 1, denominator: 6 }),
        '\u{215a}' => Some(Rational { numerator: 5, denominator: 6 }),
        '\u{2150}' => Some(Rational { numerator: 1, denominator: 7 }),
        '\u{215b}' => Some(Rational { numerator: 1, denominator: 8 }),
        '\u{215c}' => Some(Rational { numerator: 3, denominator: 8 }),
        '\u{215d}' => Some(Rational { numerator: 5, denominator: 8 }),
        '\u{215e}' => Some(Rational { numerator: 7, denominator: 8 }),
        '\u{2151}' => Some(Rational { numerator: 1, denominator: 9 }),
        '\u{2152}' => Some(Rational { numerator: 1, denominator: 10 }),
        _ => None,
    }
}

/// Whether a character is one of the eighteen vulgar-fraction glyphs.
pub fn is_fraction_symbol(c: &char) -> (b: bool)
    ensures
        b == (glyph_fraction(*c) is Some),
{
    fraction_of_glyph(*c).is_some()
}

/// Reverse lookup: the glyph denoting a fraction, by structural
/// equality with the argument's canonical form.
pub fn glyph_of_fraction(value: &Rational) -> (r: Option<char>)
    ensures
        r == glyph_for(*value),
{
    let n: i64 = value.numerator;
    let d: i64 = value.denominator;
    if n == 1 && d == 2 {
        Some('\u{00bd}')
    } else if n == 1 && d == 3 {
        Some('\u{2153}')
    } else if n == 2 && d == 3 {
        Some('\u{2154}')
    } else if n == 1 && d == 4 {
        Some('\u{00bc}')
    } else if n == 3 && d == 4 {
        Some('\u{00be}')
    } else if n == 1 && d == 5 {
        Some('\u{2155}')
    } else if n == 2 && d == 5 {
        Some('\u{2156}')
    } else if n == 3 && d == 5 {
        Some('\u{2157}')
    } else if n == 4 && d == 5 {
        Some('\u{2158}')
    } else if n == 1 && d == 6 {
        Some('\u{2159}')
    } else if n == 5 && d == 6 {
        Some('\u{215a}')
    } else if n == 1 && d == 7 {
        Some('\u{2150}')
    } else if n == 1 && d == 8 {
        Some('\u{215b}')
    } else if n == 3 && d == 8 {
        Some('\u{215c}')
    } else if n == 5 && d == 8 {
        Some('\u{215d}')
    } else if n == 7 && d == 8 {
        Some('\u{215e}')
    } else if n == 1 && d == 9 {
        Some('\u{2151}')
    } else if n == 1 && d == 10 {
        Some('\u{2152}')
    } else {
        None
    }
}

} // verus!
