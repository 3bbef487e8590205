//! The formatter: renders a canonical fraction into the most natural
//! of the equivalent textual forms.
//!
//! The sign comes first, then the whole part if there is one, then
//! the proper fractional remainder: as a vulgar-fraction glyph where
//! the table has one (directly after the whole part), otherwise as
//! `numerator/denominator` separated from the whole part by a single
//! space.  Zero is rendered as `"0"`.

use crate::parse::MixedFraction;
use crate::rational::{gcd, lemma_normalized_identity, normalized, Rational};
use crate::vulgar::glyph_for;
use vstd::math::abs;
use vstd::prelude::*;

verus! {

/// The decimal digit character for a value below ten.
pub open spec fn digit_char(d: nat) -> char {
    if d == 0 {
        '0'
    } else if d == 1 {
        '1'
    } else if d == 2 {
        '2'
    } else if d == 3 {
        '3'
    } else if d == 4 {
        '4'
    } else if d == 5 {
        '5'
    } else if d == 6 {
        '6'
    } else if d == 7 {
        '7'
    } else if d == 8 {
        '8'
    } else {
        '9'
    }
}

/// The decimal digit string of `n`, most significant digit first.
pub open spec fn dec_digits(n: nat) -> Seq<char>
    decreases n,
{
    if n < 10 {
        seq![digit_char(n)]
    } else {
        dec_digits(n / 10) + seq![digit_char(n % 10)]
    }
}

/// The textual form of a canonical fraction.
pub open spec fn spec_format(r: Rational) -> Seq<char> {
    let mag = abs(r.numerator as int);
    let den = r.denominator as nat;
    let whole = mag / den;
    let rem = mag % den;
    let sign = if r.numerator < 0 {
        seq!['-']
    } else {
        Seq::<char>::empty()
    };
    if rem == 0 {
        if whole == 0 {
            seq!['0']
        } else {
            sign + dec_digits(whole)
        }
    } else {
        match glyph_for(Rational { numerator: rem as i64, denominator: r.denominator }) {
            Some(c) => if whole == 0 {
                sign + seq![c]
            } else {
                sign + dec_digits(whole) + seq![c]
            },
            None => if whole == 0 {
                sign + dec_digits(rem) + seq!['/'] + dec_digits(den)
            } else {
                sign + dec_digits(whole) + seq![' '] + dec_digits(rem) + seq!['/'] + dec_digits(
                    den,
                )
            },
        }
    }
}

/// Relies on `String::push`: appends the character at the end of the
/// string.
#[verifier::external_body]
fn push_char(s: &mut String, c: char)
    ensures
        final(s)@ == old(s)@.push(c),
{
    s.push(c)
}

/// The decimal digit character for a value below ten, executed.
fn digit_char_of(d: u64) -> (c: char)
    requires
        d < 10,
    ensures
        c == digit_char(d as nat),
{
    match d {
        0 => '0',
        1 => '1',
        2 => '2',
        3 => '3',
        4 => '4',
        5 => '5',
        6 => '6',
        7 => '7',
        8 => '8',
        _ => '9',
    }
}

/// Appends the decimal digits of `n` to `out`.
fn push_decimal(out: &mut String, n: u64)
    ensures
        final(out)@ == old(out)@ + dec_digits(n as nat),
    decreases n,
{
    if n < 10 {
        let c: char = digit_char_of(n);
        push_char(out, c);
        proof {
            assert(final(out)@ =~= old(out)@ + dec_digits(n as nat));
        }
    } else {
        push_decimal(out, n / 10);
        let c: char = digit_char_of(n % 10);
        push_char(out, c);
        proof {
            assert(final(out)@ =~= old(out)@ + dec_digits(n as nat));
        }
    }
}

impl Rational {
    /// Renders the fraction as text: sign, whole part, and the
    /// fractional remainder as a glyph or as `n/d`.  Re-parsing the
    /// result always reproduces the same canonical value.
    pub fn format(&self) -> (s: String)
        requires
            self.is_canonical(),
        ensures
            s@ == spec_format(*self),
    {
        let m = MixedFraction::from_rational(self);
        proof {
            let magn = abs(self.numerator as int);
            let den = self.denominator as nat;
            vstd::arithmetic::div_mod::lemma_mod_bound(magn as int, den as int);
            vstd::arithmetic::div_mod::lemma_fundamental_div_mod(magn as int, den as int);
            let rem = magn % den;
            if rem != 0 {
                vstd::arithmetic::div_mod::lemma_small_mod(rem, den);
                assert(gcd(magn, den) == gcd(den, magn % den));
                assert(gcd(rem, den) == gcd(den, rem % den));
                assert(gcd(rem, den) == 1);
                lemma_normalized_identity(
                    Rational { numerator: rem as i64, denominator: self.denominator },
                );
            }
        }
        let mut out = String::new();
        if m.sign < 0 {
            push_char(&mut out, '-');
        }
        if m.numerator == 0 {
            if m.number == 0 {
                push_char(&mut out, '0');
                proof {
                    assert(abs(self.numerator as int) % (self.denominator as nat) == 0);
                    assert(abs(self.numerator as int) / (self.denominator as nat) == 0);
                    assert(abs(self.numerator as int) == 0);
                    assert(self.numerator == 0);
                    assert(out@ =~= spec_format(*self));
                }
            } else {
                push_decimal(&mut out, m.number);
                proof {
                    assert(out@ =~= spec_format(*self));
                }
            }
        } else {
            match m.vulgar_fraction() {
                Some(c) => {
                    if m.number > 0 {
                        push_decimal(&mut out, m.number);
                    }
                    push_char(&mut out, c);
                    proof {
                        assert(out@ =~= spec_format(*self));
                    }
                },
                None => {
                    if m.number > 0 {
                        push_decimal(&mut out, m.number);
                        push_char(&mut out, ' ');
                    }
                    push_decimal(&mut out, m.numerator);
                    push_char(&mut out, '/');
                    push_decimal(&mut out, m.denominator);
                    proof {
                        assert(out@ =~= spec_format(*self));
                    }
                },
            }
        }
        out
    }
}

} // verus!
