//! The formatter and the parser agree: re-parsing any formatted
//! canonical fraction reproduces the same value.

use crate::format::{dec_digits, digit_char, spec_format};
use crate::parse::{
    combine, digit_value, is_digit, lemma_run_from_append, lemma_run_from_one,
    lemma_run_states_is_run_from, run_from, run_states, spec_parse, MixedFraction, ParseState,
    RationalParseError,
};
use crate::rational::{gcd, lemma_normalized_identity, norm_den, Rational};
use crate::vulgar::{glyph_for, glyph_fraction, lemma_glyph_table_consistent};
use vstd::math::abs;
use vstd::prelude::*;

verus! {

/// A decimal digit character is exactly that for the recognizer: not
/// a glyph, a digit, and worth its value.
proof fn lemma_digit_char_class(d: nat)
    requires
        d < 10,
    ensures
        glyph_fraction(digit_char(d)) is None,
        is_digit(digit_char(d)),
        digit_value(digit_char(d)) == d,
{
}

/// Scanning the decimal digits of `n` from the start state reaches
/// `Q2` with `n` as the whole number.
proof fn lemma_scan_whole_q0(n: nat)
    requires
        n <= u64::MAX,
    ensures
        run_from(ParseState::Q0, dec_digits(n)) == Ok::<ParseState, RationalParseError>(
            ParseState::Q2(
                MixedFraction { sign: 1, number: n as u64, numerator: 0, denominator: 1 },
            ),
        ),
    decreases n,
{
    if n < 10 {
        lemma_digit_char_class(n);
        lemma_run_from_one(ParseState::Q0, digit_char(n));
    } else {
        lemma_scan_whole_q0(n / 10);
        lemma_digit_char_class(n % 10);
        let pre = dec_digits(n / 10);
        let last = seq![digit_char(n % 10)];
        lemma_run_from_append(ParseState::Q0, pre, last);
        let mid = ParseState::Q2(
            MixedFraction { sign: 1, number: (n / 10) as u64, numerator: 0, denominator: 1 },
        );
        lemma_run_from_one(mid, digit_char(n % 10));
        vstd::arithmetic::div_mod::lemma_fundamental_div_mod(n as int, 10);
    }
}

/// Scanning the decimal digits of `n` from the signed state `Q1`
/// reaches `Q2` with `n` as the whole number, keeping the sign.
proof fn lemma_scan_whole_q1(m: MixedFraction, n: nat)
    requires
        n <= u64::MAX,
    ensures
        run_from(ParseState::Q1(m), dec_digits(n)) == Ok::<ParseState, RationalParseError>(
            ParseState::Q2(
                MixedFraction { sign: m.sign, number: n as u64, numerator: 0, denominator: 1 },
            ),
        ),
    decreases n,
{
    if n < 10 {
        lemma_digit_char_class(n);
        lemma_run_from_one(ParseState::Q1(m), digit_char(n));
    } else {
        lemma_scan_whole_q1(m, n / 10);
        lemma_digit_char_class(n % 10);
        let pre = dec_digits(n / 10);
        let last = seq![digit_char(n % 10)];
        lemma_run_from_append(ParseState::Q1(m), pre, last);
        let mid = ParseState::Q2(
            MixedFraction { sign: m.sign, number: (n / 10) as u64, numerator: 0, denominator: 1 },
        );
        lemma_run_from_one(mid, digit_char(n % 10));
        vstd::arithmetic::div_mod::lemma_fundamental_div_mod(n as int, 10);
    }
}

/// Scanning the decimal digits of `n` after a slash reaches `Q4` with
/// `n` as the denominator.
proof fn lemma_scan_den_q3(m: MixedFraction, n: nat)
    requires
        n <= u64::MAX,
    ensures
        run_from(ParseState::Q3(m), dec_digits(n)) == Ok::<ParseState, RationalParseError>(
            ParseState::Q4(
                MixedFraction {
                    sign: m.sign,
                    number: m.number,
                    numerator: m.numerator,
                    denominator: n as u64,
                },
            ),
        ),
    decreases n,
{
    if n < 10 {
        lemma_digit_char_class(n);
        lemma_run_from_one(ParseState::Q3(m), digit_char(n));
    } else {
        lemma_scan_den_q3(m, n / 10);
        lemma_digit_char_class(n % 10);
        let pre = dec_digits(n / 10);
        let last = seq![digit_char(n % 10)];
        lemma_run_from_append(ParseState::Q3(m), pre, last);
        let mid = ParseState::Q4(
            MixedFraction {
                sign: m.sign,
                number: m.number,
                numerator: m.numerator,
                denominator: (n / 10) as u64,
            },
        );
        lemma_run_from_one(mid, digit_char(n % 10));
        vstd::arithmetic::div_mod::lemma_fundamental_div_mod(n as int, 10);
    }
}

/// Scanning the decimal digits of `n` after the interior space
/// reaches `Q7` with `n` as the numerator of the mixed fraction.
proof fn lemma_scan_num_q6(m: MixedFraction, n: nat)
    requires
        n <= u64::MAX,
    ensures
        run_from(ParseState::Q6(m), dec_digits(n)) == Ok::<ParseState, RationalParseError>(
            ParseState::Q7(
                MixedFraction {
                    sign: m.sign,
                    number: m.number,
                    numerator: n as u64,
                    denominator: 0,
                },
            ),
        ),
    decreases n,
{
    if n < 10 {
        lemma_digit_char_class(n);
        lemma_run_from_one(ParseState::Q6(m), digit_char(n));
    } else {
        lemma_scan_num_q6(m, n / 10);
        lemma_digit_char_class(n % 10);
        let pre = dec_digits(n / 10);
        let last = seq![digit_char(n % 10)];
        lemma_run_from_append(ParseState::Q6(m), pre, last);
        let mid = ParseState::Q7(
            MixedFraction {
                sign: m.sign,
                number: m.number,
                numerator: (n / 10) as u64,
                denominator: 0,
            },
        );
        lemma_run_from_one(mid, digit_char(n % 10));
        vstd::arithmetic::div_mod::lemma_fundamental_div_mod(n as int, 10);
    }
}

/// A payload that carries exactly the sign, magnitude and denominator
/// of a canonical fraction combines back to that fraction.
proof fn lemma_combine_payload(m: MixedFraction, r: Rational)
    requires
        r.is_canonical(),
        r.numerator > i64::MIN,
        m.sign == 1 || m.sign == -1,
        (m.sign == 1) <==> r.numerator >= 0,
        m.denominator == r.denominator,
        m.number * m.denominator + m.numerator == abs(r.numerator as int),
    ensures
        combine(m) == Ok::<Rational, RationalParseError>(r),
{
    let n = r.numerator as int;
    let d = r.denominator as int;
    let mag = m.number * m.denominator + m.numerator;
    assert(mag <= i64::MAX);
    assert(m.sign * mag == n) by {
        if m.sign == 1 {
            assert(abs(n) == n);
            assert(1 * mag == mag);
        } else {
            assert(abs(n) == -n);
            assert(-1 * mag == -mag);
        }
    }
    assert(gcd(abs(n), d as nat) == 1);
    vstd::arithmetic::div_mod::lemma_div_basics(d);
    assert(norm_den(n, d) == d);
    lemma_normalized_identity(r);
}

/// A canonical fraction whose magnitude is an exact multiple of its
/// denominator is an integer: the denominator is one.
proof fn lemma_exact_division_is_integer(r: Rational)
    requires
        r.is_canonical(),
        abs(r.numerator as int) % (r.denominator as nat) == 0,
    ensures
        r.denominator == 1,
{
    let mag = abs(r.numerator as int);
    let den = r.denominator as nat;
    assert(den % den == 0) by {
        vstd::arithmetic::div_mod::lemma_mod_self_0(den as int);
    }
    crate::rational::lemma_common_divisor_divides_gcd(mag, den, den);
    assert(gcd(mag, den) % den == 0);
    assert(1nat % den == 0);
    if den > 1 {
        vstd::arithmetic::div_mod::lemma_small_mod(1, den);
        assert(false);
    }
}

/// The proper remainder of a canonical fraction is itself canonical
/// over the same denominator.
proof fn lemma_remainder_canonical(r: Rational)
    requires
        r.is_canonical(),
        abs(r.numerator as int) % (r.denominator as nat) != 0,
    ensures
        (Rational {
            numerator: (abs(r.numerator as int) % (r.denominator as nat)) as i64,
            denominator: r.denominator,
        }).is_canonical(),
{
    let mag = abs(r.numerator as int);
    let den = r.denominator as nat;
    let rem = mag % den;
    vstd::arithmetic::div_mod::lemma_mod_bound(mag as int, den as int);
    vstd::arithmetic::div_mod::lemma_small_mod(rem, den);
    assert(gcd(mag, den) == gcd(den, mag % den));
    assert(gcd(rem, den) == gcd(den, rem % den));
    assert(gcd(rem, den) == 1);
}

/// Re-parsing the formatted integer case: the remainder is zero, the
/// denominator is one, and the digits of the whole part come back.
#[verifier::rlimit(50)]
proof fn lemma_round_trip_integer(r: Rational)
    requires
        r.is_canonical(),
        r.numerator > i64::MIN,
        abs(r.numerator as int) % (r.denominator as nat) == 0,
    ensures
        spec_parse(spec_format(r)) == Ok::<Rational, RationalParseError>(r),
{
    let n = r.numerator as int;
    let den = r.denominator as nat;
    let mag = abs(n);
    let whole = mag / den;
    let s = spec_format(r);
    lemma_run_states_is_run_from(s);
    vstd::arithmetic::div_mod::lemma_fundamental_div_mod(mag as int, den as int);
    vstd::arithmetic::div_mod::lemma_div_nonincreasing(mag as int, den as int);
    lemma_exact_division_is_integer(r);
    assert(den == 1);
    vstd::arithmetic::div_mod::lemma_div_basics(mag as int);
    assert(mag == whole);
    let negative = n < 0;
    if whole == 0 {
        assert(n == 0);
        assert(!negative);
        assert(s == seq!['0']);
        assert(dec_digits(0) == seq!['0']);
        lemma_scan_whole_q0(0);
        assert(s =~= dec_digits(0));
        let p = MixedFraction { sign: 1, number: 0, numerator: 0, denominator: 1 };
        assert(run_states(s) == Ok::<ParseState, RationalParseError>(ParseState::Q2(p)));
        lemma_combine_payload(p, r);
    } else {
        let sgn: i64 = if negative {
            -1i64
        } else {
            1i64
        };
        let sign_seq = if negative {
            seq!['-']
        } else {
            Seq::<char>::empty()
        };
        let sign_state = if negative {
            ParseState::Q1(
                MixedFraction { sign: -1i64, number: 0, numerator: 0, denominator: 1 },
            )
        } else {
            ParseState::Q0
        };
        if negative {
            lemma_run_from_one(ParseState::Q0, '-');
        }
        let p = MixedFraction { sign: sgn, number: whole as u64, numerator: 0, denominator: 1 };
        if negative {
            lemma_scan_whole_q1(
                MixedFraction { sign: -1i64, number: 0, numerator: 0, denominator: 1 },
                whole,
            );
        } else {
            lemma_scan_whole_q0(whole);
        }
        lemma_run_from_append(ParseState::Q0, sign_seq, dec_digits(whole));
        assert(s == sign_seq + dec_digits(whole));
        assert(run_states(s) == Ok::<ParseState, RationalParseError>(ParseState::Q2(p)));
        lemma_combine_payload(p, r);
    }
}

/// Re-parsing the formatted glyph case: the remainder has a vulgar
/// glyph, which comes directly after the sign and the whole part.
#[verifier::rlimit(50)]
proof fn lemma_round_trip_glyph(r: Rational, c: char)
    requires
        r.is_canonical(),
        r.numerator > i64::MIN,
        abs(r.numerator as int) % (r.denominator as nat) != 0,
        glyph_for(
            Rational {
                numerator: (abs(r.numerator as int) % (r.denominator as nat)) as i64,
                denominator: r.denominator,
            },
        ) == Some(c),
    ensures
        spec_parse(spec_format(r)) == Ok::<Rational, RationalParseError>(r),
{
    let n = r.numerator as int;
    let den = r.denominator as nat;
    let mag = abs(n);
    let whole = mag / den;
    let rem = mag % den;
    let s = spec_format(r);
    lemma_run_states_is_run_from(s);
    vstd::arithmetic::div_mod::lemma_mod_bound(mag as int, den as int);
    vstd::arithmetic::div_mod::lemma_fundamental_div_mod(mag as int, den as int);
    vstd::arithmetic::div_mod::lemma_div_nonincreasing(mag as int, den as int);
    vstd::arithmetic::mul::lemma_mul_is_commutative(den as int, whole as int);
    assert(whole * den + rem == mag);
    let frac = Rational { numerator: rem as i64, denominator: r.denominator };
    lemma_glyph_table_consistent(frac, c);
    assert(glyph_fraction(c) == Some(frac));
    let negative = n < 0;
    let sgn: i64 = if negative {
        -1i64
    } else {
        1i64
    };
    let sign_seq = if negative {
        seq!['-']
    } else {
        Seq::<char>::empty()
    };
    let sign_state = if negative {
        ParseState::Q1(MixedFraction { sign: -1i64, number: 0, numerator: 0, denominator: 1 })
    } else {
        ParseState::Q0
    };
    if negative {
        lemma_run_from_one(ParseState::Q0, '-');
    }
    assert(run_from(ParseState::Q0, sign_seq) == Ok::<ParseState, RationalParseError>(
        sign_state,
    ));
    let p = MixedFraction {
        sign: sgn,
        number: whole as u64,
        numerator: rem as u64,
        denominator: den as u64,
    };
    if whole == 0 {
        assert(s == sign_seq + seq![c]);
        lemma_run_from_append(ParseState::Q0, sign_seq, seq![c]);
        lemma_run_from_one(sign_state, c);
        assert(run_states(s) == Ok::<ParseState, RationalParseError>(ParseState::Q5(p)));
    } else {
        assert(s == sign_seq + dec_digits(whole) + seq![c]);
        let q2 = ParseState::Q2(
            MixedFraction { sign: sgn, number: whole as u64, numerator: 0, denominator: 1 },
        );
        if negative {
            lemma_scan_whole_q1(
                MixedFraction { sign: -1i64, number: 0, numerator: 0, denominator: 1 },
                whole,
            );
        } else {
            lemma_scan_whole_q0(whole);
        }
        lemma_run_from_append(ParseState::Q0, sign_seq, dec_digits(whole));
        assert(run_from(ParseState::Q0, sign_seq + dec_digits(whole)) == Ok::<
            ParseState,
            RationalParseError,
        >(q2));
        lemma_run_from_append(ParseState::Q0, sign_seq + dec_digits(whole), seq![c]);
        lemma_run_from_one(q2, c);
        assert(run_states(s) == Ok::<ParseState, RationalParseError>(ParseState::Q5(p)));
    }
    lemma_combine_payload(p, r);
}

/// Re-parsing the formatted plain-fraction case: the remainder has no
/// glyph and is written as `numerator/denominator`.
#[verifier::rlimit(100)]
proof fn lemma_round_trip_plain(r: Rational)
    requires
        r.is_canonical(),
        r.numerator > i64::MIN,
        abs(r.numerator as int) % (r.denominator as nat) != 0,
        glyph_for(
            Rational {
                numerator: (abs(r.numerator as int) % (r.denominator as nat)) as i64,
                denominator: r.denominator,
            },
        ) is None,
    ensures
        spec_parse(spec_format(r)) == Ok::<Rational, RationalParseError>(r),
{
    let n = r.numerator as int;
    let den = r.denominator as nat;
    let mag = abs(n);
    let whole = mag / den;
    let rem = mag % den;
    let s = spec_format(r);
    lemma_run_states_is_run_from(s);
    vstd::arithmetic::div_mod::lemma_mod_bound(mag as int, den as int);
    vstd::arithmetic::div_mod::lemma_fundamental_div_mod(mag as int, den as int);
    vstd::arithmetic::div_mod::lemma_div_nonincreasing(mag as int, den as int);
    vstd::arithmetic::mul::lemma_mul_is_commutative(den as int, whole as int);
    assert(whole * den + rem == mag);
    let negative = n < 0;
    let sgn: i64 = if negative {
        -1i64
    } else {
        1i64
    };
    let sign_seq = if negative {
        seq!['-']
    } else {
        Seq::<char>::empty()
    };
    let sign_state = if negative {
        ParseState::Q1(MixedFraction { sign: -1i64, number: 0, numerator: 0, denominator: 1 })
    } else {
        ParseState::Q0
    };
    if negative {
        lemma_run_from_one(ParseState::Q0, '-');
    }
    assert(run_from(ParseState::Q0, sign_seq) == Ok::<ParseState, RationalParseError>(
        sign_state,
    ));
    if whole == 0 {
        assert(s == sign_seq + dec_digits(rem) + seq!['/'] + dec_digits(den));
        let q2pay = MixedFraction { sign: sgn, number: rem as u64, numerator: 0, denominator: 1 };
        if negative {
            lemma_scan_whole_q1(
                MixedFraction { sign: -1i64, number: 0, numerator: 0, denominator: 1 },
                rem,
            );
        } else {
            lemma_scan_whole_q0(rem);
        }
        lemma_run_from_append(ParseState::Q0, sign_seq, dec_digits(rem));
        let pre2 = sign_seq + dec_digits(rem);
        assert(run_from(ParseState::Q0, pre2) == Ok::<ParseState, RationalParseError>(
            ParseState::Q2(q2pay),
        ));
        lemma_run_from_append(ParseState::Q0, pre2, seq!['/']);
        lemma_run_from_one(ParseState::Q2(q2pay), '/');
        let q3 = MixedFraction { sign: sgn, number: 0, numerator: rem as u64, denominator: 0 };
        let pre3 = pre2 + seq!['/'];
        assert(run_from(ParseState::Q0, pre3) == Ok::<ParseState, RationalParseError>(
            ParseState::Q3(q3),
        ));
        lemma_scan_den_q3(q3, den);
        lemma_run_from_append(ParseState::Q0, pre3, dec_digits(den));
        let p = MixedFraction {
            sign: sgn,
            number: 0,
            numerator: rem as u64,
            denominator: den as u64,
        };
        assert(run_states(s) == Ok::<ParseState, RationalParseError>(ParseState::Q4(p)));
        assert(mag == rem) by {
            assert(mag == den * whole + rem);
            assert(den * 0 == 0) by (nonlinear_arith);
        }
        lemma_combine_payload(p, r);
    } else {
        assert(s == sign_seq + dec_digits(whole) + seq![' '] + dec_digits(rem) + seq!['/']
            + dec_digits(den));
        let q2pay = MixedFraction {
            sign: sgn,
            number: whole as u64,
            numerator: 0,
            denominator: 1,
        };
        if negative {
            lemma_scan_whole_q1(
                MixedFraction { sign: -1i64, number: 0, numerator: 0, denominator: 1 },
                whole,
            );
        } else {
            lemma_scan_whole_q0(whole);
        }
        lemma_run_from_append(ParseState::Q0, sign_seq, dec_digits(whole));
        let pre2 = sign_seq + dec_digits(whole);
        assert(run_from(ParseState::Q0, pre2) == Ok::<ParseState, RationalParseError>(
            ParseState::Q2(q2pay),
        ));
        lemma_run_from_append(ParseState::Q0, pre2, seq![' ']);
        lemma_run_from_one(ParseState::Q2(q2pay), ' ');
        let pre3 = pre2 + seq![' '];
        assert(run_from(ParseState::Q0, pre3) == Ok::<ParseState, RationalParseError>(
            ParseState::Q6(q2pay),
        ));
        lemma_scan_num_q6(q2pay, rem);
        lemma_run_from_append(ParseState::Q0, pre3, dec_digits(rem));
        let q7 = MixedFraction {
            sign: sgn,
            number: whole as u64,
            numerator: rem as u64,
            denominator: 0,
        };
        let pre4 = pre3 + dec_digits(rem);
        assert(run_from(ParseState::Q0, pre4) == Ok::<ParseState, RationalParseError>(
            ParseState::Q7(q7),
        ));
        lemma_run_from_append(ParseState::Q0, pre4, seq!['/']);
        lemma_run_from_one(ParseState::Q7(q7), '/');
        let pre5 = pre4 + seq!['/'];
        assert(run_from(ParseState::Q0, pre5) == Ok::<ParseState, RationalParseError>(
            ParseState::Q3(q7),
        ));
        lemma_scan_den_q3(q7, den);
        lemma_run_from_append(ParseState::Q0, pre5, dec_digits(den));
        let p = MixedFraction {
            sign: sgn,
            number: whole as u64,
            numerator: rem as u64,
            denominator: den as u64,
        };
        assert(run_states(s) == Ok::<ParseState, RationalParseError>(ParseState::Q4(p)));
        lemma_combine_payload(p, r);
    }
}

/// Round trip: re-parsing the formatted text of any canonical
/// fraction whose numerator is above the smallest 64-bit integer
/// reproduces exactly the same canonical value.
pub proof fn lemma_parse_format_round_trip(r: Rational)
    requires
        r.is_canonical(),
        r.numerator > i64::MIN,
    ensures
        spec_parse(spec_format(r)) == Ok::<Rational, RationalParseError>(r),
{
    let mag = abs(r.numerator as int);
    let den = r.denominator as nat;
    let rem = mag % den;
    if rem == 0 {
        lemma_round_trip_integer(r);
    } else {
        let frac = Rational { numerator: rem as i64, denominator: r.denominator };
        match glyph_for(frac) {
            Some(c) => {
                lemma_round_trip_glyph(r, c);
            },
            None => {
                lemma_round_trip_plain(r);
            },
        }
    }
}

} // verus!
