//! The text parser: a deterministic finite-state machine over a small
//! but irregular grammar of numeric notations.
//!
//! A single left-to-right scan over the input characters, with no
//! backtracking, accepts plain integers (`"42"`, `"-3"`), bare
//! fractions (`"1/2"`), vulgar-fraction glyphs optionally preceded by
//! a sign or a whole number (`"½"`, `"42½"`, `"-6 ⅔"`), and mixed
//! numbers written with a single interior space (`"42 1/2"`).  Any
//! character without a transition from the current state aborts the
//! scan at once.

use crate::rational::{gcd_u64, lemma_norm_props, norm_den, norm_num, normalized, Rational};
use crate::vulgar::{fraction_of_glyph, glyph_fraction, glyph_for, glyph_of_fraction};
use vstd::math::abs;
use vstd::prelude::*;

verus! {

/// The errors the parser reports.
#[derive(Clone, Copy, Debug, PartialEq, Eq, Structural)]
pub enum RationalParseError {
    /// The input ended before any number was seen: empty input.
    UnexpectedEndOfLine,
    /// A numeric component does not denote a representable number:
    /// a digit sequence overflows the 64-bit range, or a fraction has
    /// a zero or unrepresentably large denominator.
    InvalidNumber,
    /// A required digit sequence never arrived before the input ended.
    NumberExpected,
    /// The character has no transition from the current parse state.
    InvalidCharacter(char),
}

impl RationalParseError {
    /// A short description of the error.
    pub fn message(&self) -> (s: String)
        ensures
            s@ == match *self {
                RationalParseError::UnexpectedEndOfLine => "unexpected end of line"@,
                RationalParseError::InvalidNumber => "invalid number"@,
                RationalParseError::NumberExpected => "number expected"@,
                RationalParseError::InvalidCharacter(_) => "invalid character"@,
            },
    {
        match self {
            RationalParseError::UnexpectedEndOfLine => "unexpected end of line".to_owned(),
            RationalParseError::InvalidNumber => "invalid number".to_owned(),
            RationalParseError::NumberExpected => "number expected".to_owned(),
            RationalParseError::InvalidCharacter(_) => "invalid character".to_owned(),
        }
    }
}

/// The working value accumulated during a scan: a sign, the whole
/// number seen so far, and the numerator and denominator of the
/// fractional part seen so far.
#[derive(Clone, Copy, Debug, PartialEq, Eq, Structural)]
pub struct MixedFraction {
    pub sign: i64,
    pub number: u64,
    pub numerator: u64,
    pub denominator: u64,
}

/// The states of the recognizer.  The final states are `Q2` (plain
/// integer), `Q4` (fraction denominator seen) and `Q5` (vulgar
/// glyph seen).
#[derive(Clone, Copy, Debug, PartialEq, Eq, Structural)]
pub enum ParseState {
    /// Start: nothing consumed.
    Q0,
    /// A sign was consumed.
    Q1(MixedFraction),
    /// One or more whole-number digits were consumed.
    Q2(MixedFraction),
    /// A slash was consumed; denominator digits not yet started.
    Q3(MixedFraction),
    /// One or more denominator digits were consumed.
    Q4(MixedFraction),
    /// A vulgar glyph was consumed.
    Q5(MixedFraction),
    /// A single space after the whole part.
    Q6(MixedFraction),
    /// Numerator digits of a mixed fraction after the space.
    Q7(MixedFraction),
}

/// Whether `c` is a decimal digit.
pub open spec fn is_digit(c: char) -> bool {
    48 <= (c as u32) && (c as u32) <= 57
}

/// The numeric value of a decimal digit.
pub open spec fn digit_value(c: char) -> u64 {
    ((c as u32) - 48) as u64
}

/// The transition function of the recognizer: from a state and one
/// character to the next state, or to the error that aborts the scan.
pub open spec fn spec_step(state: ParseState, c: char) -> Result<
    ParseState,
    RationalParseError,
> {
    match glyph_fraction(c) {
        Some(val) => match state {
            ParseState::Q0 => Ok(
                ParseState::Q5(
                    MixedFraction {
                        sign: 1,
                        number: 0,
                        numerator: val.numerator as u64,
                        denominator: val.denominator as u64,
                    },
                ),
            ),
            ParseState::Q1(m) => Ok(
                ParseState::Q5(
                    MixedFraction {
                        sign: m.sign,
                        number: m.number,
                        numerator: val.numerator as u64,
                        denominator: val.denominator as u64,
                    },
                ),
            ),
            ParseState::Q2(m) => Ok(
                ParseState::Q5(
                    MixedFraction {
                        sign: m.sign,
                        number: m.number,
                        numerator: val.numerator as u64,
                        denominator: val.denominator as u64,
                    },
                ),
            ),
            ParseState::Q6(m) => Ok(
                ParseState::Q5(
                    MixedFraction {
                        sign: m.sign,
                        number: m.number,
                        numerator: val.numerator as u64,
                        denominator: val.denominator as u64,
                    },
                ),
            ),
            _ => Err(RationalParseError::InvalidCharacter(c)),
        },
        None => if is_digit(c) {
            let dv = digit_value(c);
            match state {
                ParseState::Q0 => Ok(
                    ParseState::Q2(
                        MixedFraction { sign: 1, number: dv, numerator: 0, denominator: 1 },
                    ),
                ),
                ParseState::Q1(m) => Ok(
                    ParseState::Q2(
                        MixedFraction { sign: m.sign, number: dv, numerator: 0, denominator: 1 },
                    ),
                ),
                ParseState::Q2(m) => if m.number * 10 + dv > u64::MAX {
                    Err(RationalParseError::InvalidNumber)
                } else {
                    Ok(
                        ParseState::Q2(
                            MixedFraction {
                                sign: m.sign,
                                number: (m.number * 10 + dv) as u64,
                                numerator: 0,
                                denominator: 1,
                            },
                        ),
                    )
                },
                ParseState::Q3(m) => Ok(
                    ParseState::Q4(
                        MixedFraction {
                            sign: m.sign,
                            number: m.number,
                            numerator: m.numerator,
                            denominator: dv,
                        },
                    ),
                ),
                ParseState::Q4(m) => if m.denominator * 10 + dv > u64::MAX {
                    Err(RationalParseError::InvalidNumber)
                } else {
                    Ok(
                        ParseState::Q4(
                            MixedFraction {
                                sign: m.sign,
                                number: m.number,
                                numerator: m.numerator,
                                denominator: (m.denominator * 10 + dv) as u64,
                            },
                        ),
                    )
                },
                ParseState::Q6(m) => Ok(
                    ParseState::Q7(
                        MixedFraction {
                            sign: m.sign,
                            number: m.number,
                            numerator: dv,
                            denominator: 0,
                        },
                    ),
                ),
                ParseState::Q7(m) => if m.numerator * 10 + dv > u64::MAX {
                    Err(RationalParseError::InvalidNumber)
                } else {
                    Ok(
                        ParseState::Q7(
                            MixedFraction {
                                sign: m.sign,
                                number: m.number,
                                numerator: (m.numerator * 10 + dv) as u64,
                                denominator: 0,
                            },
                        ),
                    )
                },
                _ => Err(RationalParseError::InvalidCharacter(c)),
            }
        } else if c == '+' {
            match state {
                ParseState::Q0 => Ok(
                    ParseState::Q1(
                        MixedFraction { sign: 1, number: 0, numerator: 0, denominator: 1 },
                    ),
                ),
                _ => Err(RationalParseError::InvalidCharacter(c)),
            }
        } else if c == '-' {
            match state {
                ParseState::Q0 => Ok(
                    ParseState::Q1(
                        MixedFraction { sign: -1i64, number: 0, numerator: 0, denominator: 1 },
                    ),
                ),
                _ => Err(RationalParseError::InvalidCharacter(c)),
            }
        } else if c == '/' {
            match state {
                ParseState::Q2(m) => Ok(
                    ParseState::Q3(
                        MixedFraction {
                            sign: m.sign,
                            number: 0,
                            numerator: m.number,
                            denominator: 0,
                        },
                    ),
                ),
                ParseState::Q7(m) => Ok(ParseState::Q3(m)),
                _ => Err(RationalParseError::InvalidCharacter(c)),
            }
        } else if c == ' ' {
            match state {
                ParseState::Q2(m) => Ok(ParseState::Q6(m)),
                _ => Err(RationalParseError::InvalidCharacter(c)),
            }
        } else {
            Err(RationalParseError::InvalidCharacter(c))
        },
    }
}

/// The state after scanning `s` from the start state, or the error on
/// which the scan aborted.
pub open spec fn run_states(s: Seq<char>) -> Result<ParseState, RationalParseError>
    decreases s.len(),
{
    if s.len() == 0 {
        Ok(ParseState::Q0)
    } else {
        match run_states(s.drop_last()) {
            Ok(st) => spec_step(st, s.last()),
            Err(e) => Err(e),
        }
    }
}

/// The state after scanning `s` from an arbitrary state `st`.
pub open spec fn run_from(st: ParseState, s: Seq<char>) -> Result<
    ParseState,
    RationalParseError,
>
    decreases s.len(),
{
    if s.len() == 0 {
        Ok(st)
    } else {
        match run_from(st, s.drop_last()) {
            Ok(m) => spec_step(m, s.last()),
            Err(e) => Err(e),
        }
    }
}

/// Scanning from the start state is scanning from `Q0`.
pub proof fn lemma_run_states_is_run_from(s: Seq<char>)
    ensures
        run_states(s) == run_from(ParseState::Q0, s),
    decreases s.len(),
{
    if s.len() > 0 {
        lemma_run_states_is_run_from(s.drop_last());
    }
}

/// Scanning a concatenation scans the first part, then the second
/// from the state the first part reached.
pub proof fn lemma_run_from_append(st: ParseState, a: Seq<char>, b: Seq<char>)
    ensures
        run_from(st, a + b) == match run_from(st, a) {
            Ok(m) => run_from(m, b),
            Err(e) => Err(e),
        },
    decreases b.len(),
{
    if b.len() == 0 {
        assert(a + b =~= a);
    } else {
        assert((a + b).drop_last() =~= a + b.drop_last());
        assert((a + b).last() == b.last());
        lemma_run_from_append(st, a, b.drop_last());
    }
}

/// Scanning a single character is one transition.
pub proof fn lemma_run_from_one(st: ParseState, c: char)
    ensures
        run_from(st, seq![c]) == spec_step(st, c),
{
    assert(seq![c].drop_last() =~= Seq::<char>::empty());
    assert(seq![c].last() == c);
    assert(run_from(st, Seq::<char>::empty()) == Ok::<ParseState, RationalParseError>(st));
    assert(run_from(st, seq![c].drop_last()) == Ok::<ParseState, RationalParseError>(st));
    assert(seq![c].len() == 1);
}

/// The value of an accumulated payload:
/// `sign * (number * denominator + numerator) / denominator`, in
/// canonical form.  A zero denominator, or a magnitude or a reduced
/// denominator outside the signed 64-bit range, is not a
/// representable number.
pub open spec fn combine(m: MixedFraction) -> Result<Rational, RationalParseError> {
    if m.denominator == 0 {
        Err(RationalParseError::InvalidNumber)
    } else {
        let mag = m.number * m.denominator + m.numerator;
        if mag > i64::MAX {
            Err(RationalParseError::InvalidNumber)
        } else {
            let n = m.sign * mag;
            if norm_den(n, m.denominator as int) > i64::MAX {
                Err(RationalParseError::InvalidNumber)
            } else {
                Ok(normalized(n, m.denominator as int))
            }
        }
    }
}

/// The result at the end of the input: a value from the final states
/// `Q2`, `Q4` and `Q5`, an error from every other state.
pub open spec fn finalize(state: ParseState) -> Result<Rational, RationalParseError> {
    match state {
        ParseState::Q0 => Err(RationalParseError::UnexpectedEndOfLine),
        ParseState::Q1(_) => Err(RationalParseError::NumberExpected),
        ParseState::Q2(m) => combine(m),
        ParseState::Q3(_) => Err(RationalParseError::NumberExpected),
        ParseState::Q4(m) => combine(m),
        ParseState::Q5(m) => combine(m),
        ParseState::Q6(_) => Err(RationalParseError::NumberExpected),
        ParseState::Q7(_) => Err(RationalParseError::NumberExpected),
    }
}

/// What parsing a character sequence yields: the combined value of the
/// state the scan ends in, or the first error.
pub open spec fn spec_parse(s: Seq<char>) -> Result<Rational, RationalParseError> {
    match run_states(s) {
        Ok(st) => finalize(st),
        Err(e) => Err(e),
    }
}

/// Every payload reached from the start state carries a sign of
/// exactly `1` or `-1`.
pub open spec fn state_inv(state: ParseState) -> bool {
    match state {
        ParseState::Q0 => true,
        ParseState::Q1(m) => m.sign == 1 || m.sign == -1,
        ParseState::Q2(m) => m.sign == 1 || m.sign == -1,
        ParseState::Q3(m) => m.sign == 1 || m.sign == -1,
        ParseState::Q4(m) => m.sign == 1 || m.sign == -1,
        ParseState::Q5(m) => m.sign == 1 || m.sign == -1,
        ParseState::Q6(m) => m.sign == 1 || m.sign == -1,
        ParseState::Q7(m) => m.sign == 1 || m.sign == -1,
    }
}

/// One transition preserves the payload invariant.
proof fn lemma_step_inv(state: ParseState, c: char)
    requires
        state_inv(state),
        spec_step(state, c) is Ok,
    ensures
        state_inv(spec_step(state, c)->Ok_0),
{
}

/// The state reached from the start state satisfies the payload
/// invariant.
proof fn lemma_run_inv(s: Seq<char>)
    requires
        run_states(s) is Ok,
    ensures
        state_inv(run_states(s)->Ok_0),
    decreases s.len(),
{
    if s.len() > 0 {
        lemma_run_inv(s.drop_last());
        lemma_step_inv(run_states(s.drop_last())->Ok_0, s.last());
    }
}

/// Once a prefix of the input aborts with an error, the whole input
/// aborts with that same error.
proof fn lemma_error_persists(s: Seq<char>, i: int)
    requires
        0 <= i <= s.len(),
        run_states(s.subrange(0, i)) is Err,
    ensures
        run_states(s) == run_states(s.subrange(0, i)),
    decreases s.len() - i,
{
    if i == s.len() {
        assert(s.subrange(0, i) =~= s);
    } else {
        assert(s.subrange(0, i + 1).drop_last() =~= s.subrange(0, i));
        assert(s.subrange(0, i + 1).last() == s[i]);
        lemma_error_persists(s, i + 1);
    }
}

/// One transition of the recognizer, executed.
fn step(state: ParseState, c: char) -> (r: Result<ParseState, RationalParseError>)
    ensures
        r == spec_step(state, c),
{
    match fraction_of_glyph(c) {
        Some(val) => {
            match state {
                ParseState::Q0 => Ok(
                    ParseState::Q5(
                        MixedFraction {
                            sign: 1,
                            number: 0,
                            numerator: val.numerator as u64,
                            denominator: val.denominator as u64,
                        },
                    ),
                ),
                ParseState::Q1(m) => Ok(
                    ParseState::Q5(
                        MixedFraction {
                            sign: m.sign,
                            number: m.number,
                            numerator: val.numerator as u64,
                            denominator: val.denominator as u64,
                        },
                    ),
                ),
                ParseState::Q2(m) => Ok(
                    ParseState::Q5(
                        MixedFraction {
                            sign: m.sign,
                            number: m.number,
                            numerator: val.numerator as u64,
                            denominator: val.denominator as u64,
                        },
                    ),
                ),
                ParseState::Q6(m) => Ok(
                    ParseState::Q5(
                        MixedFraction {
                            sign: m.sign,
                            number: m.number,
                            numerator: val.numerator as u64,
                            denominator: val.denominator as u64,
                        },
                    ),
                ),
                _ => Err(RationalParseError::InvalidCharacter(c)),
            }
        },
        None => {
            let code: u32 = c as u32;
            if 48 <= code && code <= 57 {
                let dv: u64 = (code - 48) as u64;
                match state {
                    ParseState::Q0 => Ok(
                        ParseState::Q2(
                            MixedFraction { sign: 1, number: dv, numerator: 0, denominator: 1 },
                        ),
                    ),
                    ParseState::Q1(m) => Ok(
                        ParseState::Q2(
                            MixedFraction {
                                sign: m.sign,
                                number: dv,
                                numerator: 0,
                                denominator: 1,
                            },
                        ),
                    ),
                    ParseState::Q2(m) => match accumulate(m.number, dv) {
                        Some(acc) => Ok(
                            ParseState::Q2(
                                MixedFraction {
                                    sign: m.sign,
                                    number: acc,
                                    numerator: 0,
                                    denominator: 1,
                                },
                            ),
                        ),
                        None => Err(RationalParseError::InvalidNumber),
                    },
                    ParseState::Q3(m) => Ok(
                        ParseState::Q4(
                            MixedFraction {
                                sign: m.sign,
                                number: m.number,
                                numerator: m.numerator,
                                denominator: dv,
                            },
                        ),
                    ),
                    ParseState::Q4(m) => match accumulate(m.denominator, dv) {
                        Some(acc) => Ok(
                            ParseState::Q4(
                                MixedFraction {
                                    sign: m.sign,
                                    number: m.number,
                                    numerator: m.numerator,
                                    denominator: acc,
                                },
                            ),
                        ),
                        None => Err(RationalParseError::InvalidNumber),
                    },
                    ParseState::Q6(m) => Ok(
                        ParseState::Q7(
                            MixedFraction {
                                sign: m.sign,
                                number: m.number,
                                numerator: dv,
                                denominator: 0,
                            },
                        ),
                    ),
                    ParseState::Q7(m) => match accumulate(m.numerator, dv) {
                        Some(acc) => Ok(
                            ParseState::Q7(
                                MixedFraction {
                                    sign: m.sign,
                                    number: m.number,
                                    numerator: acc,
                                    denominator: 0,
                                },
                            ),
                        ),
                        None => Err(RationalParseError::InvalidNumber),
                    },
                    _ => Err(RationalParseError::InvalidCharacter(c)),
                }
            } else if c == '+' {
                match state {
                    ParseState::Q0 => Ok(
                        ParseState::Q1(
                            MixedFraction { sign: 1, number: 0, numerator: 0, denominator: 1 },
                        ),
                    ),
                    _ => Err(RationalParseError::InvalidCharacter(c)),
                }
            } else if c == '-' {
                match state {
                    ParseState::Q0 => Ok(
                        ParseState::Q1(
                            MixedFraction { sign: -1i64, number: 0, numerator: 0, denominator: 1 },
                        ),
                    ),
                    _ => Err(RationalParseError::InvalidCharacter(c)),
                }
            } else if c == '/' {
                match state {
                    ParseState::Q2(m) => Ok(
                        ParseState::Q3(
                            MixedFraction {
                                sign: m.sign,
                                number: 0,
                                numerator: m.number,
                                denominator: 0,
                            },
                        ),
                    ),
                    ParseState::Q7(m) => Ok(ParseState::Q3(m)),
                    _ => Err(RationalParseError::InvalidCharacter(c)),
                }
            } else if c == ' ' {
                match state {
                    ParseState::Q2(m) => Ok(ParseState::Q6(m)),
                    _ => Err(RationalParseError::InvalidCharacter(c)),
                }
            } else {
                Err(RationalParseError::InvalidCharacter(c))
            }
        },
    }
}

/// Appends one decimal digit to an accumulated number, or reports that
/// the result would overflow the 64-bit range.
fn accumulate(acc: u64, dv: u64) -> (r: Option<u64>)
    requires
        dv < 10,
    ensures
        acc * 10 + dv > u64::MAX <==> r is None,
        r matches Some(v) ==> v == acc * 10 + dv,
{
    match acc.checked_mul(10) {
        Some(x) => x.checked_add(dv),
        None => None,
    }
}

impl MixedFraction {
    /// The rational value of the accumulated payload:
    /// `sign * (number * denominator + numerator) / denominator`,
    /// reduced to canonical form.
    pub fn to_rational(&self) -> (r: Result<Rational, RationalParseError>)
        requires
            self.sign == 1 || self.sign == -1,
        ensures
            r == combine(*self),
    {
        if self.denominator == 0 {
            return Err(RationalParseError::InvalidNumber);
        }
        let mag: u64 = match self.number.checked_mul(self.denominator) {
            Some(x) => match x.checked_add(self.numerator) {
                Some(y) => y,
                None => {
                    return Err(RationalParseError::InvalidNumber);
                },
            },
            None => {
                return Err(RationalParseError::InvalidNumber);
            },
        };
        if mag > 0x7fff_ffff_ffff_ffffu64 {
            return Err(RationalParseError::InvalidNumber);
        }
        let ghost n: int = self.sign * (self.number * self.denominator + self.numerator);
        proof {
            assert(abs(n) == mag);
            lemma_norm_props(n, self.denominator as int);
        }
        let g: u64 = gcd_u64(mag, self.denominator);
        proof {
            crate::rational::lemma_gcd_pos(mag as nat, self.denominator as nat);
        }
        let red_mag: u64 = mag / g;
        let red_den: u64 = self.denominator / g;
        if red_den > 0x7fff_ffff_ffff_ffffu64 {
            return Err(RationalParseError::InvalidNumber);
        }
        let num: i64 = if self.sign < 0 {
            -(red_mag as i64)
        } else {
            red_mag as i64
        };
        proof {
            assert(num == norm_num(n, self.denominator as int));
            assert(red_den == norm_den(n, self.denominator as int));
        }
        Ok(Rational { numerator: num, denominator: red_den as i64 })
    }

    /// The whole part, if the payload has one: `Some(number)` when the
    /// accumulated whole number is nonzero.
    pub fn get_number(&self) -> (r: Option<u64>)
        ensures
            r == if self.number > 0 {
                Some(self.number)
            } else {
                None::<u64>
            },
    {
        if self.number > 0 {
            Some(self.number)
        } else {
            None
        }
    }

    /// The proper fractional part of the payload, if it has one: the
    /// canonical form of `(numerator mod denominator) / denominator`,
    /// or `None` when the remainder is zero.
    pub fn get_fraction(&self) -> (r: Option<Rational>)
        requires
            self.denominator != 0,
            self.denominator <= i64::MAX,
        ensures
            ({
                let f = (self.numerator as int) % (self.denominator as int);
                if f != 0 {
                    r == Some(normalized(f, self.denominator as int))
                } else {
                    r is None
                }
            }),
    {
        let f: u64 = self.numerator % self.denominator;
        if f != 0 {
            match Rational::new(f as i64, self.denominator as i64) {
                Ok(v) => Some(v),
                Err(_) => {
                    proof {
                        assert(false);
                    }
                    None
                },
            }
        } else {
            None
        }
    }

    /// The vulgar-fraction glyph denoting the payload's fraction
    /// `numerator / denominator`, after reducing it to canonical form.
    pub fn vulgar_fraction(&self) -> (r: Option<char>)
        requires
            self.denominator != 0,
            self.denominator <= i64::MAX,
            self.numerator <= i64::MAX,
        ensures
            r == glyph_for(normalized(self.numerator as int, self.denominator as int)),
    {
        match Rational::new(self.numerator as i64, self.denominator as i64) {
            Ok(v) => glyph_of_fraction(&v),
            Err(_) => {
                proof {
                    assert(false);
                }
                None
            },
        }
    }

    /// Splits a canonical fraction into a sign, a whole part, the
    /// remaining proper-fraction numerator, and the denominator.
    pub fn from_rational(value: &Rational) -> (m: MixedFraction)
        requires
            value.is_canonical(),
        ensures
            m.sign == if value.numerator < 0 {
                -1int
            } else {
                1int
            },
            m.number == abs(value.numerator as int) / (value.denominator as nat),
            m.numerator == abs(value.numerator as int) % (value.denominator as nat),
            m.denominator == value.denominator,
    {
        let n: i64 = value.numerator;
        let d: u64 = value.denominator as u64;
        let mag: u64 = if n == i64::MIN {
            9223372036854775808u64
        } else if n < 0 {
            (-n) as u64
        } else {
            n as u64
        };
        MixedFraction {
            sign: if n < 0 {
                -1i64
            } else {
                1i64
            },
            number: mag / d,
            numerator: mag % d,
            denominator: d,
        }
    }
}

impl Rational {
    /// Parses a rational number from its textual notation: a plain
    /// optionally signed integer, a bare fraction, a mixed number, or
    /// a vulgar-fraction glyph with an optional sign and whole part.
    /// Returns the first error of the scan otherwise.
    pub fn from_str(s: &str) -> (r: Result<Rational, RationalParseError>)
        ensures
            r == spec_parse(s@),
    {
        let len: usize = s.unicode_len();
        let mut state = ParseState::Q0;
        let mut i: usize = 0;
        while i < len
            invariant
                0 <= i <= len,
                len == s@.len(),
                run_states(s@.subrange(0, i as int)) == Ok::<ParseState, RationalParseError>(
                    state,
                ),
            decreases len - i,
        {
            let c: char = s.get_char(i);
            proof {
                assert(s@.subrange(0, i + 1).drop_last() =~= s@.subrange(0, i as int));
                assert(s@.subrange(0, i + 1).last() == s@[i as int]);
            }
            match step(state, c) {
                Ok(next) => {
                    state = next;
                },
                Err(e) => {
                    proof {
                        lemma_error_persists(s@, i + 1);
                    }
                    return Err(e);
                },
            }
            i = i + 1;
        }
        proof {
            assert(s@.subrange(0, len as int) =~= s@);
            lemma_run_inv(s@);
        }
        match state {
            ParseState::Q1(_) => Err(RationalParseError::NumberExpected),
            ParseState::Q2(m) => m.to_rational(),
            ParseState::Q3(_) => Err(RationalParseError::NumberExpected),
            ParseState::Q4(m) => m.to_rational(),
            ParseState::Q5(m) => m.to_rational(),
            ParseState::Q6(_) => Err(RationalParseError::NumberExpected),
            ParseState::Q7(_) => Err(RationalParseError::NumberExpected),
            ParseState::Q0 => Err(RationalParseError::UnexpectedEndOfLine),
        }
    }
}

} // verus!
