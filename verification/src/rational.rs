//! The canonical fraction type and its arithmetic.
//!
//! A [`Rational`] is a pair of a signed 64-bit numerator and
//! denominator.  Every value produced by the constructor or by an
//! arithmetic operator is in canonical form: the denominator is
//! positive, numerator and denominator share no common factor other
//! than one, and zero is represented uniquely as `0/1`.

use vstd::arithmetic::div_mod::{
    lemma_add_mod_noop, lemma_fundamental_div_mod, lemma_fundamental_div_mod_converse,
    lemma_mod_self_0, lemma_mul_mod_noop_right, lemma_sub_mod_noop,
};
use vstd::arithmetic::mul::lemma_mul_is_commutative;
use vstd::math::abs;
use vstd::prelude::*;

verus! {

/// Greatest common divisor by the Euclidean algorithm.
pub open spec fn gcd(a: nat, b: nat) -> nat
    decreases b,
{
    if b == 0 {
        a
    } else {
        gcd(b, a % b)
    }
}

/// The gcd of two numbers, not both zero, is positive.
pub proof fn lemma_gcd_pos(a: nat, b: nat)
    requires
        a > 0 || b > 0,
    ensures
        gcd(a, b) > 0,
    decreases b,
{
    if b != 0 {
        lemma_gcd_pos(b, a % b);
    }
}

/// `gcd(a, 1) == 1`.
pub proof fn lemma_gcd_one(a: nat)
    ensures
        gcd(a, 1) == 1,
{
    assert(a % 1 == 0) by {
        lemma_mod_self_0(1int);
        lemma_mul_mod_noop_right(a as int, 1int, 1int);
    }
    assert(gcd(a, 1) == gcd(1, 0));
}

/// If `d` divides `x` and `y`, it divides `x + k * y`.
proof fn lemma_divides_sum(x: nat, y: nat, k: nat, d: nat)
    requires
        d > 0,
        x % d == 0,
        y % d == 0,
    ensures
        (x + k * y) % d == 0,
{
    lemma_mul_mod_noop_right(k as int, y as int, d as int);
    assert(k as int * 0 == 0) by (nonlinear_arith);
    vstd::arithmetic::div_mod::lemma_small_mod(0, d);
    assert((k * y) % d == 0);
    lemma_add_mod_noop(x as int, (k * y) as int, d as int);
}

/// The gcd of two numbers divides both of them.
pub proof fn lemma_gcd_divides(a: nat, b: nat)
    requires
        a > 0 || b > 0,
    ensures
        a % gcd(a, b) == 0,
        b % gcd(a, b) == 0,
    decreases b,
{
    let g = gcd(a, b);
    if b == 0 {
        lemma_mod_self_0(a as int);
        assert(0nat % a == 0) by {
            lemma_mul_mod_noop_right(0int, 1int, a as int);
        }
    } else {
        let r = a % b;
        lemma_gcd_divides(b, r);
        lemma_gcd_pos(b, r);
        lemma_fundamental_div_mod(a as int, b as int);
        lemma_divides_sum(r, b, a / b, g);
        assert(r + (a / b) * b == a) by {
            lemma_mul_is_commutative((a / b) as int, b as int);
        }
    }
}

/// Every common divisor of `a` and `b` divides their gcd.
pub proof fn lemma_common_divisor_divides_gcd(a: nat, b: nat, d: nat)
    requires
        d > 0,
        a % d == 0,
        b % d == 0,
    ensures
        gcd(a, b) % d == 0,
    decreases b,
{
    if b == 0 {
        assert(gcd(a, b) == a);
    } else {
        let q = a / b;
        let r = a % b;
        lemma_fundamental_div_mod(a as int, b as int);
        assert((b * q) % d == 0) by {
            lemma_mul_mod_noop_right(q as int, b as int, d as int);
            assert(q * 0 == 0) by (nonlinear_arith);
            lemma_mod_self_0(d as int);
            lemma_mul_is_commutative(q as int, b as int);
        }
        assert(r % d == 0) by {
            lemma_sub_mod_noop(a as int, (b * q) as int, d as int);
        }
        lemma_common_divisor_divides_gcd(b, r, d);
    }
}

/// A positive divisor of a positive number is no larger than it.
proof fn lemma_divisor_le(n: nat, d: nat)
    requires
        d > 0,
        n > 0,
        n % d == 0,
    ensures
        d <= n,
{
    if d > n {
        vstd::arithmetic::div_mod::lemma_small_mod(n, d);
    }
}

/// The gcd scales with a common factor: `gcd(k*a, k*b) == k * gcd(a, b)`.
pub proof fn lemma_gcd_scale(k: nat, a: nat, b: nat)
    requires
        k > 0,
    ensures
        gcd(k * a, k * b) == k * gcd(a, b),
    decreases b,
{
    if b == 0 {
        assert(k * b == 0) by (nonlinear_arith)
            requires b == 0;
    } else {
        let q = a / b;
        let r = a % b;
        lemma_fundamental_div_mod(a as int, b as int);
        assert(k * b > 0) by (nonlinear_arith)
            requires k > 0 && b > 0;
        assert(k as int * a as int == q * (k as int * b as int) + k as int * r as int)
            by (nonlinear_arith)
            requires a as int == b as int * q + r;
        assert(0 <= (k as int * r as int) < (k as int * b as int)) by (nonlinear_arith)
            requires k > 0 && 0 <= r < b;
        lemma_fundamental_div_mod_converse(
            (k * a) as int,
            (k * b) as int,
            q as int,
            (k * r) as int,
        );
        assert((k * a) % (k * b) == k * r);
        lemma_gcd_scale(k, b, r);
        assert(gcd(k * a, k * b) == gcd(k * b, k * r));
    }
}

/// Dividing two numbers by their gcd leaves them coprime.
pub proof fn lemma_gcd_div_coprime(a: nat, b: nat)
    requires
        b > 0,
    ensures
        gcd(a / gcd(a, b), b / gcd(a, b)) == 1,
{
    let g = gcd(a, b);
    lemma_gcd_pos(a, b);
    lemma_gcd_divides(a, b);
    lemma_fundamental_div_mod(a as int, g as int);
    lemma_fundamental_div_mod(b as int, g as int);
    assert(a == g * (a / g));
    assert(b == g * (b / g));
    lemma_gcd_scale(g, a / g, b / g);
    assert(g * gcd(a / g, b / g) == g);
    assert(gcd(a / g, b / g) == 1) by (nonlinear_arith)
        requires g > 0 && g * gcd(a / g, b / g) == g;
}

/// Euclid's lemma: if `d` is coprime to `n` and divides `n * m`, it divides `m`.
pub proof fn lemma_coprime_divides(n: nat, d: nat, m: nat)
    requires
        d > 0,
        gcd(n, d) == 1,
        (n * m) % d == 0,
    ensures
        m % d == 0,
{
    if m == 0 {
        vstd::arithmetic::div_mod::lemma_small_mod(0, d);
        assert(m % d == 0);
    } else {
        lemma_gcd_scale(m, n, d);
        assert(m * gcd(n, d) == m * 1 == m) by (nonlinear_arith)
            requires gcd(n, d) == 1;
        assert(gcd(m * n, m * d) == m);
        assert((m * n) % d == 0) by {
            lemma_mul_is_commutative(m as int, n as int);
        }
        assert((m * d) % d == 0) by {
            lemma_mul_mod_noop_right(m as int, d as int, d as int);
            lemma_mod_self_0(d as int);
            assert(m as int * 0 == 0) by (nonlinear_arith);
            vstd::arithmetic::div_mod::lemma_small_mod(0, d);
        }
        lemma_common_divisor_divides_gcd(m * n, m * d, d);
    }
}

/// An error produced when constructing or deriving a fraction whose
/// denominator would be zero.
#[derive(Clone, Copy, Debug, PartialEq, Eq, Structural)]
pub enum RationalError {
    DivisionByZero,
}

/// An exact rational number in canonical form.
#[derive(Clone, Copy, Debug, PartialEq, Eq, Structural)]
pub struct Rational {
    pub numerator: i64,
    pub denominator: i64,
}

/// The canonical numerator of the fraction `n / d`: the sign of the
/// fraction is carried by the numerator, whose magnitude is reduced by
/// the gcd of the two magnitudes.
pub open spec fn norm_num(n: int, d: int) -> int {
    let m = (abs(n) / gcd(abs(n), abs(d))) as int;
    if (n < 0) == (d < 0) {
        m
    } else {
        -m
    }
}

/// The canonical denominator of the fraction `n / d`: the magnitude of
/// `d` reduced by the gcd of the two magnitudes.
pub open spec fn norm_den(n: int, d: int) -> int {
    (abs(d) / gcd(abs(n), abs(d))) as int
}

/// The canonical form of the fraction `n / d`, for `d != 0` and
/// magnitudes within the signed 64-bit range.
pub open spec fn normalized(n: int, d: int) -> Rational {
    Rational { numerator: norm_num(n, d) as i64, denominator: norm_den(n, d) as i64 }
}

impl Rational {
    /// A value escapes the constructor and the arithmetic operators
    /// only in canonical form: positive denominator, fully reduced.
    /// Zero is then represented uniquely as `0/1`.
    pub open spec fn is_canonical(self) -> bool {
        self.denominator > 0 && gcd(abs(self.numerator as int), self.denominator as nat) == 1
    }

    /// The exact value of `self`, compared by cross-multiplication:
    /// `self` and the fraction `n / d` denote the same rational number.
    pub open spec fn represents(self, n: int, d: int) -> bool {
        self.numerator * d == n * self.denominator
    }
}

/// The canonical form of `n / d` has a positive, fully reduced
/// denominator, magnitudes no larger than those of `n` and `d`, and
/// denotes the same rational number as `n / d`.
pub proof fn lemma_norm_props(n: int, d: int)
    requires
        d != 0,
    ensures
        0 < norm_den(n, d) <= abs(d),
        abs(norm_num(n, d)) <= abs(n),
        gcd(abs(norm_num(n, d)), norm_den(n, d) as nat) == 1,
        norm_num(n, d) * d == n * norm_den(n, d),
        n == 0 ==> norm_num(n, d) == 0 && norm_den(n, d) == 1,
{
    let an = abs(n);
    let ad = abs(d);
    let g = gcd(an, ad);
    lemma_gcd_pos(an, ad);
    lemma_gcd_divides(an, ad);
    let mn = an / g;
    let md = ad / g;
    lemma_fundamental_div_mod(an as int, g as int);
    lemma_fundamental_div_mod(ad as int, g as int);
    assert(an == g * mn);
    assert(ad == g * md);
    assert(md > 0 && md <= ad && mn <= an) by (nonlinear_arith)
        requires an == g * mn, ad == g * md, g > 0, ad > 0;
    if n == 0 {
        assert(gcd(0, ad) == gcd(ad, 0nat % ad));
        vstd::arithmetic::div_mod::lemma_small_mod(0, ad);
        assert(g == ad);
        vstd::arithmetic::div_mod::lemma_div_by_self(ad as int);
        vstd::arithmetic::div_mod::lemma_div_of0(ad as int);
        lemma_gcd_one(0);
    } else {
        lemma_gcd_div_coprime(an, ad);
    }
    assert(mn * ad == an * md) by (nonlinear_arith)
        requires an == g * mn, ad == g * md;
    if n < 0 {
        assert(n == -(an as int));
        if d < 0 {
            assert(norm_num(n, d) * d == n * norm_den(n, d)) by (nonlinear_arith)
                requires
                    mn * ad == an * md,
                    norm_num(n, d) == mn as int,
                    norm_den(n, d) == md as int,
                    n == -(an as int),
                    d == -(ad as int);
        } else {
            assert(norm_num(n, d) * d == n * norm_den(n, d)) by (nonlinear_arith)
                requires
                    mn * ad == an * md,
                    norm_num(n, d) == -(mn as int),
                    norm_den(n, d) == md as int,
                    n == -(an as int),
                    d == ad as int;
        }
    } else {
        assert(n == an as int);
        if d < 0 {
            assert(norm_num(n, d) * d == n * norm_den(n, d)) by (nonlinear_arith)
                requires
                    mn * ad == an * md,
                    norm_num(n, d) == -(mn as int),
                    norm_den(n, d) == md as int,
                    n == an as int,
                    d == -(ad as int);
        } else {
            assert(norm_num(n, d) * d == n * norm_den(n, d)) by (nonlinear_arith)
                requires
                    mn * ad == an * md,
                    norm_num(n, d) == mn as int,
                    norm_den(n, d) == md as int,
                    n == an as int,
                    d == ad as int;
        }
    }
}

/// Canonical forms are unique: two canonical fractions that denote the
/// same rational number are equal.
pub proof fn lemma_canonical_unique(a: Rational, b: Rational)
    requires
        a.is_canonical(),
        b.is_canonical(),
        a.numerator * b.denominator == b.numerator * a.denominator,
    ensures
        a == b,
{
    let n1 = a.numerator as int;
    let d1 = a.denominator as int;
    let n2 = b.numerator as int;
    let d2 = b.denominator as int;
    assert(abs(n1) * d2 == abs(n2) * d1) by (nonlinear_arith)
        requires n1 * d2 == n2 * d1, d1 > 0, d2 > 0;
    assert((abs(n2) * d1) % d1 == 0) by {
        vstd::arithmetic::div_mod::lemma_mod_multiples_basic(abs(n2) as int, d1);
    }
    assert((abs(n1) * (d2 as nat)) % (d1 as nat) == 0);
    lemma_coprime_divides(abs(n1), d1 as nat, d2 as nat);
    assert(abs(n2) * d1 == abs(n1) * d2) by (nonlinear_arith)
        requires abs(n1) * d2 == abs(n2) * d1;
    assert((abs(n1) * d2) % d2 == 0) by {
        vstd::arithmetic::div_mod::lemma_mod_multiples_basic(abs(n1) as int, d2);
    }
    lemma_coprime_divides(abs(n2), d2 as nat, d1 as nat);
    lemma_divisor_le(d2 as nat, d1 as nat);
    lemma_divisor_le(d1 as nat, d2 as nat);
    assert(d1 == d2);
    assert(n1 == n2) by (nonlinear_arith)
        requires n1 * d2 == n2 * d1, d1 == d2, d1 > 0;
}

/// The canonical form of `n / d`, for magnitudes within the 64-bit
/// range, is a canonical [`Rational`] denoting the same value.
pub proof fn lemma_normalized_wf(n: int, d: int)
    requires
        d != 0,
        abs(n) <= i64::MAX as nat,
        abs(d) <= i64::MAX as nat,
    ensures
        normalized(n, d).is_canonical(),
        normalized(n, d).numerator == norm_num(n, d),
        normalized(n, d).denominator == norm_den(n, d),
        normalized(n, d).represents(n, d),
{
    lemma_norm_props(n, d);
}

/// Normalizing a canonical fraction gives it back unchanged.
pub proof fn lemma_normalized_identity(r: Rational)
    requires
        r.is_canonical(),
    ensures
        normalized(r.numerator as int, r.denominator as int) == r,
{
    let n = r.numerator as int;
    let d = r.denominator as int;
    assert(gcd(abs(n), abs(d)) == 1);
    vstd::arithmetic::div_mod::lemma_div_basics(abs(n) as int);
    vstd::arithmetic::div_mod::lemma_div_basics(abs(d) as int);
    assert(norm_num(n, d) == n);
    assert(norm_den(n, d) == d);
}

/// The canonical zero, `0/1`.
pub open spec fn rational_zero() -> Rational {
    Rational { numerator: 0, denominator: 1 }
}

/// The canonical one, `1/1`.
pub open spec fn rational_one() -> Rational {
    Rational { numerator: 1, denominator: 1 }
}

/// The canonical sum of two canonical fractions:
/// `(a.n * b.d + b.n * a.d) / (a.d * b.d)`, normalized.
pub open spec fn spec_add(a: Rational, b: Rational) -> Rational {
    normalized(
        a.numerator * b.denominator + b.numerator * a.denominator,
        a.denominator * b.denominator,
    )
}

/// The canonical difference of two canonical fractions:
/// `(a.n * b.d - b.n * a.d) / (a.d * b.d)`, normalized.
pub open spec fn spec_sub(a: Rational, b: Rational) -> Rational {
    normalized(
        a.numerator * b.denominator - b.numerator * a.denominator,
        a.denominator * b.denominator,
    )
}

/// The canonical product of two canonical fractions:
/// `(a.n * b.n) / (a.d * b.d)`, normalized.
pub open spec fn spec_mul(a: Rational, b: Rational) -> Rational {
    normalized(a.numerator * b.numerator, a.denominator * b.denominator)
}

/// The canonical quotient of two canonical fractions:
/// `(a.n * b.d) / (a.d * b.n)`, normalized.  Meaningful only when
/// `b` is not zero.
pub open spec fn spec_div(a: Rational, b: Rational) -> Rational {
    normalized(a.numerator * b.denominator, a.denominator * b.numerator)
}

/// `x` lies strictly inside the signed 64-bit range, so that both `x`
/// and `-x` are machine-representable.
pub open spec fn fits_i64(x: int) -> bool {
    -(i64::MAX as int) <= x <= i64::MAX as int
}

/// The machine bounds under which the sum of two canonical fractions
/// can be computed in 64-bit arithmetic.
pub open spec fn can_add(a: Rational, b: Rational) -> bool {
    &&& fits_i64(a.numerator * b.denominator)
    &&& fits_i64(b.numerator * a.denominator)
    &&& fits_i64(a.numerator * b.denominator + b.numerator * a.denominator)
    &&& fits_i64(a.denominator * b.denominator)
}

/// The machine bounds under which the difference of two canonical
/// fractions can be computed in 64-bit arithmetic.
pub open spec fn can_sub(a: Rational, b: Rational) -> bool {
    &&& fits_i64(a.numerator * b.denominator)
    &&& fits_i64(b.numerator * a.denominator)
    &&& fits_i64(a.numerator * b.denominator - b.numerator * a.denominator)
    &&& fits_i64(a.denominator * b.denominator)
}

/// The machine bounds under which the product of two canonical
/// fractions can be computed in 64-bit arithmetic.
pub open spec fn can_mul(a: Rational, b: Rational) -> bool {
    &&& fits_i64(a.numerator * b.numerator)
    &&& fits_i64(a.denominator * b.denominator)
}

/// The machine bounds under which the quotient of two canonical
/// fractions can be computed in 64-bit arithmetic.
pub open spec fn can_div(a: Rational, b: Rational) -> bool {
    &&& fits_i64(a.numerator * b.denominator)
    &&& fits_i64(a.denominator * b.numerator)
}

/// Euclid's algorithm on 64-bit integers.
pub fn gcd_u64(a: u64, b: u64) -> (g: u64)
    ensures
        g == gcd(a as nat, b as nat),
{
    let mut x: u64 = a;
    let mut y: u64 = b;
    while y != 0
        invariant
            gcd(x as nat, y as nat) == gcd(a as nat, b as nat),
        decreases y,
    {
        let r: u64 = x % y;
        x = y;
        y = r;
    }
    x
}

impl Rational {
    /// The normalizing constructor: reduces `numerator / denominator`
    /// to canonical form.  Fails with [`RationalError::DivisionByZero`]
    /// if and only if the denominator is zero.
    pub fn new(numerator: i64, denominator: i64) -> (r: Result<Rational, RationalError>)
        requires
            numerator > i64::MIN,
            denominator > i64::MIN,
        ensures
            r matches Ok(v) ==> {
                &&& denominator != 0
                &&& v == normalized(numerator as int, denominator as int)
                &&& v.is_canonical()
                &&& v.represents(numerator as int, denominator as int)
                &&& abs(v.numerator as int) <= abs(numerator as int)
                &&& v.denominator <= abs(denominator as int)
            },
            r matches Err(e) ==> denominator == 0 && e == RationalError::DivisionByZero,
            denominator == 0 <==> r is Err,
    {
        if denominator == 0 {
            return Err(RationalError::DivisionByZero);
        }
        proof {
            lemma_normalized_wf(numerator as int, denominator as int);
        }
        let mag_n: u64 = if numerator < 0 {
            (-numerator) as u64
        } else {
            numerator as u64
        };
        let mag_d: u64 = if denominator < 0 {
            (-denominator) as u64
        } else {
            denominator as u64
        };
        let g: u64 = gcd_u64(mag_n, mag_d);
        proof {
            lemma_gcd_pos(mag_n as nat, mag_d as nat);
            lemma_norm_props(numerator as int, denominator as int);
        }
        let red_n: u64 = mag_n / g;
        let red_d: u64 = mag_d / g;
        let negative: bool = (numerator < 0) != (denominator < 0);
        let num: i64 = if negative {
            -(red_n as i64)
        } else {
            red_n as i64
        };
        Ok(Rational { numerator: num, denominator: red_d as i64 })
    }

    /// The canonical zero, `0/1`.
    pub fn zero() -> (r: Rational)
        ensures
            r == rational_zero(),
            r.is_canonical(),
    {
        proof {
            lemma_gcd_one(0);
        }
        Rational { numerator: 0, denominator: 1 }
    }

    /// The canonical one, `1/1`.
    pub fn one() -> (r: Rational)
        ensures
            r == rational_one(),
            r.is_canonical(),
    {
        proof {
            lemma_gcd_one(1);
        }
        Rational { numerator: 1, denominator: 1 }
    }

    /// The integer `n` as the rational `n/1`.
    pub fn from_integer(n: i64) -> (r: Rational)
        ensures
            r.numerator == n,
            r.denominator == 1,
            r.is_canonical(),
    {
        proof {
            lemma_gcd_one(abs(n as int));
        }
        Rational { numerator: n, denominator: 1 }
    }

    /// The sum of two canonical fractions, `(ad + cb) / bd` normalized.
    pub fn add(self, other: Rational) -> (r: Rational)
        requires
            self.is_canonical(),
            other.is_canonical(),
            can_add(self, other),
        ensures
            r == spec_add(self, other),
            r.is_canonical(),
            r.represents(
                self.numerator * other.denominator + other.numerator * self.denominator,
                self.denominator * other.denominator,
            ),
    {
        let n: i64 = self.numerator * other.denominator + other.numerator * self.denominator;
        let d: i64 = self.denominator * other.denominator;
        proof {
            assert(d > 0) by (nonlinear_arith)
                requires self.denominator > 0 && other.denominator > 0 && d == self.denominator
                    * other.denominator;
        }
        match Rational::new(n, d) {
            Ok(v) => v,
            Err(_) => {
                proof {
                    assert(false);
                }
                Rational { numerator: 0, denominator: 1 }
            },
        }
    }

    /// The difference of two canonical fractions, `(ad - cb) / bd`
    /// normalized.
    pub fn sub(self, other: Rational) -> (r: Rational)
        requires
            self.is_canonical(),
            other.is_canonical(),
            can_sub(self, other),
        ensures
            r == spec_sub(self, other),
            r.is_canonical(),
            r.represents(
                self.numerator * other.denominator - other.numerator * self.denominator,
                self.denominator * other.denominator,
            ),
    {
        let n: i64 = self.numerator * other.denominator - other.numerator * self.denominator;
        let d: i64 = self.denominator * other.denominator;
        proof {
            assert(d > 0) by (nonlinear_arith)
                requires self.denominator > 0 && other.denominator > 0 && d == self.denominator
                    * other.denominator;
        }
        match Rational::new(n, d) {
            Ok(v) => v,
            Err(_) => {
                proof {
                    assert(false);
                }
                Rational { numerator: 0, denominator: 1 }
            },
        }
    }

    /// The product of two canonical fractions, `ac / bd` normalized.
    pub fn mul(self, other: Rational) -> (r: Rational)
        requires
            self.is_canonical(),
            other.is_canonical(),
            can_mul(self, other),
        ensures
            r == spec_mul(self, other),
            r.is_canonical(),
            r.represents(
                self.numerator * other.numerator,
                self.denominator * other.denominator,
            ),
    {
        let n: i64 = self.numerator * other.numerator;
        let d: i64 = self.denominator * other.denominator;
        proof {
            assert(d > 0) by (nonlinear_arith)
                requires self.denominator > 0 && other.denominator > 0 && d == self.denominator
                    * other.denominator;
        }
        match Rational::new(n, d) {
            Ok(v) => v,
            Err(_) => {
                proof {
                    assert(false);
                }
                Rational { numerator: 0, denominator: 1 }
            },
        }
    }

    /// The quotient of two canonical fractions, `ad / bc` normalized.
    /// Dividing by a zero-valued rational gives a zero denominator and
    /// fails with [`RationalError::DivisionByZero`], exactly as direct
    /// construction would.
    pub fn div(self, other: Rational) -> (r: Result<Rational, RationalError>)
        requires
            self.is_canonical(),
            other.is_canonical(),
            can_div(self, other),
        ensures
            other.numerator == 0 <==> r is Err,
            r matches Err(e) ==> e == RationalError::DivisionByZero,
            r matches Ok(v) ==> {
                &&& v == spec_div(self, other)
                &&& v.is_canonical()
                &&& v.represents(
                    self.numerator * other.denominator,
                    self.denominator * other.numerator,
                )
            },
    {
        let n: i64 = self.numerator * other.denominator;
        let d: i64 = self.denominator * other.numerator;
        proof {
            assert(d == 0 <==> other.numerator == 0) by (nonlinear_arith)
                requires self.denominator > 0 && d == self.denominator * other.numerator;
        }
        Rational::new(n, d)
    }
}

/// Fractions denoting the same rational number have the same canonical
/// form.
pub proof fn lemma_normalized_congruent(n1: int, d1: int, n2: int, d2: int)
    requires
        d1 != 0,
        d2 != 0,
        abs(n1) <= i64::MAX as nat,
        abs(d1) <= i64::MAX as nat,
        abs(n2) <= i64::MAX as nat,
        abs(d2) <= i64::MAX as nat,
        n1 * d2 == n2 * d1,
    ensures
        normalized(n1, d1) == normalized(n2, d2),
{
    lemma_normalized_wf(n1, d1);
    lemma_normalized_wf(n2, d2);
    let a = normalized(n1, d1);
    let b = normalized(n2, d2);
    assert(a.numerator * d2 == n2 * a.denominator) by (nonlinear_arith)
        requires
            a.numerator * d1 == n1 * a.denominator,
            n1 * d2 == n2 * d1,
            d1 != 0;
    assert(a.numerator * b.denominator == b.numerator * a.denominator) by (nonlinear_arith)
        requires
            a.numerator * d2 == n2 * a.denominator,
            b.numerator * d2 == n2 * b.denominator,
            d2 != 0;
    lemma_canonical_unique(a, b);
}

/// Two canonical fractions denoting the same rational number `n / d`
/// are equal.
pub proof fn lemma_represents_unique(x: Rational, y: Rational, n: int, d: int)
    requires
        x.is_canonical(),
        y.is_canonical(),
        x.represents(n, d),
        y.represents(n, d),
        d != 0,
    ensures
        x == y,
{
    assert(x.numerator * y.denominator == y.numerator * x.denominator) by (nonlinear_arith)
        requires
            x.numerator * d == n * x.denominator,
            y.numerator * d == n * y.denominator,
            d != 0;
    lemma_canonical_unique(x, y);
}

/// If `s/sd` denotes `(a/ad) + (b/bd)` and `l/ld` denotes
/// `(s/sd) + (c/cd)`, then `l/ld` denotes the three-way sum over the
/// common denominator `ad * bd * cd`.
proof fn lemma_sum_left_nested(
    an: int,
    ad: int,
    bn: int,
    bd: int,
    cn: int,
    cd: int,
    sn: int,
    sd: int,
    ln: int,
    ld: int,
)
    requires
        sd > 0,
        sn * (ad * bd) == (an * bd + bn * ad) * sd,
        ln * (sd * cd) == (sn * cd + cn * sd) * ld,
    ensures
        ln * (ad * bd * cd) == (an * bd * cd + bn * ad * cd + cn * ad * bd) * ld,
{
    let p = ad * bd;
    let u = an * bd + bn * ad;
    let x = ln * (sd * cd) * p;
    assert(x == (sn * cd + cn * sd) * ld * p) by (nonlinear_arith)
        requires
            x == ln * (sd * cd) * p,
            ln * (sd * cd) == (sn * cd + cn * sd) * ld;
    assert((sn * cd + cn * sd) * ld * p == (sn * p) * (cd * ld) + cn * sd * ld * p)
        by (nonlinear_arith);
    assert((sn * p) * (cd * ld) == (u * sd) * (cd * ld)) by (nonlinear_arith)
        requires sn * p == u * sd;
    let xx = u * cd;
    let yy = cn * p;
    assert((u * sd) * (cd * ld) == sd * (xx * ld)) by (nonlinear_arith)
        requires xx == u * cd;
    assert(cn * sd * ld * p == sd * (yy * ld)) by (nonlinear_arith)
        requires yy == cn * p;
    assert(sd * (xx * ld) + sd * (yy * ld) == sd * ((xx + yy) * ld)) by (nonlinear_arith);
    assert(x == sd * (ln * (p * cd))) by (nonlinear_arith)
        requires x == ln * (sd * cd) * p;
    assert(ln * (p * cd) == (u * cd + cn * p) * ld) by (nonlinear_arith)
        requires
            sd > 0,
            sd * (ln * (p * cd)) == sd * ((u * cd + cn * p) * ld);
    assert(u * cd + cn * p == an * bd * cd + bn * ad * cd + cn * ad * bd) by (nonlinear_arith)
        requires
            u == an * bd + bn * ad,
            p == ad * bd;
}

/// If `t/td` denotes `(b/bd) + (c/cd)` and `r/rd` denotes
/// `(a/ad) + (t/td)`, then `r/rd` denotes the same three-way sum.
proof fn lemma_sum_right_nested(
    an: int,
    ad: int,
    bn: int,
    bd: int,
    cn: int,
    cd: int,
    tn: int,
    td: int,
    rn: int,
    rd: int,
)
    requires
        td > 0,
        tn * (bd * cd) == (bn * cd + cn * bd) * td,
        rn * (ad * td) == (an * td + tn * ad) * rd,
    ensures
        rn * (ad * bd * cd) == (an * bd * cd + bn * ad * cd + cn * ad * bd) * rd,
{
    let q = bd * cd;
    let v = bn * cd + cn * bd;
    let x = rn * (ad * td) * q;
    assert(x == (an * td + tn * ad) * rd * q) by (nonlinear_arith)
        requires
            x == rn * (ad * td) * q,
            rn * (ad * td) == (an * td + tn * ad) * rd;
    assert((an * td + tn * ad) * rd * q == an * td * rd * q + (tn * q) * (ad * rd))
        by (nonlinear_arith);
    assert((tn * q) * (ad * rd) == (v * td) * (ad * rd)) by (nonlinear_arith)
        requires tn * q == v * td;
    let xx = an * q;
    let yy = v * ad;
    assert(an * td * rd * q == td * (xx * rd)) by (nonlinear_arith)
        requires xx == an * q;
    assert((v * td) * (ad * rd) == td * (yy * rd)) by (nonlinear_arith)
        requires yy == v * ad;
    assert(td * (xx * rd) + td * (yy * rd) == td * ((xx + yy) * rd)) by (nonlinear_arith);
    assert(x == td * (rn * (ad * q))) by (nonlinear_arith)
        requires x == rn * (ad * td) * q;
    assert(rn * (ad * q) == (an * q + v * ad) * rd) by (nonlinear_arith)
        requires
            td > 0,
            td * (rn * (ad * q)) == td * ((an * q + v * ad) * rd);
    assert(ad * q == ad * bd * cd) by (nonlinear_arith)
        requires q == bd * cd;
    assert(an * q + v * ad == an * bd * cd + bn * ad * cd + cn * ad * bd) by (nonlinear_arith)
        requires
            v == bn * cd + cn * bd,
            q == bd * cd;
}

/// If `s/sd` denotes `(a/ad) * (b/bd)` and `l/ld` denotes
/// `(s/sd) * (c/cd)`, then `l/ld` denotes the three-way product.
proof fn lemma_prod_left_nested(
    an: int,
    ad: int,
    bn: int,
    bd: int,
    cn: int,
    cd: int,
    sn: int,
    sd: int,
    ln: int,
    ld: int,
)
    requires
        sd > 0,
        sn * (ad * bd) == (an * bn) * sd,
        ln * (sd * cd) == (sn * cn) * ld,
    ensures
        ln * (ad * bd * cd) == (an * bn * cn) * ld,
{
    let p = ad * bd;
    let x = ln * (sd * cd) * p;
    assert(x == (sn * cn) * ld * p) by (nonlinear_arith)
        requires
            x == ln * (sd * cd) * p,
            ln * (sd * cd) == (sn * cn) * ld;
    assert((sn * cn) * ld * p == (sn * p) * (cn * ld)) by (nonlinear_arith);
    assert((sn * p) * (cn * ld) == ((an * bn) * sd) * (cn * ld)) by (nonlinear_arith)
        requires sn * p == (an * bn) * sd;
    assert(((an * bn) * sd) * (cn * ld) == sd * ((an * bn * cn) * ld)) by (nonlinear_arith);
    assert(x == sd * (ln * (p * cd))) by (nonlinear_arith)
        requires x == ln * (sd * cd) * p;
    assert(ln * (p * cd) == (an * bn * cn) * ld) by (nonlinear_arith)
        requires
            sd > 0,
            sd * (ln * (p * cd)) == sd * ((an * bn * cn) * ld);
}

/// If `t/td` denotes `(b/bd) * (c/cd)` and `r/rd` denotes
/// `(a/ad) * (t/td)`, then `r/rd` denotes the same three-way product.
proof fn lemma_prod_right_nested(
    an: int,
    ad: int,
    bn: int,
    bd: int,
    cn: int,
    cd: int,
    tn: int,
    td: int,
    rn: int,
    rd: int,
)
    requires
        td > 0,
        tn * (bd * cd) == (bn * cn) * td,
        rn * (ad * td) == (an * tn) * rd,
    ensures
        rn * (ad * bd * cd) == (an * bn * cn) * rd,
{
    let q = bd * cd;
    let x = rn * (ad * td) * q;
    assert(x == (an * tn) * rd * q) by (nonlinear_arith)
        requires
            x == rn * (ad * td) * q,
            rn * (ad * td) == (an * tn) * rd;
    assert((an * tn) * rd * q == (tn * q) * (an * rd)) by (nonlinear_arith);
    assert((tn * q) * (an * rd) == ((bn * cn) * td) * (an * rd)) by (nonlinear_arith)
        requires tn * q == (bn * cn) * td;
    assert(((bn * cn) * td) * (an * rd) == td * ((an * bn * cn) * rd)) by (nonlinear_arith);
    assert(x == td * (rn * (ad * q))) by (nonlinear_arith)
        requires x == rn * (ad * td) * q;
    assert(rn * (ad * q) == (an * bn * cn) * rd) by (nonlinear_arith)
        requires
            td > 0,
            td * (rn * (ad * q)) == td * ((an * bn * cn) * rd);
    assert(ad * q == ad * bd * cd) by (nonlinear_arith)
        requires q == bd * cd;
}

/// Zero is the additive identity: `a + 0 == a` for every canonical `a`.
pub proof fn lemma_add_zero(a: Rational)
    requires
        a.is_canonical(),
    ensures
        spec_add(a, rational_zero()) == a,
{
    assert(a.numerator * 1 + 0 * a.denominator == a.numerator);
    assert(a.denominator * 1 == a.denominator);
    lemma_normalized_identity(a);
}

/// One is the multiplicative identity: `a * 1 == a` for every
/// canonical `a`.
pub proof fn lemma_mul_one(a: Rational)
    requires
        a.is_canonical(),
    ensures
        spec_mul(a, rational_one()) == a,
{
    assert(a.numerator * 1 == a.numerator);
    assert(a.denominator * 1 == a.denominator);
    lemma_normalized_identity(a);
}

/// Subtracting a canonical fraction from itself gives zero:
/// `a - a == 0`.
pub proof fn lemma_sub_self(a: Rational)
    requires
        a.is_canonical(),
    ensures
        spec_sub(a, a) == rational_zero(),
{
    let dd = a.denominator * a.denominator;
    assert(dd > 0) by (nonlinear_arith)
        requires a.denominator > 0 && dd == a.denominator * a.denominator;
    assert(a.numerator * a.denominator - a.numerator * a.denominator == 0);
    lemma_norm_props(0, dd);
}

/// Addition of canonical fractions is commutative: `a + b == b + a`.
pub proof fn lemma_add_comm(a: Rational, b: Rational)
    ensures
        spec_add(a, b) == spec_add(b, a),
{
    lemma_mul_is_commutative(a.numerator as int, b.denominator as int);
    lemma_mul_is_commutative(b.numerator as int, a.denominator as int);
    lemma_mul_is_commutative(a.denominator as int, b.denominator as int);
}

/// Multiplication of canonical fractions is commutative:
/// `a * b == b * a`.
pub proof fn lemma_mul_comm(a: Rational, b: Rational)
    ensures
        spec_mul(a, b) == spec_mul(b, a),
{
    lemma_mul_is_commutative(a.numerator as int, b.numerator as int);
    lemma_mul_is_commutative(a.denominator as int, b.denominator as int);
}

/// Addition of canonical fractions is associative whenever the
/// intermediate sums stay within the 64-bit machine bounds:
/// `(a + b) + c == a + (b + c)`.
pub proof fn lemma_add_assoc(a: Rational, b: Rational, c: Rational)
    requires
        a.is_canonical(),
        b.is_canonical(),
        c.is_canonical(),
        can_add(a, b),
        can_add(spec_add(a, b), c),
        can_add(b, c),
        can_add(a, spec_add(b, c)),
    ensures
        spec_add(spec_add(a, b), c) == spec_add(a, spec_add(b, c)),
{
    let s = spec_add(a, b);
    let t = spec_add(b, c);
    vstd::arithmetic::mul::lemma_mul_strictly_positive(
        a.denominator as int,
        b.denominator as int,
    );
    vstd::arithmetic::mul::lemma_mul_strictly_positive(
        b.denominator as int,
        c.denominator as int,
    );
    lemma_normalized_wf(
        a.numerator * b.denominator + b.numerator * a.denominator,
        a.denominator * b.denominator,
    );
    lemma_normalized_wf(
        b.numerator * c.denominator + c.numerator * b.denominator,
        b.denominator * c.denominator,
    );
    let lhs = spec_add(s, c);
    let rhs = spec_add(a, t);
    vstd::arithmetic::mul::lemma_mul_strictly_positive(
        s.denominator as int,
        c.denominator as int,
    );
    vstd::arithmetic::mul::lemma_mul_strictly_positive(
        a.denominator as int,
        t.denominator as int,
    );
    lemma_normalized_wf(
        s.numerator * c.denominator + c.numerator * s.denominator,
        s.denominator * c.denominator,
    );
    lemma_normalized_wf(
        a.numerator * t.denominator + t.numerator * a.denominator,
        a.denominator * t.denominator,
    );
    let big_n = a.numerator * b.denominator * c.denominator + b.numerator * a.denominator
        * c.denominator + c.numerator * a.denominator * b.denominator;
    let big_d = a.denominator * b.denominator * c.denominator;
    assert(big_d != 0) by (nonlinear_arith)
        requires
            a.denominator > 0,
            b.denominator > 0,
            c.denominator > 0,
            big_d == a.denominator * b.denominator * c.denominator;
    lemma_sum_left_nested(
        a.numerator as int,
        a.denominator as int,
        b.numerator as int,
        b.denominator as int,
        c.numerator as int,
        c.denominator as int,
        s.numerator as int,
        s.denominator as int,
        lhs.numerator as int,
        lhs.denominator as int,
    );
    lemma_sum_right_nested(
        a.numerator as int,
        a.denominator as int,
        b.numerator as int,
        b.denominator as int,
        c.numerator as int,
        c.denominator as int,
        t.numerator as int,
        t.denominator as int,
        rhs.numerator as int,
        rhs.denominator as int,
    );
    lemma_represents_unique(lhs, rhs, big_n, big_d);
}

/// Multiplication of canonical fractions is associative whenever the
/// intermediate products stay within the 64-bit machine bounds:
/// `(a * b) * c == a * (b * c)`.
pub proof fn lemma_mul_assoc(a: Rational, b: Rational, c: Rational)
    requires
        a.is_canonical(),
        b.is_canonical(),
        c.is_canonical(),
        can_mul(a, b),
        can_mul(spec_mul(a, b), c),
        can_mul(b, c),
        can_mul(a, spec_mul(b, c)),
    ensures
        spec_mul(spec_mul(a, b), c) == spec_mul(a, spec_mul(b, c)),
{
    let s = spec_mul(a, b);
    let t = spec_mul(b, c);
    vstd::arithmetic::mul::lemma_mul_strictly_positive(
        a.denominator as int,
        b.denominator as int,
    );
    vstd::arithmetic::mul::lemma_mul_strictly_positive(
        b.denominator as int,
        c.denominator as int,
    );
    lemma_normalized_wf(a.numerator * b.numerator, a.denominator * b.denominator);
    lemma_normalized_wf(b.numerator * c.numerator, b.denominator * c.denominator);
    let lhs = spec_mul(s, c);
    let rhs = spec_mul(a, t);
    vstd::arithmetic::mul::lemma_mul_strictly_positive(
        s.denominator as int,
        c.denominator as int,
    );
    vstd::arithmetic::mul::lemma_mul_strictly_positive(
        a.denominator as int,
        t.denominator as int,
    );
    lemma_normalized_wf(s.numerator * c.numerator, s.denominator * c.denominator);
    lemma_normalized_wf(a.numerator * t.numerator, a.denominator * t.denominator);
    let big_n = a.numerator * b.numerator * c.numerator;
    let big_d = a.denominator * b.denominator * c.denominator;
    assert(big_d != 0) by (nonlinear_arith)
        requires
            a.denominator > 0,
            b.denominator > 0,
            c.denominator > 0,
            big_d == a.denominator * b.denominator * c.denominator;
    lemma_prod_left_nested(
        a.numerator as int,
        a.denominator as int,
        b.numerator as int,
        b.denominator as int,
        c.numerator as int,
        c.denominator as int,
        s.numerator as int,
        s.denominator as int,
        lhs.numerator as int,
        lhs.denominator as int,
    );
    lemma_prod_right_nested(
        a.numerator as int,
        a.denominator as int,
        b.numerator as int,
        b.denominator as int,
        c.numerator as int,
        c.denominator as int,
        t.numerator as int,
        t.denominator as int,
        rhs.numerator as int,
        rhs.denominator as int,
    );
    lemma_represents_unique(lhs, rhs, big_n, big_d);
}

} // verus!
