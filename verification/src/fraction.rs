//! Exact non-negative fractions with overflow checks, as bundles weigh their
//! contents.
//!
//! The arithmetic follows the positive-number branches of Apache Commons
//! Lang's `Fraction`: results are kept in lowest terms and every step that
//! would leave the `i32` range fails instead.

use vstd::prelude::*;

verus! {

/// Why a bundle weight could not be computed.
#[derive(Debug, Clone, Copy, PartialEq, Eq, Structural)]
pub enum BundleWeightError {
    /// A fraction with a negative numerator or a non-positive denominator.
    InvalidFraction,
    /// A negative item count.
    InvalidCount,
    /// A step of the computation left the `i32` range.
    ExcessiveWeight,
}

/// The greatest common divisor of two naturals, by Euclid's algorithm.
pub open spec fn spec_gcd(a: nat, b: nat) -> nat
    decreases b,
{
    if b == 0 {
        a
    } else {
        spec_gcd(b, a % b)
    }
}

/// Whether `g` divides `a`.
pub open spec fn divides(g: int, a: int) -> bool {
    exists|k: int| #[trigger] (g * k) == a
}

/// The greatest common divisor divides both arguments and is positive when
/// one of them is.
pub proof fn lemma_gcd_divides(a: nat, b: nat)
    requires
        a > 0 || b > 0,
    ensures
        spec_gcd(a, b) > 0,
        divides(spec_gcd(a, b) as int, a as int),
        divides(spec_gcd(a, b) as int, b as int),
    decreases b,
{
    if b == 0 {
        assert(a * 1 == a);
        assert(a * 0 == 0);
    } else {
        let r = a % b;
        lemma_gcd_divides(b, r);
        let g = spec_gcd(b, r) as int;
        let k1 = choose|k: int| #[trigger] (g * k) == b as int;
        let k2 = choose|k: int| #[trigger] (g * k) == r as int;
        let q = (a / b) as int;
        assert(a as int == b * q + r) by (nonlinear_arith)
            requires
                b > 0,
                r == a % b,
                q == a / b,
        ;
        assert(g * (k1 * q + k2) == a as int) by (nonlinear_arith)
            requires
                g * k1 == b as int,
                g * k2 == r as int,
                a as int == b * q + r,
        ;
    }
}

/// A positive common divisor is at most a positive multiple of it.
pub proof fn lemma_divisor_le(g: int, a: int)
    requires
        g > 0,
        a > 0,
        divides(g, a),
    ensures
        g <= a,
{
    let k = choose|k: int| #[trigger] (g * k) == a;
    if k <= 0 {
        assert(g * k <= 0) by (nonlinear_arith)
            requires
                g > 0,
                k <= 0,
        ;
    } else {
        assert(g * k >= g) by (nonlinear_arith)
            requires
                g > 0,
                k >= 1,
        ;
    }
}

/// Dividing a multiple of `g` by `g` gives the factor.
pub proof fn lemma_exact_div(g: int, k: int)
    requires
        g > 0,
    ensures
        (g * k) / g == k,
        (g * k) % g == 0,
{
    vstd::arithmetic::div_mod::lemma_div_multiples_vanish(k, g);
    vstd::arithmetic::div_mod::lemma_mod_multiples_basic(k, g);
    assert(g * k == k * g) by (nonlinear_arith);
}

/// The greatest common divisor of two non-negative `i32`s.
pub fn gcd(left: i32, right: i32) -> (res: i32)
    requires
        left >= 0,
        right >= 0,
    ensures
        res == spec_gcd(left as nat, right as nat),
{
    let mut a = left;
    let mut b = right;
    while b != 0
        invariant
            a >= 0,
            b >= 0,
            spec_gcd(a as nat, b as nat) == spec_gcd(left as nat, right as nat),
        decreases b,
    {
        let r = a % b;
        a = b;
        b = r;
    }
    a
}

/// The greatest common divisor of two non-negative `i64`s.
pub fn gcd_i64(left: i64, right: i64) -> (res: i64)
    requires
        left >= 0,
        right >= 0,
    ensures
        res == spec_gcd(left as nat, right as nat),
{
    let mut a = left;
    let mut b = right;
    while b != 0
        invariant
            a >= 0,
            b >= 0,
            spec_gcd(a as nat, b as nat) == spec_gcd(left as nat, right as nat),
        decreases b,
    {
        let r = a % b;
        a = b;
        b = r;
    }
    a
}

/// Whether `v` is an `i32`.
pub open spec fn fits_i32(v: int) -> bool {
    i32::MIN <= v <= i32::MAX
}

/// The product, unless it leaves the `i32` range.
pub fn checked_mul(left: i32, right: i32) -> (res: Result<i32, BundleWeightError>)
    ensures
        res is Ok <==> fits_i32(left * right),
        res matches Ok(v) ==> v == left * right,
        res matches Err(e) ==> e == BundleWeightError::ExcessiveWeight,
{
    match left.checked_mul(right) {
        Some(v) => Ok(v),
        None => Err(BundleWeightError::ExcessiveWeight),
    }
}

/// The sum, unless it leaves the `i32` range.
pub fn checked_add(left: i32, right: i32) -> (res: Result<i32, BundleWeightError>)
    ensures
        res is Ok <==> fits_i32(left + right),
        res matches Ok(v) ==> v == left + right,
        res matches Err(e) ==> e == BundleWeightError::ExcessiveWeight,
{
    match left.checked_add(right) {
        Some(v) => Ok(v),
        None => Err(BundleWeightError::ExcessiveWeight),
    }
}

/// A non-negative fraction.
#[derive(Debug, Clone, Copy, PartialEq, Eq, Structural)]
pub struct CheckedFraction {
    pub numerator: i32,
    pub denominator: i32,
}

/// Whether `f` is a fraction the arithmetic keeps: a non-negative numerator
/// over a positive denominator.
pub open spec fn valid(f: CheckedFraction) -> bool {
    f.numerator >= 0 && f.denominator > 0
}

/// Whether `f` stands for the rational `n / d`.
pub open spec fn equals_ratio(f: CheckedFraction, n: int, d: int) -> bool {
    f.numerator * d == n * f.denominator
}

impl CheckedFraction {
    /// Zero.
    pub open spec fn zero() -> CheckedFraction {
        CheckedFraction { numerator: 0, denominator: 1 }
    }

    /// One.
    pub open spec fn one() -> CheckedFraction {
        CheckedFraction { numerator: 1, denominator: 1 }
    }

    /// The fraction `numerator / denominator` in lowest terms.
    pub open spec fn spec_new(numerator: i32, denominator: i32) -> Result<CheckedFraction, BundleWeightError> {
        if numerator < 0 || denominator <= 0 {
            Err(BundleWeightError::InvalidFraction)
        } else {
            let g = spec_gcd(numerator as nat, denominator as nat);
            Ok(CheckedFraction { numerator: (numerator as int / g as int) as i32, denominator: (denominator as int / g as int) as i32 })
        }
    }

    /// The fraction `numerator / denominator` in lowest terms; a negative
    /// numerator or a non-positive denominator is refused.
    pub fn new(numerator: i32, denominator: i32) -> (res: Result<CheckedFraction, BundleWeightError>)
        ensures
            res == Self::spec_new(numerator, denominator),
    {
        if numerator < 0 || denominator <= 0 {
            return Err(BundleWeightError::InvalidFraction);
        }
        let divisor = gcd(numerator, denominator);
        proof {
            lemma_gcd_divides(numerator as nat, denominator as nat);
        }
        Ok(CheckedFraction { numerator: numerator / divisor, denominator: denominator / divisor })
    }

    /// The sum, following the positive-number branches of Commons Lang's
    /// `Fraction.addSub`: denominators without a common factor are multiplied;
    /// otherwise the sum is formed over the reduced denominators and reduced
    /// again. Every step must stay within the `i32` range.
    pub open spec fn spec_add(self, other: CheckedFraction) -> Result<CheckedFraction, BundleWeightError> {
        if self.numerator == 0 {
            Ok(other)
        } else if other.numerator == 0 {
            Ok(self)
        } else {
            let g = spec_gcd(self.denominator as nat, other.denominator as nat) as int;
            if g == 1 {
                let left = self.numerator * other.denominator;
                let right = other.numerator * self.denominator;
                let den = self.denominator * other.denominator;
                if fits_i32(left) && fits_i32(right) && fits_i32(left + right) && fits_i32(den) {
                    Ok(CheckedFraction { numerator: (left + right) as i32, denominator: den as i32 })
                } else {
                    Err(BundleWeightError::ExcessiveWeight)
                }
            } else {
                let sum = self.numerator * (other.denominator as int / g) + other.numerator * (self.denominator as int / g);
                let reduction = spec_gcd((sum % g) as nat, g as nat) as int;
                let num = sum / reduction;
                let den = (self.denominator as int / g) * (other.denominator as int / reduction);
                if fits_i32(num) && fits_i32(den) {
                    Ok(CheckedFraction { numerator: num as i32, denominator: den as i32 })
                } else {
                    Err(BundleWeightError::ExcessiveWeight)
                }
            }
        }
    }

    /// The sum of two valid fractions; fails where a step leaves the `i32` range.
    pub fn add(self, other: CheckedFraction) -> (res: Result<CheckedFraction, BundleWeightError>)
        requires
            valid(self),
            valid(other),
        ensures
            res == self.spec_add(other),
    {
        if self.numerator == 0 {
            return Ok(other);
        }
        if other.numerator == 0 {
            return Ok(self);
        }
        let denominator_gcd = gcd(self.denominator, other.denominator);
        proof {
            lemma_gcd_divides(self.denominator as nat, other.denominator as nat);
        }
        if denominator_gcd == 1 {
            let left = checked_mul(self.numerator, other.denominator)?;
            let right = checked_mul(other.numerator, self.denominator)?;
            let numerator = checked_add(left, right)?;
            let denominator = checked_mul(self.denominator, other.denominator)?;
            return Ok(CheckedFraction { numerator, denominator });
        }
        let g = denominator_gcd as i64;
        let a: i64 = (other.denominator / denominator_gcd) as i64;
        let b: i64 = (self.denominator / denominator_gcd) as i64;
        assert(0 <= a <= i32::MAX && 0 <= b <= i32::MAX);
        let n1 = self.numerator as i64;
        let n2 = other.numerator as i64;
        assert(0 <= n1 * a <= 0x3fff_ffff_0000_0001 && 0 <= n2 * b <= 0x3fff_ffff_0000_0001) by (nonlinear_arith)
            requires
                0 <= n1 <= i32::MAX,
                0 <= n2 <= i32::MAX,
                0 <= a <= i32::MAX,
                0 <= b <= i32::MAX,
        ;
        let left: i64 = n1 * a;
        let right: i64 = n2 * b;
        let sum = left + right;
        let reduction = gcd_i64(sum % g, g);
        proof {
            lemma_gcd_divides((sum % g) as nat, g as nat);
            lemma_divisor_le(reduction as int, g as int);
        }
        let numerator = sum / reduction;
        if numerator > 0x7fff_ffff || numerator < -0x8000_0000 {
            return Err(BundleWeightError::ExcessiveWeight);
        }
        let reduction = reduction as i32;
        let denominator = checked_mul(self.denominator / denominator_gcd, other.denominator / reduction)?;
        Ok(CheckedFraction { numerator: numerator as i32, denominator })
    }

    /// The product by a whole `value`, as Commons Lang multiplies by
    /// `Fraction.getFraction(value, 1)`.
    pub open spec fn spec_multiply(self, value: i32) -> Result<CheckedFraction, BundleWeightError> {
        if value < 0 {
            Err(BundleWeightError::InvalidCount)
        } else if self.numerator == 0 || value == 0 {
            Ok(Self::zero())
        } else {
            let r = spec_gcd(value as nat, self.denominator as nat) as int;
            let m = self.numerator * (value as int / r);
            if fits_i32(m) {
                Self::spec_new(m as i32, (self.denominator as int / r) as i32)
            } else {
                Err(BundleWeightError::ExcessiveWeight)
            }
        }
    }

    /// The product of a valid fraction by a whole `value`; a negative value
    /// is refused.
    pub fn multiply(self, value: i32) -> (res: Result<CheckedFraction, BundleWeightError>)
        requires
            valid(self),
        ensures
            res == self.spec_multiply(value),
    {
        if value < 0 {
            return Err(BundleWeightError::InvalidCount);
        }
        if self.numerator == 0 || value == 0 {
            return Ok(CheckedFraction { numerator: 0, denominator: 1 });
        }
        let reduction = gcd(value, self.denominator);
        proof {
            lemma_gcd_divides(value as nat, self.denominator as nat);
        }
        let m = checked_mul(self.numerator, value / reduction)?;
        Self::new(m, self.denominator / reduction)
    }
}


/// Law: a fraction made by `new` is valid and stands for the quotient it was made from.
pub proof fn lemma_new_value(n: i32, d: i32)
    requires
        CheckedFraction::spec_new(n, d) is Ok,
    ensures
        valid(CheckedFraction::spec_new(n, d)->Ok_0),
        equals_ratio(CheckedFraction::spec_new(n, d)->Ok_0, n as int, d as int),
{
    lemma_gcd_divides(n as nat, d as nat);
    let g = spec_gcd(n as nat, d as nat) as int;
    let k1 = choose|k: int| #[trigger] (g * k) == n as int;
    let k2 = choose|k: int| #[trigger] (g * k) == d as int;
    lemma_exact_div(g, k1);
    lemma_exact_div(g, k2);
    assert(k1 >= 0 && k2 > 0 && k1 <= n && k2 <= d) by (nonlinear_arith)
        requires
            g > 0,
            g * k1 == n as int,
            g * k2 == d as int,
            n >= 0,
            d > 0,
    ;
    assert(k1 * d == n * k2) by (nonlinear_arith)
        requires
            g * k1 == n as int,
            g * k2 == d as int,
    ;
}

/// Law: the sum of two valid fractions, where it exists, is valid and stands
/// for the sum of their values.
pub proof fn lemma_add_value(a: CheckedFraction, b: CheckedFraction)
    requires
        valid(a),
        valid(b),
        a.spec_add(b) is Ok,
    ensures
        valid(a.spec_add(b)->Ok_0),
        equals_ratio(a.spec_add(b)->Ok_0, a.numerator * b.denominator + b.numerator * a.denominator,
            a.denominator * b.denominator),
{
    let f = a.spec_add(b)->Ok_0;
    if a.numerator == 0 {
        assert(b.numerator * (a.denominator * b.denominator) == (a.numerator * b.denominator + b.numerator * a.denominator) * b.denominator) by (nonlinear_arith)
            requires
                a.numerator == 0,
        ;
    } else if b.numerator == 0 {
        assert(a.numerator * (a.denominator * b.denominator) == (a.numerator * b.denominator + b.numerator * a.denominator) * a.denominator) by (nonlinear_arith)
            requires
                b.numerator == 0,
        ;
    } else {
        lemma_gcd_divides(a.denominator as nat, b.denominator as nat);
        let g = spec_gcd(a.denominator as nat, b.denominator as nat) as int;
        if g == 1 {
            assert(a.numerator * b.denominator >= 0 && b.numerator * a.denominator >= 0 && a.denominator * b.denominator > 0) by (nonlinear_arith)
                requires
                    valid(a),
                    valid(b),
            ;
        } else {
            let x = choose|k: int| #[trigger] (g * k) == a.denominator as int;
            let y = choose|k: int| #[trigger] (g * k) == b.denominator as int;
            lemma_exact_div(g, x);
            lemma_exact_div(g, y);
            assert(x > 0 && y > 0) by (nonlinear_arith)
                requires
                    g > 0,
                    g * x == a.denominator as int,
                    g * y == b.denominator as int,
                    a.denominator > 0,
                    b.denominator > 0,
            ;
            let sum = a.numerator * y + b.numerator * x;
            assert(sum > 0) by (nonlinear_arith)
                requires
                    a.numerator > 0,
                    b.numerator > 0,
                    x > 0,
                    y > 0,
                    sum == a.numerator * y + b.numerator * x,
            ;
            lemma_gcd_divides((sum % g) as nat, g as nat);
            let r = spec_gcd((sum % g) as nat, g as nat) as int;
            let m = choose|k: int| #[trigger] (r * k) == g;
            let t = choose|k: int| #[trigger] (r * k) == sum % g;
            let q = sum / g;
            assert(sum == g * q + sum % g) by (nonlinear_arith)
                requires
                    g > 0,
                    q == sum / g,
            ;
            let k = m * q + t;
            assert(r * k == sum) by (nonlinear_arith)
                requires
                    r * m == g,
                    r * t == sum % g,
                    sum == g * q + sum % g,
                    k == m * q + t,
            ;
            lemma_exact_div(r, k);
            assert(b.denominator as int == r * (m * y)) by (nonlinear_arith)
                requires
                    r * m == g,
                    g * y == b.denominator as int,
            ;
            lemma_exact_div(r, m * y);
            assert(m > 0) by (nonlinear_arith)
                requires
                    r > 0,
                    g > 0,
                    r * m == g,
            ;
            assert(k > 0) by (nonlinear_arith)
                requires
                    r > 0,
                    sum > 0,
                    r * k == sum,
            ;
            assert(x * (m * y) > 0) by (nonlinear_arith)
                requires
                    x > 0,
                    m > 0,
                    y > 0,
            ;
            let big_s = a.numerator * b.denominator + b.numerator * a.denominator;
            let big_d = a.denominator * b.denominator;
            assert(big_s == g * sum) by (nonlinear_arith)
                requires
                    g * x == a.denominator as int,
                    g * y == b.denominator as int,
                    sum == a.numerator * y + b.numerator * x,
                    big_s == a.numerator * b.denominator + b.numerator * a.denominator,
            ;
            assert(big_d == (g * g) * (x * y)) by (nonlinear_arith)
                requires
                    g * x == a.denominator as int,
                    g * y == b.denominator as int,
                    big_d == a.denominator * b.denominator,
            ;
            assert(big_s * (x * (m * y)) == (g * (x * y)) * (k * (r * m))) by (nonlinear_arith)
                requires
                    big_s == g * sum,
                    r * k == sum,
            ;
            assert(k * big_d == (g * (x * y)) * (k * g)) by (nonlinear_arith)
                requires
                    big_d == (g * g) * (x * y),
            ;
            assert(k * big_d == big_s * (x * (m * y))) by {
                assert(r * m == g);
                assert(k * (r * m) == k * g);
            }
        }
    }
}

/// Law: the product of a valid fraction by a whole number, where it exists,
/// is valid and stands for the product of the values.
pub proof fn lemma_multiply_value(a: CheckedFraction, value: i32)
    requires
        valid(a),
        a.spec_multiply(value) is Ok,
    ensures
        valid(a.spec_multiply(value)->Ok_0),
        equals_ratio(a.spec_multiply(value)->Ok_0, a.numerator * value, a.denominator as int),
{
    if a.numerator == 0 || value == 0 {
        assert(a.numerator * value == 0) by (nonlinear_arith)
            requires
                a.numerator == 0 || value == 0,
        ;
    } else {
        lemma_gcd_divides(value as nat, a.denominator as nat);
        let r = spec_gcd(value as nat, a.denominator as nat) as int;
        let p = choose|k: int| #[trigger] (r * k) == value as int;
        let q = choose|k: int| #[trigger] (r * k) == a.denominator as int;
        lemma_exact_div(r, p);
        lemma_exact_div(r, q);
        assert(p > 0 && q > 0 && q <= a.denominator) by (nonlinear_arith)
            requires
                r > 0,
                r * p == value as int,
                r * q == a.denominator as int,
                value > 0,
                a.denominator > 0,
        ;
        let m = a.numerator * p;
        assert(m >= 0) by (nonlinear_arith)
            requires
                a.numerator >= 0,
                p > 0,
                m == a.numerator * p,
        ;
        lemma_new_value(m as i32, q as i32);
        let f = a.spec_multiply(value)->Ok_0;
        assert(f.numerator * a.denominator == a.numerator * value * f.denominator) by (nonlinear_arith)
            requires
                f.numerator * q == m * f.denominator,
                r * p == value as int,
                r * q == a.denominator as int,
                m == a.numerator * p,
        ;
    }
}

} // verus!
