//! Fractions of 32-bit integers.
//!
//! A `Fraction` holds a numerator and a denominator as plain numbers. The
//! arithmetic on them is done by the `num` crate's `Ratio<i32>`, which hands
//! every result back in lowest terms with a positive denominator. Its
//! integers are of fixed width, so each operation asks that what it has to
//! multiply out fits in 32 bits.

use crate::rank::{ordering_of, Ranked};
use num::rational::Ratio;
use std::cmp::Ordering;
use vstd::prelude::*;

verus! {

/// A numerator over a denominator. Two fractions are equal when both of
/// their parts are; `outranks` compares the numbers that they stand for.
#[derive(Clone, Copy, Debug, PartialEq, Eq, Structural)]
pub struct Fraction {
    pub numer: i32,
    pub denom: i32,
}

/// The size of a number, without its sign.
pub open spec fn magnitude(x: int) -> int {
    if x < 0 {
        -x
    } else {
        x
    }
}

/// Whether no number above 1 divides both `a` and `b`.
pub open spec fn coprime(a: int, b: int) -> bool {
    forall|k: int| k > 1 ==> !(#[trigger] (a % k) == 0 && b % k == 0)
}

/// Whether `r` is the quotient `n / d` in lowest terms: of the same value,
/// with a positive denominator that shares no divisor with the numerator.
pub open spec fn is_lowest_terms_of(r: (int, int), n: int, d: int) -> bool {
    r.1 > 0 && r.0 * d == n * r.1 && coprime(r.0, r.1)
}

/// The quotient `n / d` in lowest terms.
pub open spec fn lowest_terms(n: int, d: int) -> (int, int) {
    choose|r: (int, int)| is_lowest_terms_of(r, n, d)
}

impl View for Fraction {
    type V = (int, int);

    open spec fn view(&self) -> (int, int) {
        (self.numer as int, self.denom as int)
    }
}

impl Fraction {
    /// Whether the fraction is the quotient `n / d` brought to lowest
    /// terms, with neither part larger than it was.
    pub open spec fn reduces(&self, n: int, d: int) -> bool {
        &&& self@ == lowest_terms(n, d)
        &&& is_lowest_terms_of(self@, n, d)
        &&& magnitude(self.numer as int) <= magnitude(n)
        &&& self.denom <= magnitude(d)
    }

    /// Whether `self` is at most `other`, for positive denominators.
    pub open spec fn le(&self, other: &Fraction) -> bool {
        self.numer * other.denom <= other.numer * self.denom
    }

    /// Whether a difference can be taken without leaving 32 bits.
    pub open spec fn can_sub(&self, other: &Fraction) -> bool {
        &&& self.denom > 0
        &&& other.denom > 0
        &&& self.denom * other.denom <= i32::MAX
        &&& magnitude(self.numer as int) * other.denom + magnitude(other.numer as int)
            * self.denom <= i32::MAX
    }

    /// Whether a product can be taken without leaving 32 bits.
    pub open spec fn can_mul(&self, other: &Fraction) -> bool {
        &&& self.denom > 0
        &&& other.denom > 0
        &&& self.numer > i32::MIN
        &&& other.numer > i32::MIN
        &&& self.denom * other.denom <= i32::MAX
        &&& magnitude(self.numer as int) * magnitude(other.numer as int) <= i32::MAX
    }

    /// Whether a quotient can be taken without leaving 32 bits.
    pub open spec fn can_div(&self, other: &Fraction) -> bool {
        &&& self.denom > 0
        &&& other.denom > 0
        &&& other.numer != 0
        &&& magnitude(self.numer as int) * other.denom <= i32::MAX
        &&& self.denom * magnitude(other.numer as int) <= i32::MAX
    }

    /// The fraction `numer / denom` in lowest terms.
    pub fn new(numer: i32, denom: i32) -> (r: Fraction)
        requires
            denom != 0,
            numer > i32::MIN,
            denom > i32::MIN,
        ensures
            r.reduces(numer as int, denom as int),
    {
        ratio_new(numer, denom)
    }

    /// The difference `self - other` in lowest terms.
    pub fn sub(&self, other: &Fraction) -> (r: Fraction)
        requires
            self.can_sub(other),
        ensures
            r.reduces(
                self.numer * other.denom - other.numer * self.denom,
                self.denom * other.denom,
            ),
    {
        ratio_sub(self, other)
    }

    /// The product `self * other` in lowest terms.
    pub fn mul(&self, other: &Fraction) -> (r: Fraction)
        requires
            self.can_mul(other),
        ensures
            r.reduces(self.numer * other.numer, self.denom * other.denom),
    {
        ratio_mul(self, other)
    }

    /// The quotient `self / other` in lowest terms.
    pub fn div(&self, other: &Fraction) -> (r: Fraction)
        requires
            self.can_div(other),
        ensures
            r.reduces(self.numer * other.denom, self.denom * other.numer),
    {
        ratio_div(self, other)
    }

    /// The difference `self - other`, or `None` where taking it could
    /// leave 32 bits.
    pub fn checked_sub(&self, other: &Fraction) -> (r: Option<Fraction>)
        ensures
            r is Some <==> self.can_sub(other),
            r matches Some(f) ==> f.reduces(
                self.numer * other.denom - other.numer * self.denom,
                self.denom * other.denom,
            ),
    {
        if self.denom <= 0 || other.denom <= 0 {
            return None;
        }
        let a: i64 = wide_magnitude(self.numer);
        let b: i64 = wide_magnitude(other.numer);
        let c: i64 = self.denom as i64;
        let d: i64 = other.denom as i64;
        proof {
            assert(0 <= a * d <= 0x8000_0000 * 0x7fff_ffff) by (nonlinear_arith)
                requires
                    0 <= a <= 0x8000_0000,
                    0 < d <= 0x7fff_ffff,
            ;
            assert(0 <= b * c <= 0x8000_0000 * 0x7fff_ffff) by (nonlinear_arith)
                requires
                    0 <= b <= 0x8000_0000,
                    0 < c <= 0x7fff_ffff,
            ;
            assert(0 < c * d <= 0x7fff_ffff * 0x7fff_ffff) by (nonlinear_arith)
                requires
                    0 < c <= 0x7fff_ffff,
                    0 < d <= 0x7fff_ffff,
            ;
        }
        if c * d <= 0x7fff_ffff && a * d + b * c <= 0x7fff_ffff {
            Some(self.sub(other))
        } else {
            None
        }
    }

    /// Among fractions with positive denominators, `le` carries over a
    /// fraction in between.
    pub proof fn lemma_le_transitive(a: Fraction, b: Fraction, c: Fraction)
        requires
            a.denom > 0,
            b.denom > 0,
            c.denom > 0,
            a.le(&b),
            b.le(&c),
        ensures
            a.le(&c),
    {
        let (an, ad) = (a.numer as int, a.denom as int);
        let (bn, bd) = (b.numer as int, b.denom as int);
        let (cn, cd) = (c.numer as int, c.denom as int);
        assert(an * cd <= cn * ad) by (nonlinear_arith)
            requires
                ad > 0,
                bd > 0,
                cd > 0,
                an * bd <= bn * ad,
                bn * cd <= cn * bd,
        {
            assert((an * bd) * cd <= (bn * ad) * cd);
            assert((bn * cd) * ad <= (cn * bd) * ad);
            assert((an * cd) * bd <= (cn * ad) * bd);
        }
    }
}

/// The size of a 32-bit number, in 64 bits.
fn wide_magnitude(x: i32) -> (r: i64)
    ensures
        r == magnitude(x as int),
{
    if x < 0 {
        -(x as i64)
    } else {
        x as i64
    }
}

impl Ranked for Fraction {
    open spec fn well_formed(&self) -> bool {
        self.denom > 0
    }

    open spec fn rank_le(&self, other: &Fraction) -> bool {
        self.le(other)
    }

    open spec fn zero_spec() -> Fraction {
        Fraction { numer: 0, denom: 1 }
    }

    proof fn lemma_zero_well_formed() {
    }

    proof fn lemma_rank_total(a: Fraction, b: Fraction) {
    }

    proof fn lemma_rank_transitive(a: Fraction, b: Fraction, c: Fraction) {
        Fraction::lemma_le_transitive(a, b, c);
    }

    fn zero() -> (z: Fraction) {
        Fraction { numer: 0, denom: 1 }
    }

    fn outranks(&self, other: &Fraction) -> (r: bool) {
        match ratio_cmp(self, other) {
            Ordering::Greater => true,
            _ => false,
        }
    }
}

/// `Ratio::new` of `num`: the quotient in lowest terms, with a positive
/// denominator. Reducing divides both parts by their greatest common
/// divisor, so neither grows. The smallest 32-bit number is left out, since
/// its size cannot be taken.
#[verifier::external_body]
fn ratio_new(numer: i32, denom: i32) -> (r: Fraction)
    requires
        denom != 0,
        numer > i32::MIN,
        denom > i32::MIN,
    ensures
        r.reduces(numer as int, denom as int),
{
    let ratio = Ratio::new(numer, denom);
    Fraction { numer: *ratio.numer(), denom: *ratio.denom() }
}

/// The `-` of `num` on two `Ratio<i32>`: the difference in lowest terms.
/// It brings both to the least common denominator, which is no more than
/// the product of the two, and multiplies each numerator by no more than
/// the other's denominator.
#[verifier::external_body]
fn ratio_sub(a: &Fraction, b: &Fraction) -> (r: Fraction)
    requires
        a.can_sub(b),
    ensures
        r.reduces(a.numer * b.denom - b.numer * a.denom, a.denom * b.denom),
{
    let ratio = Ratio::new_raw(a.numer, a.denom) - Ratio::new_raw(b.numer, b.denom);
    Fraction { numer: *ratio.numer(), denom: *ratio.denom() }
}

/// The `*` of `num` on two `Ratio<i32>`: the product in lowest terms. It
/// cancels common divisors crosswise before it multiplies, so it
/// multiplies no more than the numerators with each other and the
/// denominators with each other.
#[verifier::external_body]
fn ratio_mul(a: &Fraction, b: &Fraction) -> (r: Fraction)
    requires
        a.can_mul(b),
    ensures
        r.reduces(a.numer * b.numer, a.denom * b.denom),
{
    let ratio = Ratio::new_raw(a.numer, a.denom) * Ratio::new_raw(b.numer, b.denom);
    Fraction { numer: *ratio.numer(), denom: *ratio.denom() }
}

/// The `/` of `num` on two `Ratio<i32>`: the quotient in lowest terms. It
/// cancels common divisors before it multiplies each numerator with the
/// other's denominator. A divisor of zero is left out.
#[verifier::external_body]
fn ratio_div(a: &Fraction, b: &Fraction) -> (r: Fraction)
    requires
        a.can_div(b),
    ensures
        r.reduces(a.numer * b.denom, a.denom * b.numer),
{
    let ratio = Ratio::new_raw(a.numer, a.denom) / Ratio::new_raw(b.numer, b.denom);
    Fraction { numer: *ratio.numer(), denom: *ratio.denom() }
}

/// The `cmp` of `num` on two `Ratio<i32>`: with positive denominators it
/// orders the two as their cross products are ordered, which it finds
/// without multiplying.
#[verifier::external_body]
fn ratio_cmp(a: &Fraction, b: &Fraction) -> (o: Ordering)
    requires
        a.denom > 0,
        b.denom > 0,
    ensures
        o == ordering_of(a.le(b), b.le(a)),
{
    Ratio::new_raw(a.numer, a.denom).cmp(&Ratio::new_raw(b.numer, b.denom))
}

} // verus!
