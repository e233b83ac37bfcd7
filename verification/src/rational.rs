//! The executable exact rational number.
//!
//! A `Rational` holds an arbitrary-precision numerator and a positive
//! arbitrary-precision denominator.  Its view is the `RatV` pair it denotes,
//! and every operation's contract states the exact pair produced, so that
//! all reasoning about values happens in the `ratspec` model.  Fractions are
//! not reduced: reduction never changes the denoted number and exactness is
//! all the engine needs.

use vstd::prelude::*;

use crate::bignat::{big_add, big_clone, big_from_u64, big_le, big_mul, big_sub, big_val};
use crate::ratspec::{addv, divv, eqv, lev, ltv, mulv, subv, wfv, RatV};

verus! {

/// The product of two positive integers is positive.
proof fn lemma_pos_mul(a: int, b: int)
    by (nonlinear_arith)
    requires
        a > 0,
        b > 0,
    ensures
        a * b > 0,
{
}

#[derive(Debug)]
pub struct Rational {
    num: num::bigint::BigUint,
    den: num::bigint::BigUint,
}

impl View for Rational {
    type V = RatV;

    closed spec fn view(&self) -> RatV {
        RatV { n: big_val(&self.num) as int, d: big_val(&self.den) as int }
    }
}

impl Rational {
    /// A well-formed rational: the denominator is positive.  The numerator
    /// is unsigned, so the denoted value is never negative.  Every
    /// `Rational` satisfies this, as a type invariant.
    #[verifier::type_invariant]
    pub open spec fn wf(&self) -> bool {
        wfv(self@)
    }

    /// The exact rational `numer / denom`.  A zero denominator denotes no
    /// number and is excluded.
    pub fn new(numer: u64, denom: u64) -> (r: Rational)
        requires
            denom != 0,
        ensures
            r.wf(),
            r@ == (RatV { n: numer as int, d: denom as int }),
    {
        Rational { num: big_from_u64(numer), den: big_from_u64(denom) }
    }

    /// The exact rational with the given whole value.
    pub fn from_u64(value: u64) -> (r: Rational)
        ensures
            r.wf(),
            r@ == (RatV { n: value as int, d: 1int }),
    {
        Rational::new(value, 1)
    }

    pub fn zero() -> (r: Rational)
        ensures
            r.wf(),
            r@ == (RatV { n: 0int, d: 1int }),
    {
        Rational::from_u64(0)
    }

    pub fn one() -> (r: Rational)
        ensures
            r.wf(),
            r@ == (RatV { n: 1int, d: 1int }),
    {
        Rational::from_u64(1)
    }

    /// An exact copy.
    pub fn dup(&self) -> (r: Rational)
        ensures
            r@ == self@,
    {
        proof {
            use_type_invariant(&*self);
        }
        Rational { num: big_clone(&self.num), den: big_clone(&self.den) }
    }

    pub fn add(&self, other: &Rational) -> (r: Rational)
        ensures
            r.wf(),
            r@ == addv(self@, other@),
    {
        proof {
            use_type_invariant(&*self);
            use_type_invariant(other);
            lemma_pos_mul(self@.d, other@.d);
        }
        let n = big_add(&big_mul(&self.num, &other.den), &big_mul(&other.num, &self.den));
        let d = big_mul(&self.den, &other.den);
        Rational { num: n, den: d }
    }

    /// Exact subtraction; the subtrahend must not exceed the minuend,
    /// since amounts are never negative.
    pub fn sub(&self, other: &Rational) -> (r: Rational)
        requires
            lev(other@, self@),
        ensures
            r.wf(),
            r@ == subv(self@, other@),
    {
        proof {
            use_type_invariant(&*self);
            use_type_invariant(other);
            lemma_pos_mul(self@.d, other@.d);
        }
        let hi = big_mul(&self.num, &other.den);
        let lo = big_mul(&other.num, &self.den);
        let n = big_sub(&hi, &lo);
        let d = big_mul(&self.den, &other.den);
        Rational { num: n, den: d }
    }

    pub fn mul(&self, other: &Rational) -> (r: Rational)
        ensures
            r.wf(),
            r@ == mulv(self@, other@),
    {
        proof {
            use_type_invariant(&*self);
            use_type_invariant(other);
            lemma_pos_mul(self@.d, other@.d);
        }
        let n = big_mul(&self.num, &other.num);
        let d = big_mul(&self.den, &other.den);
        Rational { num: n, den: d }
    }

    /// Exact division; the divisor must be non-zero.
    pub fn div(&self, other: &Rational) -> (r: Rational)
        requires
            ltv(crate::ratspec::zerov(), other@),
        ensures
            r.wf(),
            r@ == divv(self@, other@),
    {
        proof {
            use_type_invariant(&*self);
            use_type_invariant(other);
            lemma_pos_mul(self@.d, other@.n);
        }
        let n = big_mul(&self.num, &other.den);
        let d = big_mul(&self.den, &other.num);
        Rational { num: n, den: d }
    }

    pub fn le(&self, other: &Rational) -> (r: bool)
        ensures
            r == lev(self@, other@),
    {
        big_le(&big_mul(&self.num, &other.den), &big_mul(&other.num, &self.den))
    }

    pub fn lt(&self, other: &Rational) -> (r: bool)
        ensures
            r == ltv(self@, other@),
    {
        !other.le(self)
    }

    /// A copy of the numerator, for display layers.
    pub fn numerator(&self) -> (r: num::bigint::BigUint)
        ensures
            big_val(&r) as int == self@.n,
    {
        big_clone(&self.num)
    }

    /// A copy of the denominator, for display layers; always positive.
    pub fn denominator(&self) -> (r: num::bigint::BigUint)
        ensures
            big_val(&r) as int == self@.d,
            big_val(&r) > 0,
    {
        proof {
            use_type_invariant(&*self);
        }
        big_clone(&self.den)
    }

    /// Whether the two rationals denote the same number.
    pub fn eq_rat(&self, other: &Rational) -> (r: bool)
        ensures
            r == eqv(self@, other@),
    {
        self.le(other) && other.le(self)
    }
}

} // verus!
