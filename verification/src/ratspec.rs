//! The mathematical model of exact rational numbers.
//!
//! A rational value is a pair of a numerator and a positive denominator;
//! two pairs denote the same number when they cross-multiply equally.  All
//! contracts of the engine are stated over this model.  The lemmas here are
//! the algebraic facts the bracket proofs rest on; each is discharged with
//! nonlinear arithmetic.

use vstd::prelude::*;

verus! {

/// A rational number, as numerator over denominator.
pub ghost struct RatV {
    pub n: int,
    pub d: int,
}

/// A well-formed rational amount: positive denominator, non-negative value.
pub open spec fn wfv(a: RatV) -> bool {
    a.d > 0 && a.n >= 0
}

/// `a` and `b` denote the same rational number.
pub open spec fn eqv(a: RatV, b: RatV) -> bool {
    a.n * b.d == b.n * a.d
}

/// `a` is at most `b`.
pub open spec fn lev(a: RatV, b: RatV) -> bool {
    a.n * b.d <= b.n * a.d
}

/// `a` is strictly below `b`.
pub open spec fn ltv(a: RatV, b: RatV) -> bool {
    a.n * b.d < b.n * a.d
}

pub open spec fn addv(a: RatV, b: RatV) -> RatV {
    RatV { n: a.n * b.d + b.n * a.d, d: a.d * b.d }
}

pub open spec fn subv(a: RatV, b: RatV) -> RatV {
    RatV { n: a.n * b.d - b.n * a.d, d: a.d * b.d }
}

pub open spec fn mulv(a: RatV, b: RatV) -> RatV {
    RatV { n: a.n * b.n, d: a.d * b.d }
}

pub open spec fn divv(a: RatV, b: RatV) -> RatV {
    RatV { n: a.n * b.d, d: a.d * b.n }
}

pub open spec fn zerov() -> RatV {
    RatV { n: 0, d: 1 }
}

pub open spec fn onev() -> RatV {
    RatV { n: 1, d: 1 }
}

/// The rational with the given integer value.
pub open spec fn intv(k: int) -> RatV {
    RatV { n: k, d: 1 }
}

/// Equality of values is transitive.
pub proof fn lemma_eqv_trans(a: RatV, b: RatV, c: RatV)
    by (nonlinear_arith)
    requires
        b.d != 0,
        eqv(a, b),
        eqv(b, c),
    ensures
        eqv(a, c),
{
}

/// Order is compatible with equality of values.
pub proof fn lemma_le_congr(a: RatV, b: RatV, a2: RatV, b2: RatV)
    by (nonlinear_arith)
    requires
        a.d > 0,
        b.d > 0,
        a2.d > 0,
        b2.d > 0,
        eqv(a, a2),
        eqv(b, b2),
        lev(a, b),
    ensures
        lev(a2, b2),
{
}

/// Order is transitive.
pub proof fn lemma_le_trans(a: RatV, b: RatV, c: RatV)
    by (nonlinear_arith)
    requires
        a.d > 0,
        b.d > 0,
        c.d > 0,
        lev(a, b),
        lev(b, c),
    ensures
        lev(a, c),
{
}

/// Addition respects equality of values.
pub proof fn lemma_add_congr(a: RatV, b: RatV, a2: RatV, b2: RatV)
    by (nonlinear_arith)
    requires
        a.d > 0,
        b.d > 0,
        a2.d > 0,
        b2.d > 0,
        eqv(a, a2),
        eqv(b, b2),
    ensures
        eqv(addv(a, b), addv(a2, b2)),
{
}

/// Subtraction respects equality of values.
pub proof fn lemma_sub_congr(a: RatV, b: RatV, a2: RatV, b2: RatV)
    by (nonlinear_arith)
    requires
        a.d > 0,
        b.d > 0,
        a2.d > 0,
        b2.d > 0,
        eqv(a, a2),
        eqv(b, b2),
    ensures
        eqv(subv(a, b), subv(a2, b2)),
{
}

/// Multiplication respects equality of values.
pub proof fn lemma_mul_congr(a: RatV, b: RatV, a2: RatV, b2: RatV)
    by (nonlinear_arith)
    requires
        a.d > 0,
        b.d > 0,
        a2.d > 0,
        b2.d > 0,
        eqv(a, a2),
        eqv(b, b2),
    ensures
        eqv(mulv(a, b), mulv(a2, b2)),
{
}

} // verus!
