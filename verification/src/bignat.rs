//! Trusted layer over `num`'s arbitrary-precision unsigned integers.
//!
//! Every monetary amount and rate in this crate is an exact rational whose
//! numerator and denominator are `num::bigint::BigUint` values.  Verus cannot
//! look inside that type, so it is declared opaque here; its contents are
//! modelled as the little-endian bit sequence it stores, and the handful of
//! arithmetic operations the crate needs are wrapped with contracts over the
//! natural number those bits encode.

use vstd::prelude::*;

verus! {

/// `num::bigint::BigUint` is an arbitrary-precision unsigned integer,
/// stored as a sequence of digits.  It is opaque to the verifier.
#[verifier::external_type_specification]
#[verifier::external_body]
pub struct ExBigUint(num::bigint::BigUint);

/// The little-endian bit sequence held by an arbitrary-precision
/// unsigned integer.
pub uninterp spec fn bits_of(b: num::bigint::BigUint) -> Seq<bool>;

/// The natural number encoded by a little-endian bit sequence.
pub open spec fn nat_of_bits(s: Seq<bool>) -> nat
    decreases s.len(),
{
    if s.len() == 0 {
        0
    } else {
        (if s[0] {
            1nat
        } else {
            0nat
        }) + 2 * nat_of_bits(s.drop_first())
    }
}

/// The natural number held by an arbitrary-precision unsigned integer.
pub open spec fn big_val(b: &num::bigint::BigUint) -> nat {
    nat_of_bits(bits_of(*b))
}

/// Relies on `<BigUint as From<u64>>::from`: returns the big integer
/// holding exactly the given value.
#[verifier::external_body]
pub(crate) fn big_from_u64(x: u64) -> (r: num::bigint::BigUint)
    ensures
        big_val(&r) == x,
{
    num::bigint::BigUint::from(x)
}

/// Relies on `<BigUint as Clone>::clone`: the copy holds the same bits.
#[verifier::external_body]
pub(crate) fn big_clone(a: &num::bigint::BigUint) -> (r: num::bigint::BigUint)
    ensures
        bits_of(r) == bits_of(*a),
{
    a.clone()
}

/// Relies on `<&BigUint as Add>::add`: arbitrary-precision addition.
#[verifier::external_body]
pub(crate) fn big_add(a: &num::bigint::BigUint, b: &num::bigint::BigUint) -> (r:
    num::bigint::BigUint)
    ensures
        big_val(&r) == big_val(a) + big_val(b),
{
    a + b
}

/// Relies on `<&BigUint as Sub>::sub`: arbitrary-precision subtraction.
/// It panics when the subtrahend is larger, so that case is excluded.
#[verifier::external_body]
pub(crate) fn big_sub(a: &num::bigint::BigUint, b: &num::bigint::BigUint) -> (r:
    num::bigint::BigUint)
    requires
        big_val(b) <= big_val(a),
    ensures
        big_val(&r) == big_val(a) - big_val(b),
{
    a - b
}

/// Relies on `<&BigUint as Mul>::mul`: arbitrary-precision multiplication.
#[verifier::external_body]
pub(crate) fn big_mul(a: &num::bigint::BigUint, b: &num::bigint::BigUint) -> (r:
    num::bigint::BigUint)
    ensures
        big_val(&r) == big_val(a) * big_val(b),
{
    a * b
}

/// Relies on `<BigUint as Ord>::cmp`, through `<=`: numeric comparison.
#[verifier::external_body]
pub(crate) fn big_le(a: &num::bigint::BigUint, b: &num::bigint::BigUint) -> (r: bool)
    ensures
        r == (big_val(a) <= big_val(b)),
{
    a <= b
}

} // verus!
