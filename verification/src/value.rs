//! The scalar type of the whole system: `num_bigint::BigInt`, an exact
//! arbitrary-precision signed integer. Contracts speak of the mathematical
//! integer a value holds, named by `int_of`; the handful of operations the
//! library needs are trusted wrappers around the crate's own arithmetic.

use vstd::prelude::*;
use num_bigint::BigInt;

verus! {

/// `num_bigint::BigInt` values are opaque here; `int_of` gives the integer
/// one stands for.
#[verifier::external_type_specification]
#[verifier::external_body]
pub struct ExBigInt(BigInt);

/// The mathematical integer a `BigInt` holds.
pub uninterp spec fn int_of(b: BigInt) -> int;

/// The integers a sequence of `BigInt`s holds, in order.
pub open spec fn ints_of(s: Seq<BigInt>) -> Seq<int> {
    s.map_values(|b: BigInt| int_of(b))
}

/// Relies on `num_bigint`'s `Add` for `&BigInt`: exact integer addition.
#[verifier::external_body]
pub fn big_plus(a: &BigInt, b: &BigInt) -> (r: BigInt)
    ensures
        int_of(r) == int_of(*a) + int_of(*b),
{
    a + b
}

/// Relies on `num_bigint`'s `Mul` for `&BigInt`: exact integer multiplication.
#[verifier::external_body]
pub fn big_times(a: &BigInt, b: &BigInt) -> (r: BigInt)
    ensures
        int_of(r) == int_of(*a) * int_of(*b),
{
    a * b
}

/// Relies on `num_bigint`'s `PartialEq`: `BigInt`s compare by numeric value.
#[verifier::external_body]
pub fn big_eq(a: &BigInt, b: &BigInt) -> (r: bool)
    ensures
        r == (int_of(*a) == int_of(*b)),
{
    a == b
}

/// Relies on `num_bigint`'s `Clone`: a clone holds the same integer.
#[verifier::external_body]
pub fn big_clone(a: &BigInt) -> (r: BigInt)
    ensures
        int_of(r) == int_of(*a),
{
    a.clone()
}

/// Relies on `num_bigint`'s `Default`: the default `BigInt` is zero.
#[verifier::external_body]
pub fn big_default() -> (r: BigInt)
    ensures
        int_of(r) == 0,
{
    BigInt::default()
}

/// Relies on `num_bigint`'s `From<u64>`: conversion is value-preserving.
#[verifier::external_body]
pub fn big_from_u64(x: u64) -> (r: BigInt)
    ensures
        int_of(r) == x as int,
{
    BigInt::from(x)
}

} // verus!
