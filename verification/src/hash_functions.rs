//! The pluggable binary combining operation ("hash") shared by circuit Hash
//! gates, the R1CS Hash-operation check, and the Merkle tree.

use vstd::prelude::*;
use num_bigint::BigInt;
use crate::value::big_plus;
use crate::value::int_of;

verus! {

/// A total, deterministic binary operation over exact integers. Both the
/// circuit compiler and the Merkle tree route every hash-like combination
/// through one such value, so that values combined at build time and at
/// check time agree exactly.
pub trait HashFunction {
    /// What the combination means, over mathematical integers.
    spec fn hash_spec(&self, a: int, b: int) -> int;

    /// Combine two values; the result holds exactly `hash_spec` of the
    /// integers the arguments hold.
    fn hash(&self, a: &BigInt, b: &BigInt) -> (r: BigInt)
        ensures
            int_of(r) == self.hash_spec(int_of(*a), int_of(*b)),
    ;
}

/// The simplest combining function: integer addition.
pub struct SimpleHash;

impl HashFunction for SimpleHash {
    open spec fn hash_spec(&self, a: int, b: int) -> int {
        a + b
    }

    fn hash(&self, a: &BigInt, b: &BigInt) -> (r: BigInt) {
        big_plus(a, b)
    }
}

/// A second combining function; it also adds, but is a distinct plug-in
/// point for callers that want their own instance.
pub struct Customhash;

impl HashFunction for Customhash {
    open spec fn hash_spec(&self, a: int, b: int) -> int {
        a + b
    }

    fn hash(&self, a: &BigInt, b: &BigInt) -> (r: BigInt) {
        big_plus(a, b)
    }
}

/// An optional combining function: when none was supplied, the default
/// behaviour is integer addition.
impl<H: HashFunction> HashFunction for Option<H> {
    open spec fn hash_spec(&self, a: int, b: int) -> int {
        match self {
            Some(h) => h.hash_spec(a, b),
            None => a + b,
        }
    }

    fn hash(&self, a: &BigInt, b: &BigInt) -> (r: BigInt) {
        match self {
            Some(h) => h.hash(a, b),
            None => big_plus(a, b),
        }
    }
}

} // verus!
