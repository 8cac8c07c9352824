//! An arithmetic-circuit toolkit over exact integers: a rank-1 constraint
//! system (R1CS) with a satisfaction checker, a compiler from gate circuits
//! to constraints, and a Merkle tree with authentication paths, all sharing
//! one pluggable binary combining operation.

pub mod circuit;
pub mod hash_functions;
pub mod merkle;
pub mod r1cs;
pub mod value;
