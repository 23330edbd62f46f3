//! A stacked Σ-protocol framework: a 1-of-2 OR-combinator for Σ-protocols
//! built from a trapdoor commitment over a prime-order group, a Schnorr leaf
//! protocol, and a Fiat–Shamir signer, giving a ring signature whose size
//! grows with the logarithm of the ring size.
use vstd::prelude::*;

pub mod comm;
pub mod compiler;
pub mod fiat;
pub mod group;
pub mod schnorr;
pub mod stack;

verus! {

/// Which of the two clauses of a stacked pair the prover actually knows.
#[derive(Clone, Copy)]
pub enum Side {
    Left,
    Right,
}

} // verus!
