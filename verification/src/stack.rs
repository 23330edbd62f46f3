//! The protocol interface: serializable messages, Fiat–Shamir challenges,
//! and the entropy source that the prover draws its random scalars from.
use vstd::prelude::*;

use crate::group::{group_order, le_val, os_random_block, scalar_from_wide, Scalar};

verus! {

/// A value serializable to a byte stream in a fixed order.
pub trait Message {
    /// The bytes this value serializes to.
    spec fn enc_bytes(&self) -> Seq<u8>;

    /// Append this value's serialization to `out`.
    fn write(&self, out: &mut Vec<u8>)
        ensures
            final(out)@ == old(out)@ + self.enc_bytes(),
    ;

    /// The length of this value's serialization.
    fn size(&self) -> (n: usize)
        ensures
            n == self.enc_bytes().len(),
    {
        let mut v: Vec<u8> = Vec::new();
        self.write(&mut v);
        v.len()
    }
}

/// Append a 32-byte block to a byte stream.
#[verifier::loop_isolation(false)]
pub fn write_bytes32(b: &[u8; 32], out: &mut Vec<u8>)
    ensures
        final(out)@ == old(out)@ + b@,
{
    let mut i: usize = 0;
    while i < 32
        invariant
            i <= 32,
            out@ == old(out)@ + b@.take(i as int),
        decreases 32 - i,
    {
        let x = b[i];
        out.push(x);
        proof {
            assert(old(out)@ + b@.take(i as int) + seq![b@[i as int]] =~= old(out)@ + b@.take(
                i as int + 1,
            ));
            assert(out@ =~= old(out)@ + b@.take(i as int) + seq![b@[i as int]]);
        }
        i = i + 1;
    }
    proof {
        assert(old(out)@ + b@.take(32) =~= old(out)@ + b@);
    }
}

/// Compare two 32-byte blocks.
#[verifier::loop_isolation(false)]
pub fn bytes32_eq(a: &[u8; 32], b: &[u8; 32]) -> (r: bool)
    ensures
        r == (a@ == b@),
{
    let mut i: usize = 0;
    while i < 32
        invariant
            i <= 32,
            forall|j: int| 0 <= j < i ==> a@[j] == b@[j],
        decreases 32 - i,
    {
        if a[i] != b[i] {
            return false;
        }
        i = i + 1;
    }
    proof {
        assert(a@ =~= b@);
    }
    true
}

impl Message for [u8; 32] {
    open spec fn enc_bytes(&self) -> Seq<u8> {
        self@
    }

    fn write(&self, out: &mut Vec<u8>) {
        write_bytes32(self, out);
        proof {
            assert(out@ == old(out)@ + self.enc_bytes());
        }
    }
}

impl Message for Scalar {
    open spec fn enc_bytes(&self) -> Seq<u8> {
        self.bytes@
    }

    fn write(&self, out: &mut Vec<u8>) {
        write_bytes32(&self.bytes, out);
        proof {
            assert(out@ == old(out)@ + self.enc_bytes());
        }
    }
}

/// A challenge derived from a 64-byte Fiat–Shamir digest.
pub trait Challenge: Sized {
    /// What it means for a derived challenge to be well-formed.
    spec fn wf(&self) -> bool;

    fn new(bytes: &[u8; 64]) -> (r: Self)
        ensures
            r.wf(),
    ;
}

impl Challenge for Scalar {
    open spec fn wf(&self) -> bool {
        self.valid()
    }

    fn new(bytes: &[u8; 64]) -> (r: Scalar)
        ensures
            r.wf(),
            r.v() == le_val(bytes@) % group_order(),
    {
        scalar_from_wide(bytes)
    }
}

/// A source of random 64-byte blocks. Nothing is assumed of the blocks, so
/// everything proved of the prover holds whatever an implementation returns;
/// a cryptographically strong source is needed for the signatures to hide
/// the witness.
pub trait EntropySource {
    fn next_block(&mut self) -> [u8; 64];
}

/// The operating system's randomness, as an entropy source.
pub struct OsEntropy;

impl EntropySource for OsEntropy {
    fn next_block(&mut self) -> [u8; 64] {
        os_random_block()
    }
}

/// A uniformly random scalar: a 64-byte block reduced wide, as the curve
/// crate's own uniform sampling does.
pub fn random_scalar<E: EntropySource>(rng: &mut E) -> (r: Scalar)
    ensures
        r.valid(),
{
    let block = rng.next_block();
    scalar_from_wide(&block)
}

} // verus!
