//! The Fiat–Shamir signer: collapsing the interactive stacked Σ-protocol
//! into a non-interactive ring signature by deriving the challenge from a
//! hash of the first message and the user message.
use vstd::prelude::*;

use crate::compiler::{
    depth, leaf_response, lemma_z_size, shape_check, spec_ehvzk, statement_check, stmt_wf,
    wit_matches, z_leaf, z_wf, zdepth, Compiled, MessageZ, Statement, Witness,
};
use crate::group::{
    base_mul, group_order, le_val, scalar_from_wide, scalar_neg, sha512, sha512_of, Scalar,
};
use crate::schnorr::neg_mod;
use crate::stack::{bytes32_eq, write_bytes32, EntropySource, Message};

verus! {

/// The challenge derived by Fiat–Shamir from a first message and a user
/// message: the wide reduction of SHA-512(A ∥ msg).
pub open spec fn challenge_val(a: Seq<u8>, msg: Seq<u8>) -> nat {
    le_val(sha512_of(a + msg)) % group_order()
}

/// A signature: the root first message and the root third message,
/// serialized in that order.
#[derive(Debug)]
pub struct Signature {
    pub a: [u8; 32],
    pub z: MessageZ,
}

impl Message for Signature {
    open spec fn enc_bytes(&self) -> Seq<u8> {
        self.a@ + self.z.enc_bytes()
    }

    fn write(&self, out: &mut Vec<u8>) {
        write_bytes32(&self.a, out);
        self.z.write(out);
        proof {
            assert(out@ =~= old(out)@ + self.enc_bytes());
        }
    }
}

/// A signature is valid for a statement and a message when the statement
/// is well-formed, the third message matches its shape, and the simulator,
/// run with the precompute that the leaf response determines and the
/// challenge rehashed from the first message, rebuilds that very first
/// message.
pub open spec fn sig_valid(pk: &Statement, msg: Seq<u8>, sig: &Signature) -> bool {
    stmt_wf(pk) && z_wf(&sig.z) && zdepth(&sig.z) == depth(pk) && spec_ehvzk(
        z_leaf(&sig.z).v(),
        neg_mod(challenge_val(sig.a@, msg)),
        pk,
        &sig.z,
    ) == sig.a@
}

/// Derive the Fiat–Shamir challenge scalar from a first message and a
/// user message.
#[verifier::loop_isolation(false)]
pub fn derive_challenge(a: &[u8; 32], msg: &[u8]) -> (c: Scalar)
    ensures
        c.valid(),
        c.v() == challenge_val(a@, msg@),
{
    let mut buf: Vec<u8> = Vec::new();
    write_bytes32(a, &mut buf);
    let mut i: usize = 0;
    while i < msg.len()
        invariant
            i <= msg.len(),
            buf@ == a@ + msg@.take(i as int),
        decreases msg.len() - i,
    {
        let x = msg[i];
        buf.push(x);
        proof {
            assert(buf@ =~= a@ + msg@.take(i as int + 1));
        }
        i = i + 1;
    }
    proof {
        assert(buf@ =~= a@ + msg@);
    }
    let d = sha512(buf.as_slice());
    scalar_from_wide(&d)
}

/// The signature scheme obtained by collapsing the stacked Σ-protocol
/// through the Fiat–Shamir transform.
pub struct SignatureScheme;

impl SignatureScheme {
    /// Sign a message with the witness `sk` for the statement tree `pk`:
    /// run the first move, hash its output with the message into the
    /// challenge, and run the third move. The precompute is discarded; a
    /// verifier rebuilds it from the leaf response. Returns None only if
    /// a key generation ran out of retries (see `CommitKey::gen`); no
    /// other failure reaches the caller.
    pub fn sign<E: EntropySource>(
        rng: &mut E,
        sk: &Witness,
        pk: &Statement,
        msg: &[u8],
    ) -> (r: Option<Signature>)
        requires
            wit_matches(sk, pk),
            stmt_wf(pk),
        ensures
            sk matches Witness::Leaf(_) ==> r is Some,
            r matches Some(sig) ==> sig_valid(pk, msg@, &sig),
            r matches Some(sig) ==> sig.enc_bytes().len() == 64 * (depth(pk) + 1),
    {
        match Compiled::sigma_a(rng, sk) {
            None => None,
            Some((st, a)) => {
                let challenge = derive_challenge(&a, msg);
                let (_pre, z) = Compiled::sigma_z(pk, sk, &st, &challenge);
                let sig = Signature { a, z };
                proof {
                    lemma_z_size(&sig.z);
                }
                Some(sig)
            },
        }
    }

    /// Check the prover–simulator equation on a signature: recompute the
    /// challenge, rebuild the precompute from the leaf response, run the
    /// simulator, and compare its output with the signed first message.
    /// The statement is checked for well-formedness and shape first, so a
    /// malformed statement is rejected rather than computed on.
    pub fn verify(pk: &Statement, msg: &[u8], sig: &Signature) -> (r: bool)
        requires
            z_wf(&sig.z),
        ensures
            r == sig_valid(pk, msg@, sig),
    {
        if !statement_check(pk) {
            return false;
        }
        if !shape_check(pk, &sig.z) {
            return false;
        }
        let c = derive_challenge(&sig.a, msg);
        let zl = leaf_response(&sig.z);
        let p0 = base_mul(&zl);
        let cn = scalar_neg(&c);
        let rebuilt = Compiled::ehvzk(&(p0, cn), pk, &c, &sig.z);
        bytes32_eq(&rebuilt, &sig.a)
    }
}

} // verus!
