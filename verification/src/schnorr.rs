//! The Schnorr identification protocol: the concrete Σ-protocol at the
//! leaves of the stack, proving knowledge of the discrete log x of a
//! statement X = x·G.
use vstd::prelude::*;

use crate::group::{base_mul, dlog, enc, group_order, is_point, point_add, point_mul, scalar_add,
    scalar_mul, scalar_neg, Scalar};
use crate::stack::{random_scalar, EntropySource};

verus! {

/// The value of the negated challenge −c in the scalar field.
pub open spec fn neg_mod(c: nat) -> nat {
    ((group_order() - c) % (group_order() as int)) as nat
}

/// The discrete log of the first message that a verifier accepts for
/// (statement x·G, challenge c, response z): z − c·x.
pub open spec fn schnorr_sim_val(p: nat, c_neg: nat, x: nat) -> nat {
    (p + c_neg * x) % group_order()
}

/// The Schnorr Σ-protocol.
#[derive(Debug)]
pub struct Schnorr;

impl Schnorr {
    /// The statement for a witness x: the encoding of x·G.
    pub fn statement(witness: &Scalar) -> (r: [u8; 32])
        requires
            witness.valid(),
        ensures
            r@ == enc(witness.v()),
            dlog(r@) == witness.v(),
            is_point(r@),
    {
        base_mul(witness)
    }

    /// First move: sample a nonce k and commit to A = k·G. The state is k.
    pub fn sigma_a<E: EntropySource>(rng: &mut E, _witness: &Scalar) -> (r: (Scalar, [u8; 32]))
        ensures
            r.0.valid(),
            r.1@ == enc(r.0.v()),
            dlog(r.1@) == r.0.v(),
    {
        let state = random_scalar(rng);
        let message = base_mul(&state);
        (state, message)
    }

    /// Third move: the response z = c·x + k, together with the precompute
    /// (z·G, −c) that lets the simulator rebuild the first message.
    pub fn sigma_z(
        _statement: &[u8; 32],
        witness: &Scalar,
        state: &Scalar,
        challenge: &Scalar,
    ) -> (r: (([u8; 32], Scalar), Scalar))
        requires
            witness.valid(),
            state.valid(),
            challenge.valid(),
        ensures
            r.1.valid(),
            r.1.v() == (challenge.v() * witness.v() + state.v()) % group_order(),
            r.0.0@ == enc(r.1.v()),
            dlog(r.0.0@) == r.1.v(),
            is_point(r.0.0@),
            r.0.1.valid(),
            r.0.1.v() == neg_mod(challenge.v()),
    {
        let z = scalar_add(&scalar_mul(challenge, witness), state);
        let p = base_mul(&z);
        let c_neg = scalar_neg(challenge);
        ((p, c_neg), z)
    }

    /// The extended honest-verifier zero-knowledge simulator: rebuild the
    /// unique accepted first message compress(P + (−c)·X) from the
    /// precompute (P, −c).
    pub fn ehvzk(
        precomp: &([u8; 32], Scalar),
        statement: &[u8; 32],
        _challenge: &Scalar,
        _z: &Scalar,
    ) -> (r: [u8; 32])
        requires
            is_point(precomp.0@),
            precomp.1.valid(),
            is_point(statement@),
        ensures
            r@ == enc(schnorr_sim_val(dlog(precomp.0@), precomp.1.v(), dlog(statement@))),
            dlog(r@) == schnorr_sim_val(dlog(precomp.0@), precomp.1.v(), dlog(statement@)),
    {
        let s = point_mul(&precomp.1, statement);
        let r = point_add(&precomp.0, &s);
        proof {
            vstd::arithmetic::div_mod::lemma_small_mod(dlog(precomp.0@), group_order());
            vstd::arithmetic::div_mod::lemma_add_mod_noop_right(
                dlog(precomp.0@) as int,
                (precomp.1.v() * dlog(statement@)) as int,
                group_order() as int,
            );
        }
        r
    }
}

/// Schnorr correctness: for a witness x, nonce k and challenge c, the
/// simulator run on the prover's own precompute and response rebuilds the
/// prover's first message, i.e. z·G + (−c)·(x·G) = k·G for z = c·x + k.
pub proof fn lemma_schnorr_correctness(x: nat, k: nat, c: nat)
    requires
        x < group_order(),
        k < group_order(),
        c < group_order(),
    ensures
        schnorr_sim_val((c * x + k) % group_order(), neg_mod(c), x) == k,
{
    let ord = group_order() as int;
    let z = (c * x + k) % group_order();
    let cn = neg_mod(c);
    vstd::arithmetic::div_mod::lemma_add_mod_noop(
        (c * x + k) as int,
        (cn * x) as int,
        ord,
    );
    vstd::arithmetic::div_mod::lemma_small_mod((cn * x) as nat % group_order(), group_order());
    assert((z + cn * x % group_order()) % group_order() == ((c * x + k + cn * x) as int) % ord) by {
        vstd::arithmetic::div_mod::lemma_add_mod_noop(
            (c * x + k) as int,
            (cn * x) as int,
            ord,
        );
        vstd::arithmetic::div_mod::lemma_mod_twice((cn * x) as int, ord);
    }
    if c == 0 {
        vstd::arithmetic::div_mod::lemma_mod_self_0(ord);
        assert(cn == 0);
        assert(schnorr_sim_val(z, cn, x) == (z + 0) % group_order());
        vstd::arithmetic::div_mod::lemma_small_mod(k, group_order());
        vstd::arithmetic::div_mod::lemma_mod_twice((c * x + k) as int, ord);
        assert(z == k);
    } else {
        vstd::arithmetic::div_mod::lemma_small_mod((group_order() - c) as nat, group_order());
        assert(cn == group_order() - c);
        assert(c * x + k + cn * x == ord * x + k) by (nonlinear_arith)
            requires
                cn == group_order() - c,
                ord == group_order(),
        ;
        vstd::arithmetic::div_mod::lemma_mod_multiples_vanish(x as int, k as int, ord);
        vstd::arithmetic::div_mod::lemma_small_mod(k, group_order());
    }
}

} // verus!
