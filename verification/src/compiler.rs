//! The stacking combinator: the 1-of-2 OR-composition of a Σ-protocol with
//! itself, iterated to a balanced binary tree of statements with the
//! Schnorr protocol at the leaves. One challenge is shared by every level,
//! which keeps the transcript linear in the depth rather than in the number
//! of leaves.
use vstd::prelude::*;

use crate::comm::{commit_val, equiv_val, lemma_equivocation, CommitKey, Randomness, Trapdoor};
use crate::group::{
    dlog, enc, group_order, h_scalar, is_point, lemma_scalar_value_determines, point_decode_ok,
    scalar_check, Scalar,
};
use crate::schnorr::{lemma_schnorr_correctness, neg_mod, schnorr_sim_val, Schnorr};
use crate::stack::{bytes32_eq, random_scalar, EntropySource, Message};
use crate::Side;

verus! {

/// A statement of the stacked protocol: a Schnorr statement at a leaf, or
/// a pair of sub-statements of which the prover knows one witness.
pub enum Statement {
    Leaf([u8; 32]),
    Stacked(Box<CompiledStatement>),
}

/// A pair of statements, the result of one application of the combinator.
pub struct CompiledStatement {
    pub left: Statement,
    pub right: Statement,
}

impl CompiledStatement {
    pub fn new(left: Statement, right: Statement) -> (r: CompiledStatement)
        ensures
            r.left == left,
            r.right == right,
    {
        CompiledStatement { left, right }
    }
}

/// A witness of the stacked protocol: a Schnorr witness at the leaf,
/// wrapped once per level with the side on which the known statement lies.
pub enum Witness {
    Leaf(Scalar),
    Stacked(Box<CompiledWitness>),
}

/// A witness tagged with the side of the enclosing pair that is real.
pub struct CompiledWitness {
    pub witness: Witness,
    pub side: Side,
}

impl CompiledWitness {
    pub fn new(witness: Witness, side: Side) -> (r: CompiledWitness)
        ensures
            r.witness == witness,
            r.side == side,
    {
        CompiledWitness { witness, side }
    }
}

/// A third message of the stacked protocol.
#[derive(Debug)]
pub enum MessageZ {
    Leaf(Scalar),
    Stacked(Box<CompiledMessageZ>),
}

/// One level of a stacked third message: the inner message, the commitment
/// key, and the (possibly equivocated) opening randomness.
#[derive(Debug)]
pub struct CompiledMessageZ {
    pub z: MessageZ,
    pub ck: CommitKey,
    pub rd: Randomness,
}

/// Prover state carried from the first to the third move.
pub enum State {
    Leaf(Scalar),
    Stacked(Box<CompiledState>),
}

/// One level of prover state: the inner state, the inner first message,
/// and the commitment key with its trapdoor and randomness.
pub struct CompiledState {
    pub a: [u8; 32],
    pub st: State,
    pub ck: CommitKey,
    pub td: Trapdoor,
    pub rd: Randomness,
}

/// The simulator's precompute, produced at the Schnorr leaf and threaded
/// unchanged through every level: (z·G, −c).
pub type Precompute = ([u8; 32], Scalar);

// ------------------------------------------------------------------
// The specification model
// ------------------------------------------------------------------

/// Number of combinator levels above the leaf.
pub open spec fn depth(s: &Statement) -> nat
    decreases s,
{
    match s {
        Statement::Leaf(_) => 0,
        Statement::Stacked(pair) => 1 + depth(&pair.left),
    }
}

/// Every leaf encodes a group element and the tree is balanced.
pub open spec fn stmt_wf(s: &Statement) -> bool
    decreases s,
{
    match s {
        Statement::Leaf(p) => is_point(p@),
        Statement::Stacked(pair) => stmt_wf(&pair.left) && stmt_wf(&pair.right) && depth(
            &pair.left,
        ) == depth(&pair.right),
    }
}

/// The witness sits at the leaf reached by following its side tags, and
/// its leaf scalar is the discrete log of the statement found there.
pub open spec fn wit_matches(w: &Witness, s: &Statement) -> bool
    decreases w,
{
    match (w, s) {
        (Witness::Leaf(x), Statement::Leaf(p)) => x.valid() && p@ == enc(x.v()) && dlog(p@)
            == x.v(),
        (Witness::Stacked(cw), Statement::Stacked(pair)) => match cw.side {
            Side::Left => wit_matches(&cw.witness, &pair.left),
            Side::Right => wit_matches(&cw.witness, &pair.right),
        },
        _ => false,
    }
}

/// Number of combinator levels in a third message.
pub open spec fn zdepth(z: &MessageZ) -> nat
    decreases z,
{
    match z {
        MessageZ::Leaf(_) => 0,
        MessageZ::Stacked(cz) => 1 + zdepth(&cz.z),
    }
}

/// All scalars of a third message are canonical and all its keys are
/// well-formed: both generators decode, and the right one is the Feistel
/// image of the left (only the left is serialized; a wire verifier
/// reconstructs the right one through the permutation).
pub open spec fn z_wf(z: &MessageZ) -> bool
    decreases z,
{
    match z {
        MessageZ::Leaf(s) => s.valid(),
        MessageZ::Stacked(cz) => z_wf(&cz.z) && cz.rd.valid() && cz.ck.wf(),
    }
}

/// The Schnorr response at the bottom of a third message.
pub open spec fn z_leaf(z: &MessageZ) -> Scalar
    decreases z,
{
    match z {
        MessageZ::Leaf(s) => *s,
        MessageZ::Stacked(cz) => z_leaf(&cz.z),
    }
}

/// The Schnorr witness at the bottom of a witness.
pub open spec fn wit_leaf(w: &Witness) -> Scalar
    decreases w,
{
    match w {
        Witness::Leaf(x) => *x,
        Witness::Stacked(cw) => wit_leaf(&cw.witness),
    }
}

/// The Schnorr nonce at the bottom of a prover state.
pub open spec fn state_leaf(st: &State) -> Scalar
    decreases st,
{
    match st {
        State::Leaf(k) => *k,
        State::Stacked(cs) => state_leaf(&cs.st),
    }
}

/// The first message that the simulator rebuilds from precompute values
/// (p, c_neg), a statement and a third message: at a leaf the accepted
/// Schnorr first message, above it the commitment to both rebuilt
/// sub-messages under the published key and randomness. This is the
/// equation a verifier would check against the prover's first message.
pub open spec fn spec_ehvzk(p: nat, c_neg: nat, s: &Statement, z: &MessageZ) -> Seq<u8>
    decreases s,
{
    match (s, z) {
        (Statement::Leaf(x), _) => enc(schnorr_sim_val(p, c_neg, dlog(x@))),
        (Statement::Stacked(pair), MessageZ::Stacked(cz)) => enc(
            commit_val(
                cz.rd.v(),
                h_scalar(spec_ehvzk(p, c_neg, &pair.left, &cz.z)),
                h_scalar(spec_ehvzk(p, c_neg, &pair.right, &cz.z)),
                dlog(cz.ck.left@),
                dlog(cz.ck.right@),
            ),
        ),
        (Statement::Stacked(_), MessageZ::Leaf(_)) => Seq::empty(),
    }
}

/// The third message that the third move computes from a statement,
/// witness, state and challenge, level by level: the leaf response is
/// c·x + k, and at each stacked level the state's commitment key is
/// republished unchanged while the randomness is the equivocated value,
/// with the real side's slot content kept and the sibling slot going from
/// empty to the hash of the simulated sibling message.
pub open spec fn sigma_z_rel(s: &Statement, w: &Witness, st: &State, c: nat, z: &MessageZ) -> bool
    decreases w,
{
    match (s, w, st, z) {
        (Statement::Leaf(_), Witness::Leaf(x), State::Leaf(k), MessageZ::Leaf(zs)) => zs.v() == (c
            * x.v() + k.v()) % group_order(),
        (
            Statement::Stacked(pair),
            Witness::Stacked(cw),
            State::Stacked(cs),
            MessageZ::Stacked(cz),
        ) => {
            let active = match cw.side {
                Side::Left => &pair.left,
                Side::Right => &pair.right,
            };
            let sibling = match cw.side {
                Side::Left => &pair.right,
                Side::Right => &pair.left,
            };
            let sim = h_scalar(spec_ehvzk(z_leaf(&cz.z).v(), neg_mod(c), sibling, &cz.z));
            sigma_z_rel(active, &cw.witness, &cs.st, c, &cz.z) && cz.ck == cs.ck && cz.rd.v()
                == match cw.side {
                Side::Left => equiv_val(
                    cs.rd.v(),
                    cs.td.td.v(),
                    h_scalar(cs.a@),
                    h_scalar(cs.a@),
                    0,
                    sim,
                ),
                Side::Right => equiv_val(
                    cs.rd.v(),
                    cs.td.td.v(),
                    0,
                    sim,
                    h_scalar(cs.a@),
                    h_scalar(cs.a@),
                ),
            }
        },
        _ => false,
    }
}

/// The third move is pure: it draws no randomness, and the relation above
/// determines the third message. Two messages that both stand in the
/// relation for the same statement, witness, state and challenge are
/// equal, byte for byte.
pub proof fn lemma_sigma_z_deterministic(
    s: &Statement,
    w: &Witness,
    st: &State,
    c: nat,
    z1: &MessageZ,
    z2: &MessageZ,
)
    requires
        sigma_z_rel(s, w, st, c, z1),
        sigma_z_rel(s, w, st, c, z2),
    ensures
        z1 == z2,
    decreases w,
{
    match (s, w, st, z1, z2) {
        (
            Statement::Leaf(_),
            Witness::Leaf(_),
            State::Leaf(_),
            MessageZ::Leaf(a),
            MessageZ::Leaf(b),
        ) => {
            lemma_scalar_value_determines(*a, *b);
        },
        (
            Statement::Stacked(pair),
            Witness::Stacked(cw),
            State::Stacked(cs),
            MessageZ::Stacked(c1),
            MessageZ::Stacked(c2),
        ) => {
            let active = match cw.side {
                Side::Left => &pair.left,
                Side::Right => &pair.right,
            };
            lemma_sigma_z_deterministic(active, &cw.witness, &cs.st, c, &c1.z, &c2.z);
            lemma_scalar_value_determines(c1.rd, c2.rd);
        },
        _ => {
            assert(false);
        },
    }
}

/// The first message determined by a witness and the state that the first
/// move produced for it.
pub open spec fn state_a(w: &Witness, st: &State) -> Seq<u8>
    decreases w,
{
    match (w, st) {
        (Witness::Leaf(_), State::Leaf(k)) => enc(k.v()),
        (Witness::Stacked(cw), State::Stacked(cs)) => enc(
            commit_val(
                cs.rd.v(),
                match cw.side {
                    Side::Left => h_scalar(cs.a@),
                    Side::Right => 0,
                },
                match cw.side {
                    Side::Left => 0,
                    Side::Right => h_scalar(cs.a@),
                },
                dlog(cs.ck.left@),
                dlog(cs.ck.right@),
            ),
        ),
        _ => Seq::empty(),
    }
}

/// The state is one that the first move can have produced for this
/// witness: keys are well-formed, trapdoors match their keys' hiding
/// sides, and each level's stored inner first message is the one its inner
/// state determines.
pub open spec fn state_ok(w: &Witness, st: &State) -> bool
    decreases w,
{
    match (w, st) {
        (Witness::Leaf(_), State::Leaf(k)) => k.valid() && dlog(enc(k.v())) == k.v(),
        (Witness::Stacked(cw), State::Stacked(cs)) => state_ok(&cw.witness, &cs.st) && cs.a@
            == state_a(&cw.witness, &cs.st) && cs.ck.wf() && cs.ck.td_matches(&cs.td, cw.side)
            && cs.rd.valid(),
        _ => false,
    }
}

// ------------------------------------------------------------------
// Serialization
// ------------------------------------------------------------------

impl Message for MessageZ {
    open spec fn enc_bytes(&self) -> Seq<u8>
        decreases self,
    {
        match self {
            MessageZ::Leaf(s) => s.bytes@,
            MessageZ::Stacked(cz) => cz.z.enc_bytes() + cz.ck.left@ + cz.rd.bytes@,
        }
    }

    fn write(&self, out: &mut Vec<u8>)
        decreases self,
    {
        match self {
            MessageZ::Leaf(s) => s.write(out),
            MessageZ::Stacked(cz) => {
                cz.z.write(out);
                cz.ck.write(out);
                cz.rd.write(out);
                proof {
                    assert(out@ =~= old(out)@ + self.enc_bytes());
                }
            },
        }
    }
}

/// A third message serializes to 32 bytes for the leaf response plus 64
/// bytes (key and randomness) for each level.
pub proof fn lemma_z_size(z: &MessageZ)
    ensures
        z.enc_bytes().len() == 32 + 64 * zdepth(z),
    decreases z,
{
    match z {
        MessageZ::Leaf(_) => {},
        MessageZ::Stacked(cz) => {
            lemma_z_size(&cz.z);
        },
    }
}

// ------------------------------------------------------------------
// The combinator
// ------------------------------------------------------------------

/// `s` is the pair of `l` and `r`.
pub open spec fn is_pair(s: &Statement, l: &Statement, r: &Statement) -> bool {
    match s {
        Statement::Stacked(p) => p.left == *l && p.right == *r,
        _ => false,
    }
}

/// `w` is `inner` wrapped with the tag `side`.
pub open spec fn is_wrapped(w: &Witness, inner: &Witness, side: Side) -> bool {
    match w {
        Witness::Stacked(cw) => cw.witness == *inner && cw.side == side,
        _ => false,
    }
}

/// One step of the balanced-tree builder: tag the witness with the side
/// on which the active leaf lies at this level, and fold the statements
/// into pairs of adjacent entries. Applying this `d` times to 2^d leaf
/// statements leaves the single root.
#[verifier::loop_isolation(false)]
pub fn compile(statements: Vec<Statement>, witness: Witness, side: Side) -> (r: (
    Vec<Statement>,
    Witness,
))
    requires
        statements@.len() % 2 == 0,
    ensures
        r.0@.len() == statements@.len() / 2,
        forall|i: int|
            0 <= i < r.0@.len() ==> is_pair(&r.0@[i], &statements@[2 * i], &statements@[2 * i + 1]),
        is_wrapped(&r.1, &witness, side),
{
    let w = Witness::Stacked(Box::new(CompiledWitness::new(witness, side)));
    let mut rest = statements;
    let mut out: Vec<Statement> = Vec::new();
    while rest.len() >= 2
        invariant
            2 * out@.len() + rest@.len() == statements@.len(),
            rest@ == statements@.skip(2 * out@.len() as int),
            forall|i: int|
                0 <= i < out@.len() ==> is_pair(
                    &out@[i],
                    &statements@[2 * i],
                    &statements@[2 * i + 1],
                ),
        decreases rest@.len(),
    {
        let ghost k = out@.len() as int;
        proof {
            assert(rest@[0] == statements@[2 * k]);
            assert(rest@[1] == statements@[2 * k + 1]);
        }
        let l = rest.remove(0);
        let r2 = rest.remove(0);
        out.push(Statement::Stacked(Box::new(CompiledStatement::new(l, r2))));
        proof {
            assert(rest@ =~= statements@.skip(2 * out@.len() as int));
        }
    }
    (out, w)
}

/// Whether two statement trees have the same depth (depth is measured
/// along the left spine).
pub fn same_depth(a: &Statement, b: &Statement) -> (r: bool)
    ensures
        r == (depth(a) == depth(b)),
    decreases a,
{
    match (a, b) {
        (Statement::Leaf(_), Statement::Leaf(_)) => true,
        (Statement::Stacked(pa), Statement::Stacked(pb)) => same_depth(&pa.left, &pb.left),
        _ => false,
    }
}

/// Whether every leaf of a statement tree decodes to a group element and
/// the tree is balanced.
pub fn statement_check(s: &Statement) -> (r: bool)
    ensures
        r == stmt_wf(s),
    decreases s,
{
    match s {
        Statement::Leaf(p) => point_decode_ok(p),
        Statement::Stacked(pair) => statement_check(&pair.left) && statement_check(&pair.right)
            && same_depth(&pair.left, &pair.right),
    }
}

/// Whether a third message has as many levels as a statement tree.
pub fn shape_check(s: &Statement, z: &MessageZ) -> (r: bool)
    ensures
        r == (zdepth(z) == depth(s)),
    decreases s,
{
    match (s, z) {
        (Statement::Leaf(_), MessageZ::Leaf(_)) => true,
        (Statement::Stacked(pair), MessageZ::Stacked(cz)) => shape_check(&pair.left, &cz.z),
        _ => false,
    }
}

/// The Schnorr response at the bottom of a third message.
pub fn leaf_response(z: &MessageZ) -> (r: Scalar)
    requires
        z_wf(z),
    ensures
        r == z_leaf(z),
        r.valid(),
    decreases z,
{
    match z {
        MessageZ::Leaf(s) => *s,
        MessageZ::Stacked(cz) => leaf_response(&cz.z),
    }
}

/// Whether a witness matches a statement tree: its side tags lead to a
/// leaf whose statement is the leaf scalar's own, recomputed and compared.
pub fn witness_check(w: &Witness, s: &Statement) -> (r: bool)
    ensures
        r == wit_matches(w, s),
    decreases w,
{
    match (w, s) {
        (Witness::Leaf(x), Statement::Leaf(p)) => {
            if !scalar_check(x) {
                return false;
            }
            bytes32_eq(&Schnorr::statement(x), p)
        },
        (Witness::Stacked(cw), Statement::Stacked(pair)) => match cw.side {
            Side::Left => witness_check(&cw.witness, &pair.left),
            Side::Right => witness_check(&cw.witness, &pair.right),
        },
        _ => false,
    }
}

/// The stacked protocol itself: the combinator applied to the statement
/// tree, with the Schnorr protocol at the leaves.
#[derive(Debug)]
pub struct Compiled;

impl Compiled {
    /// First move. At a leaf, the Schnorr first move. At a stacked level:
    /// run the inner first move on the real side, generate a fresh key
    /// binding on that side, and commit to the inner first message in the
    /// real side's slot. Returns None only if a key generation ran out of
    /// retries (see `CommitKey::gen`).
    pub fn sigma_a<E: EntropySource>(rng: &mut E, witness: &Witness) -> (r: Option<
        (State, [u8; 32]),
    >)
        ensures
            r matches Some(p) ==> state_ok(witness, &p.0) && p.1@ == state_a(witness, &p.0),
            witness matches Witness::Leaf(_) ==> r is Some,
        decreases witness,
    {
        match witness {
            Witness::Leaf(x) => {
                let (k, a) = Schnorr::sigma_a(rng, x);
                Some((State::Leaf(k), a))
            },
            Witness::Stacked(cw) => {
                match Self::sigma_a(rng, &cw.witness) {
                    None => None,
                    Some((st, a)) => {
                        match CommitKey::gen(rng, cw.side) {
                            None => None,
                            Some((ck, td)) => {
                                let rd = random_scalar(rng);
                                let c = match cw.side {
                                    Side::Left => ck.commit::<[u8; 32], [u8; 32]>(
                                        &rd,
                                        (Some(&a), None),
                                    ),
                                    Side::Right => ck.commit::<[u8; 32], [u8; 32]>(
                                        &rd,
                                        (None, Some(&a)),
                                    ),
                                };
                                let state = CompiledState { a, st, ck, td, rd };
                                Some((State::Stacked(Box::new(state)), c.0))
                            },
                        }
                    },
                }
            },
        }
    }

    /// The simulator: rebuild the first message from the precompute, the
    /// statement and the third message, recursing into both branches with
    /// the same response and committing to the pair of rebuilt messages.
    pub fn ehvzk(
        precomp: &Precompute,
        statement: &Statement,
        challenge: &Scalar,
        z: &MessageZ,
    ) -> (r: [u8; 32])
        requires
            is_point(precomp.0@),
            precomp.1.valid(),
            stmt_wf(statement),
            z_wf(z),
            zdepth(z) == depth(statement),
        ensures
            r@ == spec_ehvzk(dlog(precomp.0@), precomp.1.v(), statement, z),
        decreases statement,
    {
        match (statement, z) {
            (Statement::Leaf(p), MessageZ::Leaf(zs)) => Schnorr::ehvzk(precomp, p, challenge, zs),
            (Statement::Stacked(pair), MessageZ::Stacked(cz)) => {
                let left = Self::ehvzk(precomp, &pair.left, challenge, &cz.z);
                let right = Self::ehvzk(precomp, &pair.right, challenge, &cz.z);
                cz.ck.commit::<[u8; 32], [u8; 32]>(&cz.rd, (Some(&left), Some(&right))).0
            },
            _ => {
                proof {
                    assert(false);
                }
                [0u8; 32]
            },
        }
    }

    /// Third move. At a leaf, the Schnorr response. At a stacked level:
    /// run the real prover on the known side, simulate the sibling's first
    /// message from the same response, and equivocate the commitment so
    /// its published opening covers both slots. The returned pair
    /// satisfies the verifier's equation: the simulator run on it rebuilds
    /// the first message that `sigma_a` emitted.
    pub fn sigma_z(
        statement: &Statement,
        witness: &Witness,
        state: &State,
        challenge: &Scalar,
    ) -> (r: (Precompute, MessageZ))
        requires
            wit_matches(witness, statement),
            stmt_wf(statement),
            state_ok(witness, state),
            challenge.valid(),
        ensures
            is_point(r.0.0@),
            r.0.0@ == enc(z_leaf(&r.1).v()),
            dlog(r.0.0@) == z_leaf(&r.1).v(),
            r.0.1.valid(),
            r.0.1.v() == neg_mod(challenge.v()),
            z_wf(&r.1),
            zdepth(&r.1) == depth(statement),
            z_leaf(&r.1).v() == (challenge.v() * wit_leaf(witness).v() + state_leaf(state).v())
                % group_order(),
            sigma_z_rel(statement, witness, state, challenge.v(), &r.1),
            spec_ehvzk(dlog(r.0.0@), r.0.1.v(), statement, &r.1) == state_a(witness, state),
        decreases witness,
    {
        match (witness, state) {
            (Witness::Leaf(x), State::Leaf(k)) => {
                match statement {
                    Statement::Leaf(p) => {
                        let (pre, z) = Schnorr::sigma_z(p, x, k, challenge);
                        proof {
                            lemma_schnorr_correctness(x.v(), k.v(), challenge.v());
                        }
                        (pre, MessageZ::Leaf(z))
                    },
                    _ => {
                        proof {
                            assert(false);
                        }
                        (([0u8; 32], *challenge), MessageZ::Leaf(*challenge))
                    },
                }
            },
            (Witness::Stacked(cw), State::Stacked(cs)) => {
                match statement {
                    Statement::Stacked(pair) => {
                        match cw.side {
                            Side::Left => {
                                let (pre, z_in) = Self::sigma_z(
                                    &pair.left,
                                    &cw.witness,
                                    &cs.st,
                                    challenge,
                                );
                                let a_sim = Self::ehvzk(&pre, &pair.right, challenge, &z_in);
                                let rd2 = cs.td.equiv::<[u8; 32], [u8; 32]>(
                                    &cs.rd,
                                    (Some(&cs.a), None),
                                    (Some(&cs.a), Some(&a_sim)),
                                );
                                proof {
                                    lemma_equivocation(
                                        cs.rd.v(),
                                        cs.td.td.v(),
                                        h_scalar(cs.a@),
                                        h_scalar(cs.a@),
                                        0,
                                        h_scalar(a_sim@),
                                        dlog(cs.ck.left@),
                                        dlog(cs.ck.right@),
                                        Side::Left,
                                    );
                                }
                                let mz = CompiledMessageZ { z: z_in, ck: cs.ck, rd: rd2 };
                                (pre, MessageZ::Stacked(Box::new(mz)))
                            },
                            Side::Right => {
                                let (pre, z_in) = Self::sigma_z(
                                    &pair.right,
                                    &cw.witness,
                                    &cs.st,
                                    challenge,
                                );
                                let a_sim = Self::ehvzk(&pre, &pair.left, challenge, &z_in);
                                let rd2 = cs.td.equiv::<[u8; 32], [u8; 32]>(
                                    &cs.rd,
                                    (None, Some(&cs.a)),
                                    (Some(&a_sim), Some(&cs.a)),
                                );
                                proof {
                                    lemma_equivocation(
                                        cs.rd.v(),
                                        cs.td.td.v(),
                                        0,
                                        h_scalar(a_sim@),
                                        h_scalar(cs.a@),
                                        h_scalar(cs.a@),
                                        dlog(cs.ck.left@),
                                        dlog(cs.ck.right@),
                                        Side::Right,
                                    );
                                }
                                let mz = CompiledMessageZ { z: z_in, ck: cs.ck, rd: rd2 };
                                (pre, MessageZ::Stacked(Box::new(mz)))
                            },
                        }
                    },
                    _ => {
                        proof {
                            assert(false);
                        }
                        (([0u8; 32], *challenge), MessageZ::Leaf(*challenge))
                    },
                }
            },
            _ => {
                proof {
                    assert(false);
                }
                (([0u8; 32], *challenge), MessageZ::Leaf(*challenge))
            },
        }
    }
}

} // verus!
