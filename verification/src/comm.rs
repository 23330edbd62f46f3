//! The trapdoor commitment scheme: a public Feistel permutation on 32-byte
//! strings, and a two-generator Pedersen-style commitment whose hiding side
//! can be equivocated by the holder of the trapdoor.
use vstd::prelude::*;

use crate::group::{
    base_mul, dlog, enc, group_order, h_scalar, is_point, point_add, point_decode_ok, point_mul,
    scalar_add, scalar_from_wide, scalar_mul, scalar_sub, scalar_zero, sha512, sha512_of, Scalar,
};
use crate::stack::{random_scalar, EntropySource, Message};
use crate::Side;

verus! {

// ------------------------------------------------------------------
// The Feistel permutation
// ------------------------------------------------------------------

/// The right half XORed with the first 16 bytes of the round pad.
pub open spec fn xor_pad(r: Seq<u8>, pad: Seq<u8>) -> Seq<u8> {
    Seq::new(16, |i: int| r[i] ^ pad[i])
}

/// One balanced Feistel round: the round function (SHA-512 truncated to 16
/// bytes) of the left half is XORed into the right half, then the halves
/// are swapped.
pub open spec fn round_spec(l: Seq<u8>, r: Seq<u8>) -> (Seq<u8>, Seq<u8>) {
    (xor_pad(r, sha512_of(l)), l)
}

/// `n` Feistel rounds.
pub open spec fn rounds_spec(l: Seq<u8>, r: Seq<u8>, n: nat) -> (Seq<u8>, Seq<u8>)
    decreases n,
{
    if n == 0 {
        (l, r)
    } else {
        let s = round_spec(l, r);
        rounds_spec(s.0, s.1, (n - 1) as nat)
    }
}

/// The 8-round Feistel permutation on 32-byte strings: the input is split
/// into halves, 8 rounds are applied, and the final halves are written back
/// swapped once more.
pub open spec fn feistel_spec(v: Seq<u8>) -> Seq<u8> {
    let s = rounds_spec(v.take(16), v.skip(16), 8);
    s.1 + s.0
}

proof fn lemma_round_undo(l: Seq<u8>, r: Seq<u8>)
    requires
        l.len() == 16,
        r.len() == 16,
    ensures
        ({
            let s = round_spec(l, r);
            round_spec(s.1, s.0) == (r, l)
        }),
{
    let s = round_spec(l, r);
    let t = round_spec(s.1, s.0);
    assert forall|i: int| 0 <= i < 16 implies t.0[i] == r[i] by {
        let p: u8 = sha512_of(l)[i];
        let b: u8 = r[i];
        assert(((b ^ p) ^ p) == b) by (bit_vector);
    }
    assert(t.0 =~= r);
}

proof fn lemma_rounds_len(l: Seq<u8>, r: Seq<u8>, n: nat)
    requires
        l.len() == 16,
        r.len() == 16,
    ensures
        rounds_spec(l, r, n).0.len() == 16,
        rounds_spec(l, r, n).1.len() == 16,
    decreases n,
{
    if n > 0 {
        let s = round_spec(l, r);
        lemma_rounds_len(s.0, s.1, (n - 1) as nat);
    }
}

proof fn lemma_rounds_last(l: Seq<u8>, r: Seq<u8>, n: nat)
    ensures
        rounds_spec(l, r, n + 1) == ({
            let s = rounds_spec(l, r, n);
            round_spec(s.0, s.1)
        }),
    decreases n,
{
    let s = round_spec(l, r);
    if n == 0 {
        reveal_with_fuel(rounds_spec, 2);
        assert((s.0, s.1) =~= s);
    } else {
        lemma_rounds_last(s.0, s.1, (n - 1) as nat);
    }
}

proof fn lemma_rounds_undo(l: Seq<u8>, r: Seq<u8>, n: nat)
    requires
        l.len() == 16,
        r.len() == 16,
    ensures
        ({
            let s = rounds_spec(l, r, n);
            rounds_spec(s.1, s.0, n) == (r, l)
        }),
    decreases n,
{
    if n > 0 {
        let s1 = round_spec(l, r);
        lemma_rounds_undo(s1.0, s1.1, (n - 1) as nat);
        let a = rounds_spec(s1.0, s1.1, (n - 1) as nat);
        lemma_rounds_len(s1.0, s1.1, (n - 1) as nat);
        lemma_rounds_last(a.1, a.0, (n - 1) as nat);
        lemma_round_undo(l, r);
    }
}

/// The Feistel permutation is an involution: applying it twice returns the
/// input. No key material distinguishes the two applications, and the final
/// swapped write-back lines the second pass up to undo the first.
pub proof fn lemma_feistel_involution(v: Seq<u8>)
    requires
        v.len() == 32,
    ensures
        feistel_spec(feistel_spec(v)) == v,
{
    let l0 = v.take(16);
    let r0 = v.skip(16);
    let s = rounds_spec(l0, r0, 8);
    lemma_rounds_len(l0, r0, 8);
    let w = feistel_spec(v);
    assert(w.take(16) =~= s.1);
    assert(w.skip(16) =~= s.0);
    lemma_rounds_undo(l0, r0, 8);
    assert(feistel_spec(w) =~= v);
}

#[verifier::loop_isolation(false)]
fn feistel_round(l: &[u8; 16], r: &[u8; 16]) -> (out: ([u8; 16], [u8; 16]))
    ensures
        (out.0@, out.1@) == round_spec(l@, r@),
{
    let pad = sha512(l.as_slice());
    let mut x = [0u8; 16];
    let mut i: usize = 0;
    while i < 16
        invariant
            i <= 16,
            forall|j: int| 0 <= j < i ==> x@[j] == (r@[j] ^ pad@[j]),
        decreases 16 - i,
    {
        x[i] = r[i] ^ pad[i];
        i = i + 1;
    }
    proof {
        assert(x@ =~= xor_pad(r@, pad@));
    }
    (x, *l)
}

/// The 8-round Feistel network on a 32-byte string.
#[verifier::loop_isolation(false)]
pub fn feistel(v: &[u8; 32]) -> (out: [u8; 32])
    ensures
        out@ == feistel_spec(v@),
{
    let mut l0 = [0u8; 16];
    let mut r0 = [0u8; 16];
    let mut i: usize = 0;
    while i < 16
        invariant
            i <= 16,
            forall|j: int| 0 <= j < i ==> l0@[j] == v@[j],
            forall|j: int| 0 <= j < i ==> r0@[j] == v@[j + 16],
        decreases 16 - i,
    {
        l0[i] = v[i];
        r0[i] = v[i + 16];
        i = i + 1;
    }
    proof {
        assert(l0@ =~= v@.take(16));
        assert(r0@ =~= v@.skip(16));
    }
    let (l1, r1) = feistel_round(&l0, &r0);
    let (l2, r2) = feistel_round(&l1, &r1);
    let (l3, r3) = feistel_round(&l2, &r2);
    let (l4, r4) = feistel_round(&l3, &r3);
    let (l5, r5) = feistel_round(&l4, &r4);
    let (l6, r6) = feistel_round(&l5, &r5);
    let (l7, r7) = feistel_round(&l6, &r6);
    let (l8, r8) = feistel_round(&l7, &r7);
    proof {
        reveal_with_fuel(rounds_spec, 9);
        assert((l8@, r8@) == rounds_spec(l0@, r0@, 8));
    }
    let mut out = [0u8; 32];
    let mut i: usize = 0;
    while i < 16
        invariant
            i <= 16,
            forall|j: int| 0 <= j < i ==> out@[j] == r8@[j],
            forall|j: int| 0 <= j < i ==> out@[j + 16] == l8@[j],
        decreases 16 - i,
    {
        out[i] = r8[i];
        out[i + 16] = l8[i];
        i = i + 1;
    }
    proof {
        assert(out@ =~= feistel_spec(v@));
    }
    out
}

/// The public permutation P on compressed encodings.
pub fn perm(v: &[u8; 32]) -> (out: [u8; 32])
    ensures
        out@ == feistel_spec(v@),
{
    feistel(v)
}

/// The inverse of P; the Feistel network is an involution, so it is the
/// same computation.
pub fn perm_inv(v: &[u8; 32]) -> (out: [u8; 32])
    ensures
        out@ == feistel_spec(v@),
{
    feistel(v)
}

// ------------------------------------------------------------------
// The trapdoor commitment
// ------------------------------------------------------------------

/// The blinding factor of a commitment.
pub type Randomness = Scalar;

/// A commitment: the 32-byte compressed encoding of
/// r·G + h(m_L)·H_L + h(m_R)·H_R, absent slots contributing zero.
#[derive(PartialEq, Eq, Debug)]
pub struct Commitment(pub [u8; 32]);

impl Message for Commitment {
    open spec fn enc_bytes(&self) -> Seq<u8> {
        self.0@
    }

    fn write(&self, out: &mut Vec<u8>) {
        crate::stack::write_bytes32(&self.0, out);
        proof {
            assert(out@ == old(out)@ + self.enc_bytes());
        }
    }
}

/// The hash of an optional message slot; an absent slot hashes to zero.
pub open spec fn slot_hash<M: Message>(m: Option<&M>) -> nat {
    match m {
        Some(v) => h_scalar(v.enc_bytes()),
        None => 0,
    }
}

/// The discrete log of a commitment made under randomness `r` with slot
/// hashes (h_l, h_r), for generators of discrete logs d_l and d_r.
pub open spec fn commit_val(r: nat, h_l: nat, h_r: nat, d_l: nat, d_r: nat) -> nat {
    (r + h_l * d_l + h_r * d_r) % group_order()
}

/// a − b in the scalar field, on canonical representatives.
pub open spec fn sub_mod(a: nat, b: nat) -> nat {
    ((a + group_order() - b) % (group_order() as int)) as nat
}

/// The adjusted randomness r + t·Δ, where Δ is the sum of the two slots'
/// hash differences, each computed in the scalar field.
pub open spec fn equiv_val(r: nat, t: nat, o0: nat, n0: nat, o1: nat, n1: nat) -> nat {
    (r + (t * ((sub_mod(o0, n0) + sub_mod(o1, n1)) % group_order())) % group_order())
        % group_order()
}

proof fn lemma_equiv_one_side(r: int, t: int, chg_o: int, chg_n: int, fix: int, ord: int)
    requires
        0 < ord,
        0 <= r < ord,
        0 <= t < ord,
        0 <= chg_o < ord,
        0 <= chg_n < ord,
        0 <= fix,
    ensures
        ((r + (t * (((chg_o + ord - chg_n) % ord) % ord)) % ord) % ord + fix + chg_n * t) % ord
            == (r + fix + chg_o * t) % ord,
{
    let sub = (chg_o + ord - chg_n) % ord;
    vstd::arithmetic::div_mod::lemma_mod_bound(chg_o + ord - chg_n, ord);
    vstd::arithmetic::div_mod::lemma_small_mod(sub as nat, ord as nat);
    assert(sub % ord == sub);
    vstd::arithmetic::div_mod::lemma_mul_mod_noop_right(t, chg_o + ord - chg_n, ord);
    assert((t * sub) % ord == (t * (chg_o + ord - chg_n)) % ord);
    vstd::arithmetic::div_mod::lemma_add_mod_noop_right(r, t * (chg_o + ord - chg_n), ord);
    let rr = (r + (t * sub) % ord) % ord;
    assert(rr == (r + t * (chg_o + ord - chg_n)) % ord);
    vstd::arithmetic::div_mod::lemma_add_mod_noop(
        r + t * (chg_o + ord - chg_n),
        fix + chg_n * t,
        ord,
    );
    assert((rr + fix + chg_n * t) % ord == (r + t * (chg_o + ord - chg_n) + fix + chg_n * t)
        % ord) by {
        vstd::arithmetic::div_mod::lemma_add_mod_noop_right(
            fix + chg_n * t,
            r + t * (chg_o + ord - chg_n),
            ord,
        );
    }
    assert(r + t * (chg_o + ord - chg_n) + fix + chg_n * t == (r + fix + chg_o * t) + ord * t)
        by (nonlinear_arith);
    vstd::arithmetic::div_mod::lemma_mod_multiples_vanish(t, r + fix + chg_o * t, ord);
}

/// Commitment homomorphism (the equivocation identity): for generators of
/// discrete logs d_l and d_r, a trapdoor t equal to the discrete log of the
/// generator opposite the binding side, and old and new slot hashes that
/// agree on the binding side, the adjusted randomness opens the new slots
/// to the very commitment that the old randomness opened the old slots to.
pub proof fn lemma_equivocation(
    r: nat,
    t: nat,
    o0: nat,
    n0: nat,
    o1: nat,
    n1: nat,
    d_l: nat,
    d_r: nat,
    side: Side,
)
    requires
        r < group_order(),
        t < group_order(),
        o0 < group_order(),
        n0 < group_order(),
        o1 < group_order(),
        n1 < group_order(),
        match side {
            Side::Left => o0 == n0 && t == d_r,
            Side::Right => o1 == n1 && t == d_l,
        },
    ensures
        commit_val(equiv_val(r, t, o0, n0, o1, n1), n0, n1, d_l, d_r) == commit_val(
            r,
            o0,
            o1,
            d_l,
            d_r,
        ),
{
    let ord = group_order() as int;
    match side {
        Side::Left => {
            assert(sub_mod(o0, n0) == 0) by {
                vstd::arithmetic::div_mod::lemma_mod_self_0(ord);
            }
            lemma_equiv_one_side(
                r as int,
                t as int,
                o1 as int,
                n1 as int,
                (n0 * d_l) as int,
                ord,
            );
            assert(equiv_val(r, t, o0, n0, o1, n1) == ((r + (t * ((0 + sub_mod(o1, n1))
                % group_order())) % group_order()) % group_order()));
            assert((0 + sub_mod(o1, n1)) % group_order() == sub_mod(o1, n1) % group_order());
        },
        Side::Right => {
            assert(sub_mod(o1, n1) == 0) by {
                vstd::arithmetic::div_mod::lemma_mod_self_0(ord);
            }
            lemma_equiv_one_side(
                r as int,
                t as int,
                o0 as int,
                n0 as int,
                (n1 * d_r) as int,
                ord,
            );
            assert((sub_mod(o0, n0) + 0) % group_order() == sub_mod(o0, n0) % group_order());
        },
    }
}

/// Hash a message to a scalar: wide reduction of the SHA-512 digest of its
/// serialization.
fn hash<M: Message>(v: &M) -> (r: Scalar)
    ensures
        r.valid(),
        r.v() == h_scalar(v.enc_bytes()),
{
    let mut buf: Vec<u8> = Vec::new();
    v.write(&mut buf);
    proof {
        assert(buf@ =~= v.enc_bytes());
    }
    let d = sha512(buf.as_slice());
    scalar_from_wide(&d)
}

/// Hash an optional slot to a scalar; an absent slot hashes to zero.
fn hash_option<M: Message>(v: Option<&M>) -> (r: Scalar)
    ensures
        r.valid(),
        r.v() == slot_hash(v),
{
    match v {
        Some(m) => hash(m),
        None => scalar_zero(),
    }
}

/// The trapdoor of a commitment key: the discrete log of the hiding-side
/// generator, which lets its holder move that slot's content.
pub struct Trapdoor {
    pub td: Scalar,
}

impl Trapdoor {
    /// The adjusted randomness that opens a commitment made under `random`
    /// with slot contents `old` to the contents `new`: r + t·Δ with
    /// Δ = (h(old_L) − h(new_L)) + (h(old_R) − h(new_R)). The opening is
    /// preserved only if the binding-side slot is unchanged (see
    /// `lemma_equivocation`).
    pub fn equiv<M1: Message, M2: Message>(
        &self,
        random: &Scalar,
        old: (Option<&M1>, Option<&M2>),
        new: (Option<&M1>, Option<&M2>),
    ) -> (r: Scalar)
        requires
            self.td.valid(),
            random.valid(),
        ensures
            r.valid(),
            r.v() == equiv_val(
                random.v(),
                self.td.v(),
                slot_hash(old.0),
                slot_hash(new.0),
                slot_hash(old.1),
                slot_hash(new.1),
            ),
    {
        let o0 = hash_option(old.0);
        let o1 = hash_option(old.1);
        let n0 = hash_option(new.0);
        let n1 = hash_option(new.1);
        let d0 = scalar_sub(&o0, &n0);
        let d1 = scalar_sub(&o1, &n1);
        let delta = scalar_add(&d0, &d1);
        scalar_add(random, &scalar_mul(&self.td, &delta))
    }
}

/// A commitment key: the ordered pair of generators (H_L, H_R), held as
/// compressed encodings. The right generator is always the image of the
/// left one under the public permutation, so writing the left one alone
/// determines the key.
#[derive(Clone, Copy, Debug)]
pub struct CommitKey {
    pub left: [u8; 32],
    pub right: [u8; 32],
}

impl Message for CommitKey {
    open spec fn enc_bytes(&self) -> Seq<u8> {
        self.left@
    }

    fn write(&self, out: &mut Vec<u8>) {
        crate::stack::write_bytes32(&self.left, out);
        proof {
            assert(out@ == old(out)@ + self.enc_bytes());
        }
    }
}

impl CommitKey {
    /// Both generators decode, and the right one is the Feistel image of
    /// the left.
    pub open spec fn wf(&self) -> bool {
        is_point(self.left@) && is_point(self.right@) && self.right@ == feistel_spec(self.left@)
    }

    /// `td` is the trapdoor for the key binding on `side`: the discrete
    /// log of the generator on the opposite (hiding) side.
    pub open spec fn td_matches(&self, td: &Trapdoor, side: Side) -> bool {
        td.td.valid() && match side {
            Side::Left => td.td.v() == dlog(self.right@),
            Side::Right => td.td.v() == dlog(self.left@),
        }
    }

    /// Generate a fresh key binding on `side` with its trapdoor: sample t,
    /// set the hiding-side generator to t·G, and derive the binding-side
    /// generator through the permutation, resampling while the derived
    /// encoding does not decode to a group element. Each draw decodes with
    /// constant probability, so for a uniform source the bound of ten
    /// thousand draws is reached, and None returned, with negligible
    /// probability.
    pub fn gen<E: EntropySource>(rng: &mut E, side: Side) -> (r: Option<(CommitKey, Trapdoor)>)
        ensures
            r matches Some(p) ==> p.0.wf() && p.0.td_matches(&p.1, side),
    {
        let mut attempts: usize = 0;
        while attempts < 10000
            decreases 10000 - attempts,
        {
            let t = random_scalar(rng);
            let g = base_mul(&t);
            let other = feistel(&g);
            if point_decode_ok(&other) {
                proof {
                    lemma_feistel_involution(g@);
                }
                let ck = match side {
                    Side::Left => CommitKey { left: other, right: g },
                    Side::Right => CommitKey { left: g, right: other },
                };
                return Some((ck, Trapdoor { td: t }));
            }
            attempts = attempts + 1;
        }
        None
    }

    /// Commit under randomness `random` to the optional slot contents:
    /// the compressed encoding of r·G [+ h(m_L)·H_L] [+ h(m_R)·H_R].
    pub fn commit<M1: Message, M2: Message>(
        &self,
        random: &Randomness,
        values: (Option<&M1>, Option<&M2>),
    ) -> (c: Commitment)
        requires
            is_point(self.left@),
            is_point(self.right@),
            random.valid(),
        ensures
            c.0@ == enc(
                commit_val(
                    random.v(),
                    slot_hash(values.0),
                    slot_hash(values.1),
                    dlog(self.left@),
                    dlog(self.right@),
                ),
            ),
            dlog(c.0@) == commit_val(
                random.v(),
                slot_hash(values.0),
                slot_hash(values.1),
                dlog(self.left@),
                dlog(self.right@),
            ),
    {
        let ghost ord = group_order() as int;
        let ghost d_l = dlog(self.left@);
        let ghost d_r = dlog(self.right@);
        let mut acc = base_mul(random);
        proof {
            vstd::arithmetic::div_mod::lemma_small_mod(random.v(), group_order());
        }
        if let Some(m) = values.0 {
            let h = hash(m);
            let step = point_mul(&h, &self.left);
            proof {
                assert(is_point(acc@));
                vstd::arithmetic::div_mod::lemma_add_mod_noop_right(
                    random.v() as int,
                    (h.v() * d_l) as int,
                    ord,
                );
            }
            acc = point_add(&acc, &step);
        }
        if let Some(m) = values.1 {
            let h = hash(m);
            let step = point_mul(&h, &self.right);
            proof {
                assert(is_point(acc@));
                vstd::arithmetic::div_mod::lemma_add_mod_noop(
                    (random.v() + slot_hash(values.0) * d_l) as int,
                    (h.v() * d_r) as int,
                    ord,
                );
            }
            acc = point_add(&acc, &step);
        }
        Commitment(acc)
    }
}

} // verus!
