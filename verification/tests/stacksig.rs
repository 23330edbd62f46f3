use stacksig::comm::{perm, perm_inv, CommitKey};
use stacksig::compiler::{
    compile, witness_check, Compiled, CompiledStatement, CompiledWitness, MessageZ, Statement,
    Witness,
};
use stacksig::fiat::{Signature, SignatureScheme};
use stacksig::group::Scalar;
use stacksig::schnorr::Schnorr;
use stacksig::stack::{random_scalar, Challenge, EntropySource, Message, OsEntropy};
use stacksig::Side;

/// A scalar with the given small value.
fn s(x: u64) -> Scalar {
    let mut w = [0u8; 64];
    w[..8].copy_from_slice(&x.to_le_bytes());
    <Scalar as Challenge>::new(&w)
}

/// A deterministic entropy source for reproducibility tests.
struct FixedTape {
    seed: u8,
    counter: u64,
}

impl EntropySource for FixedTape {
    fn next_block(&mut self) -> [u8; 64] {
        self.counter += 1;
        let mut b = [0u8; 64];
        for (i, byte) in b.iter_mut().enumerate() {
            *byte = self
                .seed
                .wrapping_mul(31)
                .wrapping_add(self.counter as u8)
                .wrapping_add((i as u8).wrapping_mul(97));
        }
        b
    }
}

/// Build a balanced statement tree over the given leaves.
fn build_tree(mut level: Vec<Statement>) -> Statement {
    while level.len() > 1 {
        let mut next = Vec::with_capacity(level.len() / 2);
        let mut it = level.into_iter();
        while let (Some(l), Some(r)) = (it.next(), it.next()) {
            next.push(Statement::Stacked(Box::new(CompiledStatement::new(l, r))));
        }
        level = next;
    }
    level.into_iter().next().unwrap()
}

/// Wrap a leaf witness with `d` left-side tags.
fn wrap_witness(x: Scalar, d: usize) -> Witness {
    let mut w = Witness::Leaf(x);
    for _ in 0..d {
        w = Witness::Stacked(Box::new(CompiledWitness::new(w, Side::Left)));
    }
    w
}

/// A ring of 2^d statements whose leaf 0 belongs to `x`; the other ring
/// members share one filler statement, which keeps building cheap.
fn ring(x: &Scalar, d: usize) -> Statement {
    let filler = Schnorr::statement(&s(999_983));
    let mut leaves = vec![Statement::Leaf(Schnorr::statement(x))];
    for _ in 1..(1usize << d) {
        leaves.push(Statement::Leaf(filler));
    }
    build_tree(leaves)
}

fn sig_bytes(sig: &Signature) -> Vec<u8> {
    let mut v = Vec::new();
    sig.write(&mut v);
    v
}

#[test]
fn test_perm_inv() {
    let v: [u8; 32] = [
        0x42, 0x64, 0x32, 0x11, 0x42, 0x64, 0x32, 0x11, 0x42, 0x64, 0x32, 0x11, 0x42, 0x64,
        0x32, 0x11, 0x42, 0x64, 0x32, 0x11, 0x42, 0x64, 0x32, 0x11, 0x42, 0x64, 0x32, 0x11,
        0x42, 0x64, 0x32, 0x11,
    ];
    let pv = perm(&v);
    assert_eq!(v, perm_inv(&pv));
}

#[test]
fn perm_known_answer() {
    // The 8-round network over SHA-512, computed independently.
    let v: [u8; 32] = [
        0x42, 0x64, 0x32, 0x11, 0x42, 0x64, 0x32, 0x11, 0x42, 0x64, 0x32, 0x11, 0x42, 0x64,
        0x32, 0x11, 0x42, 0x64, 0x32, 0x11, 0x42, 0x64, 0x32, 0x11, 0x42, 0x64, 0x32, 0x11,
        0x42, 0x64, 0x32, 0x11,
    ];
    let expected: [u8; 32] = [
        0, 82, 238, 40, 32, 174, 57, 170, 31, 61, 72, 228, 189, 70, 44, 161, 235, 112, 143, 32,
        123, 235, 253, 220, 253, 168, 214, 75, 148, 253, 8, 238,
    ];
    assert_eq!(perm(&v), expected);
}

#[test]
fn perm_involution_more_inputs() {
    let mut v = [0u8; 32];
    assert_eq!(v, perm(&perm(&v)));
    for (i, byte) in v.iter_mut().enumerate() {
        *byte = (251u64.wrapping_mul(i as u64 + 7) % 256) as u8;
    }
    assert_eq!(v, perm(&perm(&v)));
    assert_ne!(v, perm(&v));
}

#[test]
fn schnorr_leaf_concrete() {
    // witness 7, nonce 5, challenge 3: z = 3*7 + 5 = 26, and the simulator
    // rebuilds A = compress(5*G).
    let x = s(7);
    let k = s(5);
    let c = s(3);
    let stx = Schnorr::statement(&x);
    let (pre, z) = Schnorr::sigma_z(&stx, &x, &k, &c);
    assert_eq!(z.bytes, s(26).bytes);
    let a = Schnorr::ehvzk(&pre, &stx, &c, &z);
    assert_eq!(a, Schnorr::statement(&s(5)));
}

#[test]
fn schnorr_correctness_random() {
    let mut rng = OsEntropy;
    let x = random_scalar(&mut rng);
    let c = random_scalar(&mut rng);
    let stx = Schnorr::statement(&x);
    let (k, a) = Schnorr::sigma_a(&mut rng, &x);
    let (pre, z) = Schnorr::sigma_z(&stx, &x, &k, &c);
    assert_eq!(Schnorr::ehvzk(&pre, &stx, &c, &z), a);
}

#[test]
fn commitment_equivocation() {
    // Committing to (m1, -) and then equivocating the right slot to m2
    // opens to the same commitment bytes.
    let mut rng = OsEntropy;
    let (ck, td) = CommitKey::gen(&mut rng, Side::Left).unwrap();
    let r = random_scalar(&mut rng);
    let m1: [u8; 32] = [7u8; 32];
    let m2: [u8; 32] = [9u8; 32];
    let before = ck.commit::<[u8; 32], [u8; 32]>(&r, (Some(&m1), None));
    let r2 = td.equiv::<[u8; 32], [u8; 32]>(&r, (Some(&m1), None), (Some(&m1), Some(&m2)));
    let after = ck.commit::<[u8; 32], [u8; 32]>(&r2, (Some(&m1), Some(&m2)));
    assert_eq!(before.0, after.0);
}

#[test]
fn commitment_equivocation_right_binding() {
    let mut rng = OsEntropy;
    let (ck, td) = CommitKey::gen(&mut rng, Side::Right).unwrap();
    let r = random_scalar(&mut rng);
    let m1: [u8; 32] = [3u8; 32];
    let m2: [u8; 32] = [5u8; 32];
    let before = ck.commit::<[u8; 32], [u8; 32]>(&r, (None, Some(&m1)));
    let r2 = td.equiv::<[u8; 32], [u8; 32]>(&r, (None, Some(&m1)), (Some(&m2), Some(&m1)));
    let after = ck.commit::<[u8; 32], [u8; 32]>(&r2, (Some(&m2), Some(&m1)));
    assert_eq!(before.0, after.0);
}

#[test]
fn one_level_roundtrip() {
    // One level of stacking: the ehvzk roundtrip reproduces the first
    // message emitted by sigma_a, with the witness on either side.
    let mut rng = OsEntropy;
    for side in [Side::Left, Side::Right] {
        let x = random_scalar(&mut rng);
        let y = random_scalar(&mut rng);
        let (lx, ly) = (Schnorr::statement(&x), Schnorr::statement(&y));
        let pk = match side {
            Side::Left => CompiledStatement::new(Statement::Leaf(lx), Statement::Leaf(ly)),
            Side::Right => CompiledStatement::new(Statement::Leaf(ly), Statement::Leaf(lx)),
        };
        let pk = Statement::Stacked(Box::new(pk));
        let w = Witness::Stacked(Box::new(CompiledWitness::new(Witness::Leaf(x), side)));
        let (st, a) = Compiled::sigma_a(&mut rng, &w).unwrap();
        let c = random_scalar(&mut rng);
        let (pre, z) = Compiled::sigma_z(&pk, &w, &st, &c);
        let rebuilt = Compiled::ehvzk(&pre, &pk, &c, &z);
        assert_eq!(rebuilt, a);
    }
}

#[test]
fn four_leaves_sign_empty() {
    // Two levels of stacking (4 leaves), witness at leaf 0: the signature
    // over the empty message is 192 bytes.
    let mut rng = OsEntropy;
    let x = random_scalar(&mut rng);
    let pk = ring(&x, 2);
    let sk = wrap_witness(x, 2);
    let sig = SignatureScheme::sign(&mut rng, &sk, &pk, &[]).unwrap();
    assert_eq!(sig.size(), 192);
    assert_eq!(sig_bytes(&sig).len(), 192);
    assert!(SignatureScheme::verify(&pk, &[], &sig));
}

fn check_size_at_depth(d: usize, verify: bool) {
    let mut rng = OsEntropy;
    let x = random_scalar(&mut rng);
    let pk = ring(&x, d);
    let sk = wrap_witness(x, d);
    let sig = SignatureScheme::sign(&mut rng, &sk, &pk, b"depth test").unwrap();
    assert_eq!(sig.size(), 64 * (d + 1));
    if verify {
        assert!(SignatureScheme::verify(&pk, b"depth test", &sig));
    }
}

#[test]
fn signature_sizes_by_depth() {
    for d in 1..=8usize {
        check_size_at_depth(d, d <= 4);
    }
}

#[test]
fn signature_size_depth_nine() {
    check_size_at_depth(9, false);
}

#[test]
fn builder_two_levels() {
    // The aggregation builder folds 4 leaves into one root in two steps,
    // wrapping the witness once per step, and the result signs and
    // verifies.
    let mut rng = OsEntropy;
    let x = random_scalar(&mut rng);
    let leaves = vec![
        Statement::Leaf(Schnorr::statement(&x)),
        Statement::Leaf(Schnorr::statement(&s(2))),
        Statement::Leaf(Schnorr::statement(&s(3))),
        Statement::Leaf(Schnorr::statement(&s(4))),
    ];
    let (level1, w1) = compile(leaves, Witness::Leaf(x), Side::Left);
    assert_eq!(level1.len(), 2);
    let (root, sk) = compile(level1, w1, Side::Left);
    assert_eq!(root.len(), 1);
    let pk = root.into_iter().next().unwrap();
    let sig = SignatureScheme::sign(&mut rng, &sk, &pk, b"built").unwrap();
    assert_eq!(sig.size(), 192);
    assert!(SignatureScheme::verify(&pk, b"built", &sig));
}

#[test]
fn signatures_differ_but_both_verify() {
    // Two signatures over the same keys and message with independent
    // randomness differ in A and Z but both satisfy the equation.
    let mut rng = OsEntropy;
    let x = random_scalar(&mut rng);
    let pk = ring(&x, 1);
    let sk = wrap_witness(x, 1);
    let msg = b"same message";
    let sig1 = SignatureScheme::sign(&mut rng, &sk, &pk, msg).unwrap();
    let sig2 = SignatureScheme::sign(&mut rng, &sk, &pk, msg).unwrap();
    assert_ne!(sig1.a, sig2.a);
    let (z1, z2) = (leaf_of(&sig1.z), leaf_of(&sig2.z));
    assert_ne!(z1.bytes, z2.bytes);
    assert!(SignatureScheme::verify(&pk, msg, &sig1));
    assert!(SignatureScheme::verify(&pk, msg, &sig2));
}

fn leaf_of(z: &MessageZ) -> Scalar {
    match z {
        MessageZ::Leaf(s) => *s,
        MessageZ::Stacked(cz) => leaf_of(&cz.z),
    }
}

#[test]
fn deterministic_under_fixed_randomness() {
    // With the same entropy tape, signing is deterministic; with a
    // different tape it is not.
    let x = s(424242);
    let pk1 = ring(&x, 2);
    let pk2 = ring(&x, 2);
    let sk = wrap_witness(x, 2);
    let mut t1 = FixedTape { seed: 11, counter: 0 };
    let mut t2 = FixedTape { seed: 11, counter: 0 };
    let mut t3 = FixedTape { seed: 12, counter: 0 };
    let sig1 = SignatureScheme::sign(&mut t1, &sk, &pk1, b"m").unwrap();
    let sig2 = SignatureScheme::sign(&mut t2, &sk, &pk2, b"m").unwrap();
    let sig3 = SignatureScheme::sign(&mut t3, &sk, &pk1, b"m").unwrap();
    assert_eq!(sig_bytes(&sig1), sig_bytes(&sig2));
    assert_ne!(sig_bytes(&sig1), sig_bytes(&sig3));
    assert!(SignatureScheme::verify(&pk1, b"m", &sig1));
    assert!(SignatureScheme::verify(&pk1, b"m", &sig3));
}

#[test]
fn perturbed_statement_fails() {
    // Perturbing any byte of either leaf encoding makes the equation fail
    // (or the statement undecodable), so verification rejects.
    let mut rng = OsEntropy;
    let x = random_scalar(&mut rng);
    let y = random_scalar(&mut rng);
    let lx = Schnorr::statement(&x);
    let ly = Schnorr::statement(&y);
    let pk = Statement::Stacked(Box::new(CompiledStatement::new(
        Statement::Leaf(lx),
        Statement::Leaf(ly),
    )));
    let sk = Witness::Stacked(Box::new(CompiledWitness::new(Witness::Leaf(x), Side::Left)));
    let sig = SignatureScheme::sign(&mut rng, &sk, &pk, b"probe").unwrap();
    assert!(SignatureScheme::verify(&pk, b"probe", &sig));
    for leaf in 0..2 {
        for pos in 0..32 {
            let mut l = lx;
            let mut r = ly;
            if leaf == 0 {
                l[pos] ^= 1;
            } else {
                r[pos] ^= 1;
            }
            let bad = Statement::Stacked(Box::new(CompiledStatement::new(
                Statement::Leaf(l),
                Statement::Leaf(r),
            )));
            assert!(!SignatureScheme::verify(&bad, b"probe", &sig));
        }
    }
}

#[test]
fn wrong_message_fails() {
    let mut rng = OsEntropy;
    let x = random_scalar(&mut rng);
    let pk = ring(&x, 1);
    let sk = wrap_witness(x, 1);
    let sig = SignatureScheme::sign(&mut rng, &sk, &pk, b"signed").unwrap();
    assert!(SignatureScheme::verify(&pk, b"signed", &sig));
    assert!(!SignatureScheme::verify(&pk, b"altered", &sig));
}

#[test]
fn witness_check_tells_matching_from_mismatched() {
    let mut rng = OsEntropy;
    let x = random_scalar(&mut rng);
    let y = random_scalar(&mut rng);
    let pk = Statement::Stacked(Box::new(CompiledStatement::new(
        Statement::Leaf(Schnorr::statement(&x)),
        Statement::Leaf(Schnorr::statement(&y)),
    )));
    let good = Witness::Stacked(Box::new(CompiledWitness::new(Witness::Leaf(x), Side::Left)));
    let wrong_side = Witness::Stacked(Box::new(CompiledWitness::new(
        Witness::Leaf(x),
        Side::Right,
    )));
    let wrong_key = Witness::Stacked(Box::new(CompiledWitness::new(Witness::Leaf(y), Side::Left)));
    assert!(witness_check(&good, &pk));
    assert!(!witness_check(&wrong_side, &pk));
    assert!(!witness_check(&wrong_key, &pk));
    assert!(!witness_check(&Witness::Leaf(x), &pk));
}

#[test]
fn commit_key_structure() {
    // Whatever the binding side, the right generator is the image of the
    // left one under the public permutation.
    let mut rng = OsEntropy;
    let (ck_l, _) = CommitKey::gen(&mut rng, Side::Left).unwrap();
    assert_eq!(ck_l.right, perm(&ck_l.left));
    let (ck_r, _) = CommitKey::gen(&mut rng, Side::Right).unwrap();
    assert_eq!(ck_r.right, perm(&ck_r.left));
}

#[test]
fn keygen_succeeds_quickly() {
    // Key generation with OS randomness succeeds on both sides; the
    // retry loop is bounded and in practice exits almost immediately.
    let mut rng = OsEntropy;
    for _ in 0..20 {
        assert!(CommitKey::gen(&mut rng, Side::Left).is_some());
        assert!(CommitKey::gen(&mut rng, Side::Right).is_some());
    }
}
