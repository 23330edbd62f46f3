//! The arithmetic layer: a byte-level model of the scalar field and of the
//! prime-order group, and the trusted boundary to the curve and hash crates.
//!
//! A scalar is held as its canonical 32-byte little-endian encoding; a group
//! element as its canonical 32-byte compressed encoding. Since the group has
//! prime order and is generated by the base point G, every element is d·G for
//! exactly one d below the order; `enc(d)` names that element's encoding and
//! `dlog` recovers d from it.
use vstd::prelude::*;

verus! {

/// The prime order of the group and of its scalar field:
/// 2^252 + 27742317777372353535851937790883648493.
pub open spec fn group_order() -> nat {
    0x1000000000000000000000000000000014def9dea2f79cd65812631a5cf5d3ednat
}

/// Value of a little-endian byte string.
pub open spec fn le_val(s: Seq<u8>) -> nat
    decreases s.len(),
{
    if s.len() == 0 {
        0
    } else {
        s[0] as nat + 256 * le_val(s.drop_first())
    }
}

/// The canonical 32-byte compressed encoding of the d-th multiple of the
/// base point G.
pub uninterp spec fn enc(d: nat) -> Seq<u8>;

/// The SHA-512 digest (64 bytes) of a byte string.
pub uninterp spec fn sha512_of(m: Seq<u8>) -> Seq<u8>;

/// Hashing a message to a scalar: wide reduction of its SHA-512 digest.
pub open spec fn h_scalar(m: Seq<u8>) -> nat {
    le_val(sha512_of(m)) % group_order()
}

/// `b` is the canonical encoding of some group element.
pub open spec fn is_point(b: Seq<u8>) -> bool {
    exists|d: nat| d < group_order() && b == enc(d)
}

/// The discrete logarithm (to base G) of the element that `b` encodes.
pub open spec fn dlog(b: Seq<u8>) -> nat {
    choose|d: nat| d < group_order() && b == enc(d)
}

/// A scalar of the group's scalar field, held in canonical little-endian
/// bytes.
#[derive(Clone, Copy, Debug)]
pub struct Scalar {
    pub bytes: [u8; 32],
}

impl Scalar {
    /// The integer this scalar stands for.
    pub open spec fn v(&self) -> nat {
        le_val(self.bytes@)
    }

    /// The bytes are a canonical (reduced) encoding.
    pub open spec fn valid(&self) -> bool {
        self.v() < group_order()
    }
}

/// The all-zero encoding stands for zero.
pub proof fn lemma_le_val_zero(s: Seq<u8>)
    requires
        forall|i: int| 0 <= i < s.len() ==> s[i] == 0,
    ensures
        le_val(s) == 0,
    decreases s.len(),
{
    if s.len() > 0 {
        assert(forall|i: int| 0 <= i < s.drop_first().len() ==> s.drop_first()[i] == 0);
        lemma_le_val_zero(s.drop_first());
    }
}

/// A little-endian byte string is determined by its value and its length:
/// the low byte is the value mod 256, and the rest follows by induction.
pub proof fn lemma_le_val_injective(a: Seq<u8>, b: Seq<u8>)
    requires
        a.len() == b.len(),
        le_val(a) == le_val(b),
    ensures
        a == b,
    decreases a.len(),
{
    if a.len() > 0 {
        assert(le_val(a) % 256 == a[0]) by {
            vstd::arithmetic::div_mod::lemma_mod_multiples_vanish(
                le_val(a.drop_first()) as int,
                a[0] as int,
                256,
            );
            vstd::arithmetic::div_mod::lemma_small_mod(a[0] as nat, 256);
        }
        assert(le_val(b) % 256 == b[0]) by {
            vstd::arithmetic::div_mod::lemma_mod_multiples_vanish(
                le_val(b.drop_first()) as int,
                b[0] as int,
                256,
            );
            vstd::arithmetic::div_mod::lemma_small_mod(b[0] as nat, 256);
        }
        assert(le_val(a.drop_first()) == le_val(b.drop_first())) by (nonlinear_arith)
            requires
                a[0] == b[0],
                a[0] as nat + 256 * le_val(a.drop_first()) == b[0] as nat + 256 * le_val(
                    b.drop_first(),
                ),
        ;
        lemma_le_val_injective(a.drop_first(), b.drop_first());
        assert forall|i: int| 0 <= i < a.len() implies a[i] == b[i] by {
            if i > 0 {
                assert(a[i] == a.drop_first()[i - 1]);
                assert(b[i] == b.drop_first()[i - 1]);
            }
        }
        assert(a =~= b);
    } else {
        assert(a =~= b);
    }
}

/// Zero-extending a byte string does not change its value.
pub proof fn lemma_le_val_zero_extend(a: Seq<u8>, b: Seq<u8>)
    requires
        a.len() <= b.len(),
        forall|i: int| 0 <= i < a.len() ==> b[i] == a[i],
        forall|i: int| a.len() <= i < b.len() ==> b[i] == 0,
    ensures
        le_val(b) == le_val(a),
    decreases a.len(),
{
    if a.len() == 0 {
        lemma_le_val_zero(b);
    } else {
        assert forall|i: int| 0 <= i < a.drop_first().len() implies b.drop_first()[i]
            == a.drop_first()[i] by {
            assert(b.drop_first()[i] == b[i + 1]);
            assert(a.drop_first()[i] == a[i + 1]);
        }
        assert forall|i: int|
            a.drop_first().len() <= i < b.drop_first().len() implies b.drop_first()[i] == 0 by {
            assert(b.drop_first()[i] == b[i + 1]);
        }
        lemma_le_val_zero_extend(a.drop_first(), b.drop_first());
    }
}

/// A scalar is determined by its value.
pub proof fn lemma_scalar_value_determines(a: Scalar, b: Scalar)
    requires
        a.v() == b.v(),
    ensures
        a == b,
{
    lemma_le_val_injective(a.bytes@, b.bytes@);
    vstd::array::axiom_array_ext_equal::<u8, 32>(a.bytes, b.bytes);
    assert(a.bytes =~= b.bytes);
}

/// The zero scalar.
pub fn scalar_zero() -> (r: Scalar)
    ensures
        r.v() == 0,
        r.valid(),
{
    let r = Scalar { bytes: [0u8; 32] };
    proof {
        lemma_le_val_zero(r.bytes@);
    }
    r
}

/// Whether a scalar's bytes are canonical: reduce them wide and compare.
/// The bytes are canonical exactly when the reduction returns them
/// unchanged, since the value determines the canonical encoding.
#[verifier::loop_isolation(false)]
pub fn scalar_check(x: &Scalar) -> (r: bool)
    ensures
        r == x.valid(),
{
    let mut w = [0u8; 64];
    let mut i: usize = 0;
    while i < 32
        invariant
            i <= 32,
            forall|j: int| 0 <= j < i ==> w@[j] == x.bytes@[j],
            forall|j: int| i <= j < 64 ==> w@[j] == 0,
        decreases 32 - i,
    {
        w[i] = x.bytes[i];
        i = i + 1;
    }
    proof {
        lemma_le_val_zero_extend(x.bytes@, w@);
    }
    let reduced = scalar_from_wide(&w);
    let eq = crate::stack::bytes32_eq(&reduced.bytes, &x.bytes);
    proof {
        if !eq && x.valid() {
            vstd::arithmetic::div_mod::lemma_small_mod(x.v(), group_order());
            lemma_le_val_injective(reduced.bytes@, x.bytes@);
        }
    }
    eq
}

/// Relies on sha2::Sha512: the digest is 64 bytes and depends on the input
/// bytes alone.
#[verifier::external_body]
pub(crate) fn sha512(data: &[u8]) -> (r: [u8; 64])
    ensures
        r@ == sha512_of(data@),
{
    let mut h = <sha2::Sha512 as sha2::Digest>::new();
    sha2::Digest::update(&mut h, data);
    let out = sha2::Digest::finalize(h);
    let mut r = [0u8; 64];
    r.copy_from_slice(&out);
    r
}

/// Relies on curve25519_dalek Scalar addition (mod the group order), with
/// Scalar::from_bytes_mod_order and Scalar::to_bytes converting at the
/// boundary; on canonical inputs the conversion in is value-preserving and
/// the bytes out are canonical.
#[verifier::external_body]
pub(crate) fn scalar_add(a: &Scalar, b: &Scalar) -> (r: Scalar)
    requires
        a.valid(),
        b.valid(),
    ensures
        r.v() == (a.v() + b.v()) % group_order(),
        r.valid(),
{
    let x = curve25519_dalek::scalar::Scalar::from_bytes_mod_order(a.bytes);
    let y = curve25519_dalek::scalar::Scalar::from_bytes_mod_order(b.bytes);
    Scalar { bytes: (x + y).to_bytes() }
}

/// Relies on curve25519_dalek Scalar subtraction (mod the group order);
/// on canonical inputs a − b ≡ a + order − b.
#[verifier::external_body]
pub(crate) fn scalar_sub(a: &Scalar, b: &Scalar) -> (r: Scalar)
    requires
        a.valid(),
        b.valid(),
    ensures
        r.v() as int == (a.v() + group_order() - b.v()) % (group_order() as int),
        r.valid(),
{
    let x = curve25519_dalek::scalar::Scalar::from_bytes_mod_order(a.bytes);
    let y = curve25519_dalek::scalar::Scalar::from_bytes_mod_order(b.bytes);
    Scalar { bytes: (x - y).to_bytes() }
}

/// Relies on curve25519_dalek Scalar multiplication (mod the group order).
#[verifier::external_body]
pub(crate) fn scalar_mul(a: &Scalar, b: &Scalar) -> (r: Scalar)
    requires
        a.valid(),
        b.valid(),
    ensures
        r.v() == (a.v() * b.v()) % group_order(),
        r.valid(),
{
    let x = curve25519_dalek::scalar::Scalar::from_bytes_mod_order(a.bytes);
    let y = curve25519_dalek::scalar::Scalar::from_bytes_mod_order(b.bytes);
    Scalar { bytes: (x * y).to_bytes() }
}

/// Relies on curve25519_dalek Scalar negation (mod the group order);
/// on a canonical input −a ≡ order − a.
#[verifier::external_body]
pub(crate) fn scalar_neg(a: &Scalar) -> (r: Scalar)
    requires
        a.valid(),
    ensures
        r.v() as int == (group_order() - a.v()) % (group_order() as int),
        r.valid(),
{
    let x = curve25519_dalek::scalar::Scalar::from_bytes_mod_order(a.bytes);
    Scalar { bytes: (-x).to_bytes() }
}

/// Relies on Scalar::from_bytes_mod_order_wide: reduction of a 512-bit
/// little-endian integer mod the group order, returned in canonical bytes.
#[verifier::external_body]
pub(crate) fn scalar_from_wide(w: &[u8; 64]) -> (r: Scalar)
    ensures
        r.v() == le_val(w@) % group_order(),
        r.valid(),
{
    Scalar { bytes: curve25519_dalek::scalar::Scalar::from_bytes_mod_order_wide(w).to_bytes() }
}

/// Relies on RistrettoPoint::mul_base and compress: the result is the
/// canonical encoding of s·G, and distinct reduced scalars give distinct
/// multiples of G (the group has prime order), so the encoded element's
/// discrete log is s itself.
#[verifier::external_body]
pub(crate) fn base_mul(s: &Scalar) -> (r: [u8; 32])
    requires
        s.valid(),
    ensures
        r@ == enc(s.v()),
        dlog(r@) == s.v(),
{
    let x = curve25519_dalek::scalar::Scalar::from_bytes_mod_order(s.bytes);
    *curve25519_dalek::ristretto::RistrettoPoint::mul_base(&x).compress().as_bytes()
}

/// Relies on RistrettoPoint scalar multiplication and compress: for a point
/// of discrete log d, the result encodes (s·d)·G, and its discrete log is
/// s·d reduced, since encodings are canonical and multiples of G below the
/// order are distinct. Decompression of a canonical encoding (the
/// precondition) cannot fail.
#[verifier::external_body]
pub(crate) fn point_mul(s: &Scalar, p: &[u8; 32]) -> (r: [u8; 32])
    requires
        s.valid(),
        is_point(p@),
    ensures
        r@ == enc((s.v() * dlog(p@)) % group_order()),
        dlog(r@) == (s.v() * dlog(p@)) % group_order(),
{
    let x = curve25519_dalek::scalar::Scalar::from_bytes_mod_order(s.bytes);
    let q = curve25519_dalek::ristretto::CompressedRistretto(*p).decompress().unwrap();
    *(x * q).compress().as_bytes()
}

/// Relies on RistrettoPoint addition and compress: for points of discrete
/// logs d1 and d2, the result encodes (d1+d2)·G, and its discrete log is
/// d1+d2 reduced, as in `point_mul`. Decompression of canonical encodings
/// (the precondition) cannot fail.
#[verifier::external_body]
pub(crate) fn point_add(p: &[u8; 32], q: &[u8; 32]) -> (r: [u8; 32])
    requires
        is_point(p@),
        is_point(q@),
    ensures
        r@ == enc((dlog(p@) + dlog(q@)) % group_order()),
        dlog(r@) == (dlog(p@) + dlog(q@)) % group_order(),
{
    let x = curve25519_dalek::ristretto::CompressedRistretto(*p).decompress().unwrap();
    let y = curve25519_dalek::ristretto::CompressedRistretto(*q).decompress().unwrap();
    *(x + y).compress().as_bytes()
}

/// Relies on CompressedRistretto::decompress, which succeeds exactly on the
/// canonical encoding of a group element.
#[verifier::external_body]
pub(crate) fn point_decode_ok(b: &[u8; 32]) -> (r: bool)
    ensures
        r == is_point(b@),
{
    curve25519_dalek::ristretto::CompressedRistretto(*b).decompress().is_some()
}

/// Relies on rand_core::OsRng::fill_bytes for operating-system randomness;
/// nothing is promised of the bytes that come back.
#[verifier::external_body]
pub(crate) fn os_random_block() -> (r: [u8; 64])
{
    let mut buf = [0u8; 64];
    rand_core::RngCore::fill_bytes(&mut rand_core::OsRng, &mut buf);
    buf
}

} // verus!
