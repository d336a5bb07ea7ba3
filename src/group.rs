//! The Ristretto group and its scalar field, as used by the protocol.
//!
//! A group element is held as its canonical 32-byte compressed encoding and a
//! scalar as its canonical 32-byte little-endian encoding. Mathematically the
//! group is cyclic of prime order `group_order()` and generated by the
//! basepoint, so every element is `k * basepoint` for exactly one `k` below
//! the order: contracts speak of elements through that exponent
//! (`GroupElement::model`), which turns group arithmetic into arithmetic
//! modulo the order.
use vstd::prelude::*;

verus! {

/// The order of the Ristretto group (and of its scalar field).
pub open spec fn group_order() -> int {
    // 2^252 + 27742317777372353535851937790883648493
    9223372036854775808int * 9223372036854775808 * 9223372036854775808 * 9223372036854775808
        + 27742317777372353535851937790883648493int
}

/// The integer that a little-endian byte string denotes.
pub open spec fn le_value(b: Seq<u8>) -> nat
    decreases b.len(),
{
    if b.len() == 0 {
        0
    } else {
        b[0] as nat + 256 * le_value(b.drop_first())
    }
}

/// The compressed encoding of `k * basepoint`.
pub uninterp spec fn base_multiple(k: int) -> Seq<u8>;

/// `b` is the canonical encoding of some group element.
pub open spec fn is_point_encoding(b: Seq<u8>) -> bool {
    exists|k: int| 0 <= k < group_order() && #[trigger] base_multiple(k) == b
}

/// The exponent `k` below the group order with `b == base_multiple(k)`.
pub open spec fn discrete_log(b: Seq<u8>) -> int {
    choose|k: int| 0 <= k < group_order() && #[trigger] base_multiple(k) == b
}

/// An element of the scalar field, as its canonical little-endian encoding.
#[derive(Clone, Copy, Debug, PartialEq, Eq)]
pub struct Scalar {
    pub bytes: [u8; 32],
}

/// A group element, as its canonical compressed encoding.
#[derive(Clone, Copy, Debug, PartialEq, Eq)]
pub struct GroupElement {
    pub bytes: [u8; 32],
}

impl Scalar {
    pub open spec fn wf(&self) -> bool {
        le_value(self.bytes@) < group_order()
    }

    /// The integer below the group order that the scalar stands for.
    pub open spec fn model(&self) -> int {
        le_value(self.bytes@) as int
    }

    /// Decodes a scalar; fails unless the bytes are the canonical encoding of
    /// an integer below the group order.
    pub fn from_canonical_bytes(bytes: [u8; 32]) -> (r: Option<Scalar>)
        ensures
            r.is_some() == (le_value(bytes@) < group_order()),
            r.is_some() ==> r.unwrap().bytes == bytes && r.unwrap().wf(),
    {
        if scalar_is_canonical(&bytes) {
            Some(Scalar { bytes })
        } else {
            None
        }
    }

    pub fn to_bytes(&self) -> (r: [u8; 32])
        ensures
            r == self.bytes,
    {
        self.bytes
    }

    pub fn zero() -> (r: Scalar)
        ensures
            r.wf(),
            r.model() == 0,
    {
        let bytes = [0u8; 32];
        proof {
            lemma_le_value_zeros(bytes@);
        }
        Scalar { bytes }
    }

    pub fn one() -> (r: Scalar)
        ensures
            r.wf(),
            r.model() == 1,
    {
        let mut bytes = [0u8; 32];
        bytes[0] = 1u8;
        proof {
            lemma_le_value_zeros(bytes@.drop_first());
        }
        Scalar { bytes }
    }

    pub fn equals(&self, other: &Scalar) -> (r: bool)
        ensures
            r == (self.bytes@ == other.bytes@),
    {
        bytes_equal(&self.bytes, &other.bytes)
    }
}

impl GroupElement {
    pub open spec fn wf(&self) -> bool {
        is_point_encoding(self.bytes@)
    }

    /// The exponent of this element with respect to the basepoint.
    pub open spec fn model(&self) -> int {
        discrete_log(self.bytes@)
    }

    /// Decodes a group element; fails unless the bytes are a canonical
    /// encoding of one.
    pub fn from_bytes(bytes: [u8; 32]) -> (r: Option<GroupElement>)
        ensures
            r.is_some() == is_point_encoding(bytes@),
            r.is_some() ==> r.unwrap().bytes == bytes && r.unwrap().wf(),
    {
        if point_is_canonical(&bytes) {
            Some(GroupElement { bytes })
        } else {
            None
        }
    }

    pub fn to_bytes(&self) -> (r: [u8; 32])
        ensures
            r == self.bytes,
    {
        self.bytes
    }

    /// The group's identity element.
    pub fn identity() -> (r: GroupElement)
        ensures
            r.wf(),
            r.model() == 0,
    {
        base_mul(&Scalar::zero())
    }

    /// The basepoint that generates the group.
    pub fn generator() -> (r: GroupElement)
        ensures
            r.wf(),
            r.model() == 1,
    {
        base_mul(&Scalar::one())
    }

    /// Equality of group elements; for well-formed elements it is equality
    /// of their exponents.
    pub fn equals(&self, other: &GroupElement) -> (r: bool)
        requires
            self.wf(),
            other.wf(),
        ensures
            r == (self.model() == other.model()),
            r == (self.bytes@ == other.bytes@),
    {
        proof {
            lemma_model_eq(*self, *other);
        }
        bytes_equal(&self.bytes, &other.bytes)
    }
}

/// Two well-formed elements are equal exactly when their exponents are.
pub proof fn lemma_model_eq(a: GroupElement, b: GroupElement)
    requires
        a.wf(),
        b.wf(),
    ensures
        (a.model() == b.model()) == (a.bytes@ == b.bytes@),
        0 <= a.model() < group_order(),
{
    let ka = a.model();
    let kb = b.model();
    assert(base_multiple(ka) == a.bytes@);
    assert(base_multiple(kb) == b.bytes@);
}

/// Reduction modulo the group order leaves the residue unchanged.
pub proof fn lemma_mod_idem(x: int)
    ensures
        (x % group_order()) % group_order() == x % group_order(),
        0 <= x % group_order() < group_order(),
{
    vstd::arithmetic::div_mod::lemma_mod_mod(x, group_order(), 1);
    vstd::arithmetic::div_mod::lemma_mod_bound(x, group_order());
}

/// Integers below the group order are their own residues.
pub proof fn lemma_mod_small(x: int)
    requires
        0 <= x < group_order(),
    ensures
        x % group_order() == x,
{
    vstd::arithmetic::div_mod::lemma_small_mod(x as nat, group_order() as nat);
}

/// Congruence modulo the group order is kept by addition.
pub proof fn lemma_cong_add(a: int, b: int, c: int, d: int)
    requires
        a % group_order() == c % group_order(),
        b % group_order() == d % group_order(),
    ensures
        (a + b) % group_order() == (c + d) % group_order(),
{
    vstd::arithmetic::div_mod::lemma_add_mod_noop(a, b, group_order());
    vstd::arithmetic::div_mod::lemma_add_mod_noop(c, d, group_order());
}

/// Congruence modulo the group order is kept by subtraction.
pub proof fn lemma_cong_sub(a: int, b: int, c: int, d: int)
    requires
        a % group_order() == c % group_order(),
        b % group_order() == d % group_order(),
    ensures
        (a - b) % group_order() == (c - d) % group_order(),
{
    vstd::arithmetic::div_mod::lemma_sub_mod_noop(a, b, group_order());
    vstd::arithmetic::div_mod::lemma_sub_mod_noop(c, d, group_order());
}

/// Congruence modulo the group order is kept by multiplication.
pub proof fn lemma_cong_mul(a: int, b: int, c: int, d: int)
    requires
        a % group_order() == c % group_order(),
        b % group_order() == d % group_order(),
    ensures
        (a * b) % group_order() == (c * d) % group_order(),
{
    vstd::arithmetic::div_mod::lemma_mul_mod_noop(a, b, group_order());
    vstd::arithmetic::div_mod::lemma_mul_mod_noop(c, d, group_order());
}

proof fn lemma_le_value_zeros(b: Seq<u8>)
    requires
        forall|i: int| 0 <= i < b.len() ==> b[i] == 0,
    ensures
        le_value(b) == 0,
    decreases b.len(),
{
    if b.len() > 0 {
        lemma_le_value_zeros(b.drop_first());
    }
}

pub(crate) fn bytes_equal(a: &[u8; 32], b: &[u8; 32]) -> (r: bool)
    ensures
        r == (a@ == b@),
{
    let mut i: usize = 0;
    while i < 32
        invariant
            0 <= i <= 32,
            forall|j: int| 0 <= j < i ==> a@[j] == b@[j],
        decreases 32 - i,
    {
        if a[i] != b[i] {
            return false;
        }
        i = i + 1;
    }
    assert(a@ =~= b@);
    true
}

/// Relies on curve25519_dalek's `Scalar::from_canonical_bytes`: it accepts
/// exactly the little-endian encodings of integers below the group order.
#[verifier::external_body]
fn scalar_is_canonical(bytes: &[u8; 32]) -> (r: bool)
    ensures
        r == (le_value(bytes@) < group_order()),
{
    curve25519_dalek::scalar::Scalar::from_canonical_bytes(*bytes).is_some()
}

/// Relies on curve25519_dalek's `CompressedRistretto::decompress`: it
/// succeeds exactly on canonical encodings of group elements, each of which
/// is a multiple of the basepoint.
#[verifier::external_body]
fn point_is_canonical(bytes: &[u8; 32]) -> (r: bool)
    ensures
        r == is_point_encoding(bytes@),
{
    curve25519_dalek::ristretto::CompressedRistretto(*bytes).decompress().is_some()
}

/// Relies on curve25519_dalek's `&Scalar * &RISTRETTO_BASEPOINT_TABLE` and
/// `RistrettoPoint::compress`: the canonical encoding of `s * basepoint`.
/// The basepoint has prime order, so distinct exponents below the order give
/// distinct points, and the exponent of the result is `s` itself.
#[verifier::external_body]
pub(crate) fn base_mul(s: &Scalar) -> (r: GroupElement)
    requires
        s.wf(),
    ensures
        r.bytes@ == base_multiple(s.model()),
        r.wf(),
        r.model() == s.model(),
{
    let k = curve25519_dalek::scalar::Scalar::from_bits(s.bytes);
    let p = &k * &curve25519_dalek::constants::RISTRETTO_BASEPOINT_TABLE;
    GroupElement { bytes: p.compress().to_bytes() }
}

/// Relies on curve25519_dalek's `CompressedRistretto::decompress`,
/// `RistrettoPoint + RistrettoPoint` and `RistrettoPoint::compress`: the
/// group sum, whose exponent is the sum of the exponents.
#[verifier::external_body]
pub(crate) fn point_add(a: &GroupElement, b: &GroupElement) -> (r: GroupElement)
    requires
        a.wf(),
        b.wf(),
    ensures
        r.wf(),
        r.model() == (a.model() + b.model()) % group_order(),
{
    let p = curve25519_dalek::ristretto::CompressedRistretto(a.bytes).decompress().unwrap();
    let q = curve25519_dalek::ristretto::CompressedRistretto(b.bytes).decompress().unwrap();
    GroupElement { bytes: (p + q).compress().to_bytes() }
}

/// Relies on curve25519_dalek's `CompressedRistretto::decompress`,
/// `RistrettoPoint - RistrettoPoint` and `RistrettoPoint::compress`: the
/// group difference, whose exponent is the difference of the exponents.
#[verifier::external_body]
pub(crate) fn point_sub(a: &GroupElement, b: &GroupElement) -> (r: GroupElement)
    requires
        a.wf(),
        b.wf(),
    ensures
        r.wf(),
        r.model() == (a.model() - b.model()) % group_order(),
{
    let p = curve25519_dalek::ristretto::CompressedRistretto(a.bytes).decompress().unwrap();
    let q = curve25519_dalek::ristretto::CompressedRistretto(b.bytes).decompress().unwrap();
    GroupElement { bytes: (p - q).compress().to_bytes() }
}

/// Relies on curve25519_dalek's `CompressedRistretto::decompress`,
/// `&RistrettoPoint * &Scalar` and `RistrettoPoint::compress`: scalar
/// multiplication, which multiplies the exponent by the scalar.
#[verifier::external_body]
pub(crate) fn point_mul(p: &GroupElement, s: &Scalar) -> (r: GroupElement)
    requires
        p.wf(),
        s.wf(),
    ensures
        r.wf(),
        r.model() == (p.model() * s.model()) % group_order(),
{
    let q = curve25519_dalek::ristretto::CompressedRistretto(p.bytes).decompress().unwrap();
    let k = curve25519_dalek::scalar::Scalar::from_bits(s.bytes);
    GroupElement { bytes: (&q * &k).compress().to_bytes() }
}

} // verus!
