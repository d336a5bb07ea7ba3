//! Additively homomorphic ElGamal encryption over the Ristretto group.
//!
//! A ciphertext of the message `m` (a group element) under the public key
//! `pk` with randomness `r` is `(r * G, m + r * pk)`. In exponents (see
//! `GroupElement::model`) every operation here is arithmetic modulo the
//! group order, which the `*_model` spec functions state.
use vstd::prelude::*;
use crate::group::{
    base_mul, group_order, lemma_cong_add, lemma_cong_mul, lemma_cong_sub, lemma_mod_idem,
    lemma_mod_small, point_add, point_mul, point_sub, GroupElement, Scalar,
};

verus! {

/// The exponents of a ciphertext `(c1, c2)`.
pub type CiphertextModel = (int, int);

/// `(r * G, m + r * pk)` in exponents.
pub open spec fn encrypt_model(pk: int, m: int, r: int) -> CiphertextModel {
    (r % group_order(), (m + r * pk) % group_order())
}

/// Componentwise group sum in exponents.
pub open spec fn combine_model(a: CiphertextModel, b: CiphertextModel) -> CiphertextModel {
    ((a.0 + b.0) % group_order(), (a.1 + b.1) % group_order())
}

/// Componentwise scalar multiple in exponents.
pub open spec fn scale_model(a: CiphertextModel, s: int) -> CiphertextModel {
    ((a.0 * s) % group_order(), (a.1 * s) % group_order())
}

/// `c2 - sk * c1` in exponents.
pub open spec fn decrypt_model(c: CiphertextModel, sk: int) -> int {
    (c.1 - sk * c.0) % group_order()
}

/// An ElGamal ciphertext: a pair of group elements.
#[derive(Clone, Copy, Debug, PartialEq, Eq)]
pub struct Ciphertext {
    pub c1: GroupElement,
    pub c2: GroupElement,
}

impl Ciphertext {
    pub open spec fn wf(&self) -> bool {
        self.c1.wf() && self.c2.wf()
    }

    pub open spec fn model(&self) -> CiphertextModel {
        (self.c1.model(), self.c2.model())
    }

    /// Equality of well-formed ciphertexts, component by component.
    pub fn equals(&self, other: &Ciphertext) -> (r: bool)
        requires
            self.wf(),
            other.wf(),
        ensures
            r == (self.model() == other.model()),
            r == (self == other),
    {
        let a = self.c1.equals(&other.c1);
        let b = self.c2.equals(&other.c2);
        proof {
            if a && b {
                assert(self.c1.bytes =~= other.c1.bytes);
                assert(self.c2.bytes =~= other.c2.bytes);
            }
        }
        a && b
    }
}

/// A secret scalar and the public key `secret * G` that belongs to it.
#[derive(Clone, Copy, Debug)]
pub struct KeyPair {
    pub secret: Scalar,
    pub public: GroupElement,
}

impl KeyPair {
    pub open spec fn wf(&self) -> bool {
        self.secret.wf() && self.public.wf() && self.public.model() == self.secret.model()
    }

    /// The key pair of a secret scalar.
    pub fn from_secret(secret: Scalar) -> (r: KeyPair)
        requires
            secret.wf(),
        ensures
            r.wf(),
            r.secret == secret,
    {
        KeyPair { secret, public: base_mul(&secret) }
    }
}

/// Encrypts the message `m` under `pk` with the randomness `r`.
pub fn encrypt(pk: &GroupElement, m: &GroupElement, r: &Scalar) -> (c: Ciphertext)
    requires
        pk.wf(),
        m.wf(),
        r.wf(),
    ensures
        c.wf(),
        c.model() == encrypt_model(pk.model(), m.model(), r.model()),
{
    let c1 = base_mul(r);
    let blind = point_mul(pk, r);
    let c2 = point_add(m, &blind);
    proof {
        lemma_mod_small(r.model());
        lemma_mod_idem(m.model());
        lemma_mod_idem(pk.model() * r.model());
        assert(pk.model() * r.model() == r.model() * pk.model()) by (nonlinear_arith);
        lemma_cong_add(m.model(), blind.model(), m.model(), r.model() * pk.model());
    }
    Ciphertext { c1, c2 }
}

/// Multiplies both components by `s`: an encryption of `s * m`.
pub fn scale(c: &Ciphertext, s: &Scalar) -> (r: Ciphertext)
    requires
        c.wf(),
        s.wf(),
    ensures
        r.wf(),
        r.model() == scale_model(c.model(), s.model()),
{
    Ciphertext { c1: point_mul(&c.c1, s), c2: point_mul(&c.c2, s) }
}

/// Adds two ciphertexts component by component: an encryption of the sum.
pub fn combine(a: &Ciphertext, b: &Ciphertext) -> (r: Ciphertext)
    requires
        a.wf(),
        b.wf(),
    ensures
        r.wf(),
        r.model() == combine_model(a.model(), b.model()),
{
    Ciphertext { c1: point_add(&a.c1, &b.c1), c2: point_add(&a.c2, &b.c2) }
}

/// `(identity, identity)`: the encryption of the identity with randomness 0.
pub fn identity_ciphertext() -> (r: Ciphertext)
    ensures
        r.wf(),
        r.model() == (0int, 0int),
{
    Ciphertext { c1: GroupElement::identity(), c2: GroupElement::identity() }
}

/// Decrypts with the secret key: `c2 - sk * c1`.
pub fn decrypt(c: &Ciphertext, sk: &Scalar) -> (m: GroupElement)
    requires
        c.wf(),
        sk.wf(),
    ensures
        m.wf(),
        m.model() == decrypt_model(c.model(), sk.model()),
{
    let mask = point_mul(&c.c1, sk);
    proof {
        lemma_mod_idem(c.c1.model() * sk.model());
        lemma_mod_idem(c.model().1);
        assert(c.c1.model() * sk.model() == sk.model() * c.c1.model()) by (nonlinear_arith);
        lemma_cong_sub(c.c2.model(), mask.model(), c.c2.model(), sk.model() * c.c1.model());
    }
    point_sub(&c.c2, &mask)
}

/// Decrypting with the matching secret key gives back the message.
pub proof fn lemma_decrypt_encrypt(sk: int, m: int, r: int)
    requires
        0 <= sk < group_order(),
        0 <= m < group_order(),
        0 <= r < group_order(),
    ensures
        decrypt_model(encrypt_model(sk, m, r), sk) == m,
{
    let c = encrypt_model(sk, m, r);
    lemma_mod_idem(r);
    lemma_mod_idem(m + r * sk);
    lemma_cong_mul(sk, c.0, sk, r);
    lemma_cong_sub(c.1, sk * c.0, m + r * sk, sk * r);
    assert(m + r * sk - sk * r == m) by (nonlinear_arith);
    lemma_mod_small(m);
}

/// Homomorphism: the sum of two encryptions under one key decrypts to the
/// sum of the two messages.
pub proof fn lemma_homomorphism(sk: int, m1: int, m2: int, r1: int, r2: int)
    requires
        0 <= sk < group_order(),
        0 <= m1 < group_order(),
        0 <= m2 < group_order(),
        0 <= r1 < group_order(),
        0 <= r2 < group_order(),
    ensures
        decrypt_model(combine_model(encrypt_model(sk, m1, r1), encrypt_model(sk, m2, r2)), sk)
            == (m1 + m2) % group_order(),
{
    let a = encrypt_model(sk, m1, r1);
    let b = encrypt_model(sk, m2, r2);
    let c = combine_model(a, b);
    lemma_mod_idem(r1);
    lemma_mod_idem(r2);
    lemma_mod_idem(m1 + r1 * sk);
    lemma_mod_idem(m2 + r2 * sk);
    lemma_mod_idem(a.0 + b.0);
    lemma_mod_idem(a.1 + b.1);
    lemma_cong_add(a.0, b.0, r1, r2);
    lemma_cong_add(a.1, b.1, m1 + r1 * sk, m2 + r2 * sk);
    lemma_cong_mul(sk, c.0, sk, r1 + r2);
    lemma_cong_sub(c.1, sk * c.0, m1 + r1 * sk + (m2 + r2 * sk), sk * (r1 + r2));
    assert(m1 + r1 * sk + (m2 + r2 * sk) - sk * (r1 + r2) == m1 + m2) by (nonlinear_arith);
}

/// Scaling: an encryption multiplied by `s` decrypts to `s` times the
/// message.
pub proof fn lemma_scaling(sk: int, m: int, r: int, s: int)
    requires
        0 <= sk < group_order(),
        0 <= m < group_order(),
        0 <= r < group_order(),
        0 <= s < group_order(),
    ensures
        decrypt_model(scale_model(encrypt_model(sk, m, r), s), sk) == (s * m) % group_order(),
{
    let a = encrypt_model(sk, m, r);
    let c = scale_model(a, s);
    lemma_mod_idem(r);
    lemma_mod_idem(m + r * sk);
    lemma_mod_idem(a.0 * s);
    lemma_mod_idem(a.1 * s);
    lemma_cong_mul(a.0, s, r, s);
    lemma_cong_mul(a.1, s, m + r * sk, s);
    lemma_cong_mul(sk, c.0, sk, r * s);
    lemma_cong_sub(c.1, sk * c.0, (m + r * sk) * s, sk * (r * s));
    assert((m + r * sk) * s - sk * (r * s) == s * m) by (nonlinear_arith);
}

} // verus!
