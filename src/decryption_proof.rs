//! Verification of a non-interactive Chaum-Pedersen proof that a claimed
//! plaintext is the correct decryption of a ciphertext.
//!
//! The prover picks `w`, sends `A_g = w * G`, `A_ctx = w * c1` and
//! `s = w + e * sk`, where the challenge `e` is SHA-512 of the transcript
//! `G || pk || c1 || c2 || m || A_g || A_ctx` (compressed encodings) reduced
//! into the scalar field. The verifier recomputes `e` and checks
//! `s * G == A_g + e * pk` and `s * c1 == A_ctx + e * (c2 - m)`.
use vstd::prelude::*;
use crate::codec::push_bytes;
use crate::elgamal::{decrypt_model, Ciphertext, CiphertextModel};
use crate::group::{
    base_mul, group_order, lemma_cong_add, lemma_cong_mul, lemma_cong_sub, lemma_mod_idem,
    lemma_mod_small, point_add, point_mul, point_sub, GroupElement, Scalar,
};

verus! {

/// The scalar that SHA-512 of `input`, reduced modulo the group order,
/// stands for.
pub uninterp spec fn sha512_scalar(input: Seq<u8>) -> int;

/// The bytes that the challenge is derived from.
pub open spec fn transcript(
    generator: Seq<u8>,
    pk: Seq<u8>,
    c: Ciphertext,
    plaintext: Seq<u8>,
    announcement_g: Seq<u8>,
    announcement_ctx: Seq<u8>,
) -> Seq<u8> {
    generator + pk + c.c1.bytes@ + c.c2.bytes@ + plaintext + announcement_g + announcement_ctx
}

/// The two verification equations, in exponents, for the challenge `e`.
pub open spec fn proof_equations(
    pk: int,
    c: CiphertextModel,
    plaintext: int,
    announcement_g: int,
    announcement_ctx: int,
    response: int,
    e: int,
) -> bool {
    &&& response % group_order() == (announcement_g + e * pk) % group_order()
    &&& (response * c.0) % group_order() == (announcement_ctx + e * (c.1 - plaintext))
        % group_order()
}

/// The challenge that the transcript of these values gives.
pub open spec fn challenge_of(
    pk: GroupElement,
    c: Ciphertext,
    plaintext: GroupElement,
    announcement_g: GroupElement,
    announcement_ctx: GroupElement,
) -> int {
    sha512_scalar(
        transcript(
            crate::group::base_multiple(1),
            pk.bytes@,
            c,
            plaintext.bytes@,
            announcement_g.bytes@,
            announcement_ctx.bytes@,
        ),
    )
}

/// Whether the proof `(announcement_g, announcement_ctx, response)` shows
/// that `plaintext` is the decryption of `c` under the key of `pk`.
pub open spec fn proof_accepted(
    pk: GroupElement,
    c: Ciphertext,
    plaintext: GroupElement,
    announcement_g: GroupElement,
    announcement_ctx: GroupElement,
    response: Scalar,
) -> bool {
    proof_equations(
        pk.model(),
        c.model(),
        plaintext.model(),
        announcement_g.model(),
        announcement_ctx.model(),
        response.model(),
        challenge_of(pk, c, plaintext, announcement_g, announcement_ctx),
    )
}

/// Relies on curve25519_dalek's `Scalar::hash_from_bytes::<sha2::Sha512>`:
/// a scalar below the group order that depends on the input bytes alone.
#[verifier::external_body]
fn hash_to_scalar(input: &Vec<u8>) -> (r: Scalar)
    ensures
        r.wf(),
        r.model() == sha512_scalar(input@),
{
    let h = curve25519_dalek::scalar::Scalar::hash_from_bytes::<sha2::Sha512>(input.as_slice());
    Scalar { bytes: h.to_bytes() }
}

/// The Fiat-Shamir challenge of a decryption proof.
pub fn decryption_challenge(
    pk: &GroupElement,
    c: &Ciphertext,
    plaintext: &GroupElement,
    announcement_g: &GroupElement,
    announcement_ctx: &GroupElement,
) -> (e: Scalar)
    ensures
        e.wf(),
        e.model() == challenge_of(*pk, *c, *plaintext, *announcement_g, *announcement_ctx),
{
    let generator = GroupElement::generator();
    let mut input: Vec<u8> = Vec::new();
    push_bytes(&mut input, &generator.bytes);
    push_bytes(&mut input, &pk.bytes);
    push_bytes(&mut input, &c.c1.bytes);
    push_bytes(&mut input, &c.c2.bytes);
    push_bytes(&mut input, &plaintext.bytes);
    push_bytes(&mut input, &announcement_g.bytes);
    push_bytes(&mut input, &announcement_ctx.bytes);
    proof {
        assert(generator.bytes@ == crate::group::base_multiple(1)) by {
            crate::group::lemma_model_eq(generator, generator);
        }
    }
    hash_to_scalar(&input)
}

/// Checks the two verification equations for a given challenge `e`.
pub fn check_proof_equations(
    pk: &GroupElement,
    c: &Ciphertext,
    plaintext: &GroupElement,
    announcement_g: &GroupElement,
    announcement_ctx: &GroupElement,
    response: &Scalar,
    e: &Scalar,
) -> (r: bool)
    requires
        pk.wf(),
        c.wf(),
        plaintext.wf(),
        announcement_g.wf(),
        announcement_ctx.wf(),
        response.wf(),
        e.wf(),
    ensures
        r == proof_equations(
            pk.model(),
            c.model(),
            plaintext.model(),
            announcement_g.model(),
            announcement_ctx.model(),
            response.model(),
            e.model(),
        ),
{
    let lhs_g = base_mul(response);
    let rhs_g = point_add(announcement_g, &point_mul(pk, e));
    let diff = point_sub(&c.c2, plaintext);
    let lhs_ctx = point_mul(&c.c1, response);
    let rhs_ctx = point_add(announcement_ctx, &point_mul(&diff, e));
    proof {
        let (k, pkm, ag, actx) = (e.model(), pk.model(), announcement_g.model(), announcement_ctx.model());
        let s = response.model();
        lemma_mod_small(s);
        lemma_mod_idem(pkm * k);
        lemma_mod_idem(ag);
        assert(pkm * k == k * pkm) by (nonlinear_arith);
        lemma_cong_add(ag, (pkm * k) % group_order(), ag, k * pkm);
        let d = c.model().1 - plaintext.model();
        lemma_mod_idem(d);
        lemma_mod_idem(diff.model() * k);
        lemma_mod_idem(actx);
        lemma_cong_mul(diff.model(), k, d, k);
        assert(d * k == k * d) by (nonlinear_arith);
        lemma_cong_add(actx, (diff.model() * k) % group_order(), actx, k * d);
        assert(c.c1.model() * s == s * c.c1.model()) by (nonlinear_arith);
    }
    let first = lhs_g.equals(&rhs_g);
    let second = lhs_ctx.equals(&rhs_ctx);
    first && second
}

/// Verifies a proof of correct decryption of `c` to `plaintext` under `pk`.
pub fn verify_decryption_proof(
    pk: &GroupElement,
    c: &Ciphertext,
    plaintext: &GroupElement,
    announcement_g: &GroupElement,
    announcement_ctx: &GroupElement,
    response: &Scalar,
) -> (r: bool)
    requires
        pk.wf(),
        c.wf(),
        plaintext.wf(),
        announcement_g.wf(),
        announcement_ctx.wf(),
        response.wf(),
    ensures
        r == proof_accepted(*pk, *c, *plaintext, *announcement_g, *announcement_ctx, *response),
{
    let e = decryption_challenge(pk, c, plaintext, announcement_g, announcement_ctx);
    check_proof_equations(pk, c, plaintext, announcement_g, announcement_ctx, response, &e)
}

/// Completeness: a proof built honestly, from the secret key and any nonce
/// `w`, for the true decryption satisfies both equations, whatever the
/// challenge.
pub proof fn lemma_honest_proof_holds(sk: int, c: CiphertextModel, w: int, e: int)
    requires
        0 <= sk < group_order(),
        0 <= c.0 < group_order(),
        0 <= c.1 < group_order(),
        0 <= w < group_order(),
        0 <= e < group_order(),
    ensures
        proof_equations(
            sk,
            c,
            decrypt_model(c, sk),
            w,
            (w * c.0) % group_order(),
            (w + e * sk) % group_order(),
            e,
        ),
{
    let m = decrypt_model(c, sk);
    let s = (w + e * sk) % group_order();
    let actx = (w * c.0) % group_order();
    lemma_mod_idem(w + e * sk);
    lemma_mod_idem(w * c.0);
    lemma_mod_idem(c.1 - sk * c.0);
    lemma_mod_small(c.0);
    lemma_mod_small(e);
    lemma_cong_mul(s, c.0, w + e * sk, c.0);
    // c2 - m is congruent to sk * c1.
    lemma_cong_sub(c.1, m, c.1, c.1 - sk * c.0);
    lemma_cong_mul(e, c.1 - m, e, c.1 - (c.1 - sk * c.0));
    lemma_cong_add(actx, e * (c.1 - m), w * c.0, e * (c.1 - (c.1 - sk * c.0)));
    assert((w + e * sk) * c.0 == w * c.0 + e * (c.1 - (c.1 - sk * c.0))) by (nonlinear_arith);
}

/// Completeness for group elements: announcements `w * G` and `w * c1` with
/// the response `w + e * sk`, where `e` is the challenge of that transcript,
/// are accepted for the true decryption of `c` under the key pair of `sk`.
pub proof fn lemma_honest_proof_accepted(
    sk: Scalar,
    pk: GroupElement,
    c: Ciphertext,
    plaintext: GroupElement,
    w: Scalar,
    announcement_g: GroupElement,
    announcement_ctx: GroupElement,
    response: Scalar,
)
    requires
        sk.wf(),
        w.wf(),
        pk.wf(),
        c.wf(),
        plaintext.wf(),
        announcement_g.wf(),
        announcement_ctx.wf(),
        response.wf(),
        pk.model() == sk.model(),
        plaintext.model() == decrypt_model(c.model(), sk.model()),
        announcement_g.model() == w.model(),
        announcement_ctx.model() == (w.model() * c.c1.model()) % group_order(),
        response.model() == (w.model() + challenge_of(pk, c, plaintext, announcement_g, announcement_ctx)
            * sk.model()) % group_order(),
    ensures
        proof_accepted(pk, c, plaintext, announcement_g, announcement_ctx, response),
{
    let e = challenge_of(pk, c, plaintext, announcement_g, announcement_ctx);
    crate::group::lemma_model_eq(c.c1, c.c1);
    crate::group::lemma_model_eq(c.c2, c.c2);
    lemma_mod_idem(e);
    lemma_honest_proof_holds(sk.model(), c.model(), w.model(), e % group_order());
    lemma_cong_mul(e % group_order(), sk.model(), e, sk.model());
    lemma_cong_add(w.model(), (e % group_order()) * sk.model(), w.model(), e * sk.model());
    lemma_cong_mul(e % group_order(), pk.model(), e, pk.model());
    lemma_cong_add(w.model(), (e % group_order()) * pk.model(), w.model(), e * pk.model());
    let d = c.model().1 - plaintext.model();
    lemma_cong_mul(e % group_order(), d, e, d);
    lemma_cong_add(announcement_ctx.model(), (e % group_order()) * d, announcement_ctx.model(), e * d);
    assert(w.model() * c.c1.model() == w.model() * c.model().0);
}

/// A proof built honestly (from the secret key, a nonce `w` and the
/// challenge `e`) for a plaintext `p` satisfies the equations exactly when
/// `e * (d - p)` is a multiple of the group order, `d` being the true
/// decryption. The order is prime, so for a nonzero challenge this means
/// `p == d`.
pub proof fn lemma_honest_proof_for_plaintext(
    sk: int,
    c: CiphertextModel,
    p: int,
    w: int,
    e: int,
)
    requires
        0 <= sk < group_order(),
        0 <= c.0 < group_order(),
        0 <= c.1 < group_order(),
        0 <= p < group_order(),
        0 <= w < group_order(),
        0 <= e < group_order(),
    ensures
        proof_equations(sk, c, p, w, (w * c.0) % group_order(), (w + e * sk) % group_order(), e)
            == ((e * (decrypt_model(c, sk) - p)) % group_order() == 0),
{
    let l = group_order();
    let s = (w + e * sk) % l;
    let actx = (w * c.0) % l;
    let a = (w + e * sk) * c.0;
    let b = w * c.0 + e * (c.1 - p);
    let d = decrypt_model(c, sk);
    lemma_mod_idem(w + e * sk);
    lemma_mod_idem(w * c.0);
    lemma_mod_idem(c.1 - sk * c.0);
    lemma_mod_small(c.0);
    lemma_mod_small(e);
    lemma_cong_mul(s, c.0, w + e * sk, c.0);
    lemma_cong_add(actx, e * (c.1 - p), w * c.0, e * (c.1 - p));
    assert(b - a == e * ((c.1 - sk * c.0) - p)) by (nonlinear_arith)
        requires
            a == (w + e * sk) * c.0,
            b == w * c.0 + e * (c.1 - p),
    ;
    lemma_cong_sub(d, p, c.1 - sk * c.0, p);
    lemma_cong_mul(e, d - p, e, (c.1 - sk * c.0) - p);
    lemma_mod_small(0);
    if a % l == b % l {
        lemma_cong_sub(b, a, a, a);
    }
    if (b - a) % l == 0 {
        lemma_cong_add(b - a, a, 0, a);
    }
}

/// A proof accepted for some response is rejected for every other response
/// below the group order: the challenge does not depend on the response.
pub proof fn lemma_tampered_response_rejected(
    pk: GroupElement,
    c: Ciphertext,
    plaintext: GroupElement,
    announcement_g: GroupElement,
    announcement_ctx: GroupElement,
    response: Scalar,
    tampered: Scalar,
)
    requires
        response.wf(),
        tampered.wf(),
        response.model() != tampered.model(),
        proof_accepted(pk, c, plaintext, announcement_g, announcement_ctx, response),
    ensures
        !proof_accepted(pk, c, plaintext, announcement_g, announcement_ctx, tampered),
{
    lemma_mod_small(response.model());
    lemma_mod_small(tampered.model());
}

} // verus!
