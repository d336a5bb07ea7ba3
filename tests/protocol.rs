use curve25519_dalek::constants::{RISTRETTO_BASEPOINT_COMPRESSED, RISTRETTO_BASEPOINT_POINT};
use curve25519_dalek::ristretto::RistrettoPoint;
use curve25519_dalek::scalar::Scalar as DalekScalar;
use themis_core::decryption_proof::{
    check_proof_equations, decryption_challenge, verify_decryption_proof,
};
use themis_core::elgamal::{
    combine, decrypt, encrypt, identity_ciphertext, scale, Ciphertext, KeyPair,
};
use themis_core::group::{GroupElement, Scalar};
use themis_core::state::{Interaction, Policies, ThemisError, User};

fn dalek(n: u64) -> DalekScalar {
    DalekScalar::from(n)
}

fn sc(s: DalekScalar) -> Scalar {
    Scalar::from_canonical_bytes(s.to_bytes()).unwrap()
}

fn pt(p: RistrettoPoint) -> GroupElement {
    GroupElement::from_bytes(p.compress().to_bytes()).unwrap()
}

fn to_point(g: &GroupElement) -> RistrettoPoint {
    curve25519_dalek::ristretto::CompressedRistretto(g.to_bytes()).decompress().unwrap()
}

fn keys() -> (DalekScalar, KeyPair) {
    let sk = dalek(123456789);
    (sk, KeyPair::from_secret(sc(sk)))
}

fn honest_proof(
    sk: DalekScalar,
    pk: &GroupElement,
    c: &Ciphertext,
    plaintext: &GroupElement,
    w: DalekScalar,
) -> (GroupElement, GroupElement, Scalar) {
    let ag = pt(w * RISTRETTO_BASEPOINT_POINT);
    let actx = pt(w * to_point(&c.c1));
    let e = decryption_challenge(pk, c, plaintext, &ag, &actx);
    let e = DalekScalar::from_canonical_bytes(e.to_bytes()).unwrap();
    (ag, actx, sc(w + e * sk))
}

fn policies(weights: &[u64]) -> Policies {
    let mut p = Policies::new();
    p.initialize(weights.iter().map(|w| sc(dalek(*w))).collect()).unwrap();
    p
}

fn fresh_user() -> User {
    let mut u = User::new();
    u.initialize().unwrap();
    u
}

#[test]
fn generator_matches_basepoint() {
    assert_eq!(GroupElement::generator().to_bytes(), RISTRETTO_BASEPOINT_COMPRESSED.to_bytes());
    assert_eq!(GroupElement::identity().to_bytes(), [0u8; 32]);
}

#[test]
fn decoding_rejects_non_canonical_values() {
    let order_bytes = DalekScalar::zero() - dalek(1);
    let mut too_big = order_bytes.to_bytes();
    too_big[0] = too_big[0].wrapping_add(1);
    assert!(Scalar::from_canonical_bytes(too_big).is_none());
    assert!(Scalar::from_canonical_bytes(order_bytes.to_bytes()).is_some());
    assert!(GroupElement::from_bytes([0xffu8; 32]).is_none());
    assert!(GroupElement::from_bytes(RISTRETTO_BASEPOINT_COMPRESSED.to_bytes()).is_some());
}

#[test]
fn encrypt_matches_formula() {
    let (_, kp) = keys();
    let m = pt(dalek(42) * RISTRETTO_BASEPOINT_POINT);
    let r = dalek(777);
    let c = encrypt(&kp.public, &m, &sc(r));
    assert_eq!(c.c1, pt(r * RISTRETTO_BASEPOINT_POINT));
    assert_eq!(c.c2, pt(to_point(&m) + r * to_point(&kp.public)));
}

#[test]
fn decrypt_inverts_encrypt_and_agrees_with_elgamal_ristretto() {
    let (sk, kp) = keys();
    let m = pt(dalek(9) * RISTRETTO_BASEPOINT_POINT);
    let c = encrypt(&kp.public, &m, &sc(dalek(31337)));
    assert_eq!(decrypt(&c, &kp.secret), m);
    let their_sk = elgamal_ristretto::private::SecretKey::from(sk);
    let their_c = elgamal_ristretto::ciphertext::Ciphertext {
        pk: elgamal_ristretto::public::PublicKey::from(&their_sk),
        points: (to_point(&c.c1), to_point(&c.c2)),
    };
    assert_eq!(pt(their_sk.decrypt(&their_c)), m);
}

#[test]
fn homomorphic_combination_decrypts_to_sum() {
    let (_, kp) = keys();
    let m1 = dalek(11) * RISTRETTO_BASEPOINT_POINT;
    let m2 = dalek(29) * RISTRETTO_BASEPOINT_POINT;
    let a = encrypt(&kp.public, &pt(m1), &sc(dalek(5)));
    let b = encrypt(&kp.public, &pt(m2), &sc(dalek(8)));
    let sum = combine(&a, &b);
    assert_eq!(decrypt(&sum, &kp.secret), pt(m1 + m2));
    assert_eq!(sum.c1, pt(dalek(13) * RISTRETTO_BASEPOINT_POINT));
}

#[test]
fn scaled_ciphertext_decrypts_to_multiple() {
    let (_, kp) = keys();
    let m = dalek(7) * RISTRETTO_BASEPOINT_POINT;
    let c = encrypt(&kp.public, &pt(m), &sc(dalek(99)));
    let scaled = scale(&c, &sc(dalek(6)));
    assert_eq!(decrypt(&scaled, &kp.secret), pt(dalek(42) * RISTRETTO_BASEPOINT_POINT));
}

#[test]
fn identity_ciphertext_decrypts_to_identity() {
    let (_, kp) = keys();
    let c = identity_ciphertext();
    assert_eq!(decrypt(&c, &kp.secret), GroupElement::identity());
}

#[test]
fn weighted_aggregate_of_two_interactions() {
    let (sk, kp) = keys();
    let x = dalek(4) * RISTRETTO_BASEPOINT_POINT;
    let y = dalek(10) * RISTRETTO_BASEPOINT_POINT;
    let p = policies(&[3, 5]);
    let mut user = fresh_user();
    let interactions = vec![
        Interaction { policy_index: 0, ciphertext: encrypt(&kp.public, &pt(x), &sc(dalek(17))) },
        Interaction { policy_index: 1, ciphertext: encrypt(&kp.public, &pt(y), &sc(dalek(23))) },
    ];
    user.calculate_aggregate(&interactions, &kp.public, &p).unwrap();
    let expected = dalek(3) * x + dalek(5) * y;
    assert_eq!(decrypt(&user.encrypted_aggregate, &kp.secret), pt(expected));

    let c = user.encrypted_aggregate;
    let (ag, actx, s) = honest_proof(sk, &kp.public, &c, &pt(expected), dalek(555));
    let mut good = user;
    assert_eq!(good.submit_proof_decryption(&pt(expected), &ag, &actx, &s), Ok(()));
    assert!(good.proof_verified);
    assert_eq!(good.decrypted_aggregate, Some(pt(expected)));

    let off = pt(expected + RISTRETTO_BASEPOINT_POINT);
    let (ag2, actx2, s2) = honest_proof(sk, &kp.public, &c, &off, dalek(555));
    let mut bad = user;
    assert_eq!(
        bad.submit_proof_decryption(&off, &ag2, &actx2, &s2),
        Err(ThemisError::InvalidProof)
    );
    assert_eq!(bad, user);
}

fn aggregate_in_batches(batches: &[Vec<Interaction>], pk: &GroupElement) -> Ciphertext {
    let p = policies(&[2, 7, 9]);
    let mut user = fresh_user();
    for b in batches {
        user.calculate_aggregate(b, pk, &p).unwrap();
    }
    user.encrypted_aggregate
}

#[test]
fn aggregation_is_order_and_batch_independent() {
    let (_, kp) = keys();
    let mk = |i: u8, m: u64, r: u64| Interaction {
        policy_index: i,
        ciphertext: encrypt(&kp.public, &pt(dalek(m) * RISTRETTO_BASEPOINT_POINT), &sc(dalek(r))),
    };
    let (a, b, c) = (mk(0, 1, 100), mk(1, 2, 200), mk(2, 3, 300));
    let all = aggregate_in_batches(&[vec![a, b, c]], &kp.public);
    assert_eq!(all, aggregate_in_batches(&[vec![c, a, b]], &kp.public));
    assert_eq!(all, aggregate_in_batches(&[vec![b, c, a]], &kp.public));
    assert_eq!(all, aggregate_in_batches(&[vec![a], vec![b, c]], &kp.public));
    assert_eq!(all, aggregate_in_batches(&[vec![a, b], vec![c]], &kp.public));
    assert_eq!(all, aggregate_in_batches(&[vec![c], vec![], vec![b], vec![a]], &kp.public));
    assert_eq!(
        decrypt(&all, &kp.secret),
        pt(dalek(2 * 1 + 7 * 2 + 9 * 3) * RISTRETTO_BASEPOINT_POINT)
    );
}

#[test]
fn honest_proof_verifies_and_tampering_fails() {
    let (sk, kp) = keys();
    let m = pt(dalek(64) * RISTRETTO_BASEPOINT_POINT);
    let c = encrypt(&kp.public, &m, &sc(dalek(4242)));
    let (ag, actx, s) = honest_proof(sk, &kp.public, &c, &m, dalek(1001));
    assert!(verify_decryption_proof(&kp.public, &c, &m, &ag, &actx, &s));
    let s_bad = sc(DalekScalar::from_canonical_bytes(s.to_bytes()).unwrap() + dalek(1));
    assert!(!verify_decryption_proof(&kp.public, &c, &m, &ag, &actx, &s_bad));
    let ag_bad = pt(to_point(&ag) + RISTRETTO_BASEPOINT_POINT);
    assert!(!verify_decryption_proof(&kp.public, &c, &m, &ag_bad, &actx, &s));
    let actx_bad = pt(to_point(&actx) + RISTRETTO_BASEPOINT_POINT);
    assert!(!verify_decryption_proof(&kp.public, &c, &m, &ag, &actx_bad, &s));
    let other = pt(dalek(65) * RISTRETTO_BASEPOINT_POINT);
    assert!(!verify_decryption_proof(&kp.public, &c, &other, &ag, &actx, &s));
}

#[test]
fn challenge_depends_on_transcript() {
    let (_, kp) = keys();
    let m = pt(dalek(3) * RISTRETTO_BASEPOINT_POINT);
    let c = encrypt(&kp.public, &m, &sc(dalek(12)));
    let g = GroupElement::generator();
    let e1 = decryption_challenge(&kp.public, &c, &m, &g, &g);
    let e2 = decryption_challenge(&kp.public, &c, &m, &g, &g);
    let e3 = decryption_challenge(&kp.public, &c, &g, &g, &g);
    assert_eq!(e1, e2);
    assert_ne!(e1, e3);
    assert_ne!(e1.to_bytes(), [0u8; 32]);
}

#[test]
fn proof_equations_with_given_challenge() {
    let sk = dalek(5);
    let kp = KeyPair::from_secret(sc(sk));
    let m = pt(dalek(8) * RISTRETTO_BASEPOINT_POINT);
    let c = encrypt(&kp.public, &m, &sc(dalek(3)));
    let w = dalek(10);
    let ag = pt(w * RISTRETTO_BASEPOINT_POINT);
    let actx = pt(w * to_point(&c.c1));
    let e = dalek(7);
    let s = sc(w + e * sk);
    assert!(check_proof_equations(&kp.public, &c, &m, &ag, &actx, &s, &sc(e)));
    assert!(!check_proof_equations(&kp.public, &c, &m, &ag, &actx, &s, &sc(dalek(6))));
}

#[test]
fn uninitialized_user_cannot_aggregate() {
    let (_, kp) = keys();
    let p = policies(&[1]);
    let mut user = User::new();
    assert_eq!(
        user.calculate_aggregate(&vec![], &kp.public, &p),
        Err(ThemisError::NotInitialized)
    );
    let mut ready = fresh_user();
    assert_eq!(
        ready.calculate_aggregate(&vec![], &kp.public, &Policies::new()),
        Err(ThemisError::NotInitialized)
    );
}

#[test]
fn user_initialized_twice_fails() {
    let mut user = fresh_user();
    assert_eq!(user.initialize(), Err(ThemisError::AlreadyInitialized));
    let mut p = policies(&[1, 2]);
    assert_eq!(p.initialize(vec![]), Err(ThemisError::AlreadyInitialized));
    assert_eq!(p.scalars.len(), 2);
}

#[test]
fn proof_before_aggregation_fails() {
    let g = GroupElement::generator();
    let mut user = fresh_user();
    assert_eq!(
        user.submit_proof_decryption(&g, &g, &g, &Scalar::one()),
        Err(ThemisError::AggregateNotReady)
    );
    let mut fresh = User::new();
    assert_eq!(
        fresh.submit_proof_decryption(&g, &g, &g, &Scalar::one()),
        Err(ThemisError::NotInitialized)
    );
}

#[test]
fn out_of_range_policy_index_fails() {
    let (_, kp) = keys();
    let p = policies(&[3, 5]);
    let mut user = fresh_user();
    let before = user;
    let c = encrypt(&kp.public, &GroupElement::generator(), &sc(dalek(2)));
    let interactions = vec![
        Interaction { policy_index: 0, ciphertext: c },
        Interaction { policy_index: 2, ciphertext: c },
    ];
    assert_eq!(
        user.calculate_aggregate(&interactions, &kp.public, &p),
        Err(ThemisError::IndexOutOfRange)
    );
    assert_eq!(user, before);
    assert_eq!(p.weight_at(1), Ok(sc(dalek(5))));
    assert_eq!(p.weight_at(2), Err(ThemisError::IndexOutOfRange));
}

fn decrypted_user() -> (User, KeyPair) {
    let (sk, kp) = keys();
    let p = policies(&[2]);
    let mut user = fresh_user();
    let m = dalek(21) * RISTRETTO_BASEPOINT_POINT;
    let c = encrypt(&kp.public, &pt(m), &sc(dalek(3)));
    user.calculate_aggregate(&vec![Interaction { policy_index: 0, ciphertext: c }], &kp.public, &p)
        .unwrap();
    let plain = pt(dalek(2) * m);
    let (ag, actx, s) = honest_proof(sk, &kp.public, &user.encrypted_aggregate, &plain, dalek(9));
    user.submit_proof_decryption(&plain, &ag, &actx, &s).unwrap();
    (user, kp)
}

#[test]
fn payment_request_checks_stored_values() {
    let (user, kp) = decrypted_user();
    let token = GroupElement::generator();
    let plain = user.decrypted_aggregate.unwrap();
    let mut mismatched = user;
    let other = encrypt(&kp.public, &plain, &sc(dalek(1)));
    assert_eq!(
        mismatched.request_payment(&other, &plain, &token),
        Err(ThemisError::StateMismatch)
    );
    assert_eq!(
        mismatched.request_payment(&user.encrypted_aggregate, &token, &token),
        Err(ThemisError::StateMismatch)
    );
    assert_eq!(mismatched, user);
    let mut ok = user;
    assert_eq!(ok.request_payment(&user.encrypted_aggregate, &plain, &token), Ok(()));
    assert!(ok.payment_requested);
    assert_eq!(
        ok.request_payment(&user.encrypted_aggregate, &plain, &token),
        Err(ThemisError::PaymentAlreadyRequested)
    );
}

#[test]
fn payment_before_proof_fails() {
    let user0 = fresh_user();
    let g = GroupElement::generator();
    let mut user = user0;
    assert_eq!(
        user.request_payment(&user0.encrypted_aggregate, &g, &g),
        Err(ThemisError::StateMismatch)
    );
    let mut fresh = User::new();
    assert_eq!(
        fresh.request_payment(&user0.encrypted_aggregate, &g, &g),
        Err(ThemisError::NotInitialized)
    );
}

#[test]
fn no_aggregation_or_second_proof_after_decryption() {
    let (user, kp) = decrypted_user();
    let p = policies(&[2]);
    let mut u = user;
    assert_eq!(u.calculate_aggregate(&vec![], &kp.public, &p), Err(ThemisError::AlreadyDecrypted));
    let g = GroupElement::generator();
    assert_eq!(
        u.submit_proof_decryption(&g, &g, &g, &Scalar::one()),
        Err(ThemisError::AlreadyDecrypted)
    );
    assert_eq!(u, user);
}

#[test]
fn aggregation_keeps_the_first_recorded_key() {
    let (_, kp) = keys();
    let other = KeyPair::from_secret(sc(dalek(42)));
    let p = policies(&[1]);
    let mut user = fresh_user();
    assert_eq!(user.public_key, None);
    let c = encrypt(&kp.public, &GroupElement::generator(), &sc(dalek(2)));
    let batch = vec![Interaction { policy_index: 0, ciphertext: c }];
    user.calculate_aggregate(&batch, &kp.public, &p).unwrap();
    assert_eq!(user.public_key, Some(kp.public));
    let before = user;
    assert_eq!(
        user.calculate_aggregate(&batch, &other.public, &p),
        Err(ThemisError::StateMismatch)
    );
    assert_eq!(user, before);
    user.calculate_aggregate(&batch, &kp.public, &p).unwrap();
    assert_eq!(user.public_key, Some(kp.public));
    assert_eq!(decrypt(&user.encrypted_aggregate, &kp.secret), pt(dalek(2) * RISTRETTO_BASEPOINT_POINT));
}
