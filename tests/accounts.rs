use curve25519_dalek::constants::RISTRETTO_BASEPOINT_POINT;
use curve25519_dalek::scalar::Scalar as DalekScalar;
use themis_core::codec::{decode_policies, decode_user, encode_policies, encode_user, USER_LEN};
use themis_core::decryption_proof::decryption_challenge;
use themis_core::elgamal::{decrypt, encrypt, KeyPair};
use themis_core::group::{GroupElement, Scalar};
use themis_core::processor::{process_instruction, ThemisInstruction};
use themis_core::state::{Interaction, Policies, ThemisError, User};

fn sc(n: u64) -> Scalar {
    Scalar::from_canonical_bytes(DalekScalar::from(n).to_bytes()).unwrap()
}

#[test]
fn zeroed_and_empty_buffers_are_fresh_accounts() {
    for buf in [vec![], vec![0u8; USER_LEN]] {
        let u = decode_user(&buf).unwrap();
        assert!(!u.is_initialized);
        assert_eq!(u, User::new());
        let p = decode_policies(&buf).unwrap();
        assert!(!p.is_initialized);
        assert!(p.scalars.is_empty());
    }
}

#[test]
fn user_layout_round_trip() {
    let mut u = User::new();
    u.initialize().unwrap();
    let bytes = encode_user(&u);
    assert_eq!(bytes.len(), USER_LEN);
    assert_eq!(bytes[0], 1);
    assert_eq!(decode_user(&bytes), Ok(u));
}

#[test]
fn malformed_user_bytes_are_rejected() {
    let mut u = User::new();
    u.initialize().unwrap();
    let good = encode_user(&u);
    let mut bad_flag = good.clone();
    bad_flag[0] = 2;
    assert_eq!(decode_user(&bad_flag), Err(ThemisError::DecodeError));
    let mut bad_point = good.clone();
    for b in &mut bad_point[1..33] {
        *b = 0xff;
    }
    assert_eq!(decode_user(&bad_point), Err(ThemisError::DecodeError));
    assert_eq!(decode_user(&good[..100].to_vec()), Err(ThemisError::DecodeError));
    let mut verified_without_value = good.clone();
    verified_without_value[98] = 1;
    assert_eq!(decode_user(&verified_without_value), Err(ThemisError::DecodeError));
}

#[test]
fn policies_layout_round_trip() {
    let mut p = Policies::new();
    p.initialize(vec![sc(3), sc(5)]).unwrap();
    let bytes = encode_policies(&p);
    assert_eq!(bytes.len(), 3 + 64);
    assert_eq!(&bytes[..3], &[1, 2, 0]);
    let back = decode_policies(&bytes).unwrap();
    assert!(back.is_initialized);
    assert_eq!(back.scalars, vec![sc(3), sc(5)]);
    let mut wrong_count = bytes.clone();
    wrong_count[1] = 3;
    assert_eq!(decode_policies(&wrong_count).unwrap_err(), ThemisError::DecodeError);
}

#[test]
fn full_workflow_through_instructions() {
    let sk = DalekScalar::from(987654321u64);
    let kp = KeyPair::from_secret(Scalar::from_canonical_bytes(sk.to_bytes()).unwrap());
    let mut user_bytes = vec![0u8; USER_LEN];
    let mut policies_bytes = vec![0u8; 3 + 64];

    policies_bytes = process_instruction(
        &ThemisInstruction::InitializePoliciesAccount { scalars: vec![sc(3), sc(5)] },
        &vec![policies_bytes],
    )
    .unwrap();
    user_bytes =
        process_instruction(&ThemisInstruction::InitializeUserAccount, &vec![user_bytes]).unwrap();
    assert_eq!(
        process_instruction(&ThemisInstruction::InitializeUserAccount, &vec![user_bytes.clone()]),
        Err(ThemisError::AlreadyInitialized)
    );

    let x = GroupElement::generator();
    let interactions = vec![
        Interaction { policy_index: 0, ciphertext: encrypt(&kp.public, &x, &sc(41)) },
        Interaction { policy_index: 1, ciphertext: encrypt(&kp.public, &x, &sc(43)) },
    ];
    let ix = ThemisInstruction::CalculateAggregate {
        encrypted_interactions: interactions,
        public_key: kp.public,
    };
    assert_eq!(
        process_instruction(&ix, &vec![user_bytes.clone()]),
        Err(ThemisError::NotEnoughAccounts)
    );
    user_bytes = process_instruction(&ix, &vec![user_bytes, policies_bytes]).unwrap();

    let user = decode_user(&user_bytes).unwrap();
    let plain = decrypt(&user.encrypted_aggregate, &kp.secret);
    let eight = DalekScalar::from(8u64) * RISTRETTO_BASEPOINT_POINT;
    assert_eq!(plain.to_bytes(), eight.compress().to_bytes());

    let w = DalekScalar::from(77u64);
    let c1 = curve25519_dalek::ristretto::CompressedRistretto(user.encrypted_aggregate.c1.bytes)
        .decompress()
        .unwrap();
    let ag = GroupElement::from_bytes((w * RISTRETTO_BASEPOINT_POINT).compress().to_bytes()).unwrap();
    let actx = GroupElement::from_bytes((w * c1).compress().to_bytes()).unwrap();
    let e = decryption_challenge(&kp.public, &user.encrypted_aggregate, &plain, &ag, &actx);
    let e = DalekScalar::from_canonical_bytes(e.to_bytes()).unwrap();
    let response = Scalar::from_canonical_bytes((w + e * sk).to_bytes()).unwrap();
    user_bytes = process_instruction(
        &ThemisInstruction::SubmitProofDecryption {
            plaintext: plain,
            announcement_g: ag,
            announcement_ctx: actx,
            response,
        },
        &vec![user_bytes],
    )
    .unwrap();
    assert!(decode_user(&user_bytes).unwrap().proof_verified);

    user_bytes = process_instruction(
        &ThemisInstruction::RequestPayment {
            encrypted_aggregate: user.encrypted_aggregate,
            decrypted_aggregate: plain,
            proof_correct_decryption: ag,
        },
        &vec![user_bytes],
    )
    .unwrap();
    let done = decode_user(&user_bytes).unwrap();
    assert!(done.payment_requested);
    assert_eq!(done.decrypted_aggregate, Some(plain));
}

#[test]
fn off_by_generator_plaintext_is_rejected_through_instructions() {
    let sk = DalekScalar::from(55555u64);
    let kp = KeyPair::from_secret(Scalar::from_canonical_bytes(sk.to_bytes()).unwrap());
    let policies_bytes = process_instruction(
        &ThemisInstruction::InitializePoliciesAccount { scalars: vec![sc(3), sc(5)] },
        &vec![vec![]],
    )
    .unwrap();
    let user_bytes =
        process_instruction(&ThemisInstruction::InitializeUserAccount, &vec![vec![]]).unwrap();
    let x = DalekScalar::from(6u64) * RISTRETTO_BASEPOINT_POINT;
    let y = DalekScalar::from(11u64) * RISTRETTO_BASEPOINT_POINT;
    let to_elem = |p: curve25519_dalek::ristretto::RistrettoPoint| {
        GroupElement::from_bytes(p.compress().to_bytes()).unwrap()
    };
    let ix = ThemisInstruction::CalculateAggregate {
        encrypted_interactions: vec![
            Interaction { policy_index: 0, ciphertext: encrypt(&kp.public, &to_elem(x), &sc(13)) },
            Interaction { policy_index: 1, ciphertext: encrypt(&kp.public, &to_elem(y), &sc(17)) },
        ],
        public_key: kp.public,
    };
    let user_bytes = process_instruction(&ix, &vec![user_bytes, policies_bytes]).unwrap();
    let user = decode_user(&user_bytes).unwrap();
    let expected = DalekScalar::from(3u64) * x + DalekScalar::from(5u64) * y;
    assert_eq!(decrypt(&user.encrypted_aggregate, &kp.secret), to_elem(expected));

    let c1 = curve25519_dalek::ristretto::CompressedRistretto(user.encrypted_aggregate.c1.bytes)
        .decompress()
        .unwrap();
    let prove = |plain: GroupElement| {
        let w = DalekScalar::from(31u64);
        let ag = to_elem(w * RISTRETTO_BASEPOINT_POINT);
        let actx = to_elem(w * c1);
        let e = decryption_challenge(&kp.public, &user.encrypted_aggregate, &plain, &ag, &actx);
        let e = DalekScalar::from_canonical_bytes(e.to_bytes()).unwrap();
        ThemisInstruction::SubmitProofDecryption {
            plaintext: plain,
            announcement_g: ag,
            announcement_ctx: actx,
            response: Scalar::from_canonical_bytes((w + e * sk).to_bytes()).unwrap(),
        }
    };
    let off = to_elem(expected + RISTRETTO_BASEPOINT_POINT);
    assert_eq!(
        process_instruction(&prove(off), &vec![user_bytes.clone()]),
        Err(ThemisError::InvalidProof)
    );
    let accepted = process_instruction(&prove(to_elem(expected)), &vec![user_bytes]).unwrap();
    assert_eq!(decode_user(&accepted).unwrap().decrypted_aggregate, Some(to_elem(expected)));
}
