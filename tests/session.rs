use grin_multisig_poc::{
    Error, NonceCommitment, Participant, ParticipantId, Point, Round1State, Scalar, Session,
};
use grin_multisig_poc::Context;

fn random_secret(secp: &Context) -> Scalar {
    let sk = secp256k1zkp::SecretKey::new(&secp256k1zkp::Secp256k1::new(), &mut rand::thread_rng());
    Scalar::from_bytes(secp, sk.0).expect("valid secret key")
}

fn create_test_session(n_participants: u32) -> Session {
    let secp = Context::new();
    let participants: Vec<Participant> = (0..n_participants)
        .map(|i| {
            let sk = random_secret(&secp);
            let pk = Point::from_secret(&secp, &sk);
            Participant::new(ParticipantId::new(i), pk)
        })
        .collect();
    Session::new(participants)
}

#[test]
fn test_key_aggregation_coefficient_deterministic() {
    let session = create_test_session(2);
    let pk = session.participants()[0].public_key();

    let coeff1 = session.key_agg_coefficient(pk);
    let coeff2 = session.key_agg_coefficient(pk);

    assert_eq!(coeff1, coeff2, "Coefficients should be deterministic");
}

#[test]
fn test_key_aggregation_coefficient_unique() {
    let session = create_test_session(2);
    let pk1 = session.participants()[0].public_key();
    let pk2 = session.participants()[1].public_key();

    let coeff1 = session.key_agg_coefficient(pk1);
    let coeff2 = session.key_agg_coefficient(pk2);

    assert_ne!(
        coeff1, coeff2,
        "Different keys should have different coefficients"
    );
}

#[test]
fn test_nonce_generation_and_commitment() {
    let session = create_test_session(1);
    let round1 = session.round1_generate_nonces().unwrap();

    let (r1, r2) = round1.public_nonces();
    assert!(
        round1.commitment().verify(r1, r2),
        "Commitment should match public nonces"
    );
}

#[test]
fn test_commitment_verification_success() {
    let session = create_test_session(1);
    let round1 = session.round1_generate_nonces().unwrap();

    let commitments = vec![*round1.commitment()];
    let revealed = vec![round1.public_nonces().clone()];

    let result = session.round2_aggregate_nonces(&commitments, &revealed);
    assert!(result.is_ok(), "Valid commitments should verify");
}

#[test]
fn test_commitment_verification_failure() {
    let session = create_test_session(1);
    let round1 = session.round1_generate_nonces().unwrap();
    let round2 = session.round1_generate_nonces().unwrap();

    let commitments = vec![*round1.commitment()];
    let revealed = vec![round2.public_nonces().clone()];

    let result = session.round2_aggregate_nonces(&commitments, &revealed);
    assert!(
        matches!(result, Err(Error::CommitmentMismatch { .. })),
        "Mismatched commitments should fail"
    );
}

#[test]
fn test_challenge_computation() {
    let secp = Context::new();
    let sk = random_secret(&secp);
    let pk = Point::from_secret(&secp, &sk);

    let session = create_test_session(1);
    let round1: Round1State = session.round1_generate_nonces().unwrap();
    let agg_nonce = round1.public_nonces().0.clone();

    let message = [0x42u8; 32];
    let signature = session
        .round3_partial_sign(&message, &sk, round1, &agg_nonce, &pk)
        .unwrap();

    assert_eq!(
        signature.challenge().as_bytes().len(),
        32,
        "Challenge should be 32 bytes"
    );
}

#[test]
fn test_empty_participants() {
    let session = Session::new(vec![]);
    assert!(
        matches!(session.aggregate_pubkeys(), Err(Error::NoParticipants)),
        "Should fail with no participants"
    );
}

#[test]
fn round2_without_reveals_fails_with_no_nonces() {
    let session = create_test_session(1);
    let round1 = session.round1_generate_nonces().unwrap();
    let commitments: Vec<NonceCommitment> = vec![*round1.commitment()];
    let result = session.round2_aggregate_nonces(&commitments, &[]);
    assert_eq!(result, Err(Error::NoNonces));
    let result = session.round2_aggregate_nonces(&[], &[]);
    assert_eq!(result, Err(Error::NoNonces));
}

#[test]
fn round2_with_unequal_lists_fails_with_length_mismatch() {
    let session = create_test_session(2);
    let first = session.round1_generate_nonces().unwrap();
    let second = session.round1_generate_nonces().unwrap();
    let commitments = vec![*first.commitment()];
    let revealed = vec![first.public_nonces().clone(), second.public_nonces().clone()];
    let result = session.round2_aggregate_nonces(&commitments, &revealed);
    assert_eq!(
        result,
        Err(Error::LengthMismatch {
            commitments: 1,
            reveals: 2
        })
    );
}

#[test]
fn round3_on_empty_registry_fails_with_no_participants() {
    let secp = Context::new();
    let worker = create_test_session(1);
    let round1 = worker.round1_generate_nonces().unwrap();
    let nonce = round1.public_nonces().0.clone();
    let sk = random_secret(&secp);
    let session = Session::new(vec![]);
    let result = session.round3_partial_sign(&[0u8; 32], &sk, round1, &nonce, &nonce);
    assert_eq!(result, Err(Error::NoParticipants));
}

#[test]
fn no_partial_signatures_fail_with_no_signatures() {
    let session = create_test_session(1);
    assert_eq!(
        session.aggregate_partial_signatures(&[]),
        Err(Error::NoSignatures)
    );
}

#[test]
fn round1_states_differ() {
    let session = create_test_session(1);
    let first = session.round1_generate_nonces().unwrap();
    let second = session.round1_generate_nonces().unwrap();
    assert_ne!(first.commitment(), second.commitment());
    assert_ne!(first.public_nonces().0, second.public_nonces().0);
    assert_ne!(first.public_nonces().0, first.public_nonces().1);
}

#[test]
fn round1_on_empty_registry_fails_with_no_participants() {
    let session = Session::new(vec![]);
    assert!(matches!(
        session.round1_generate_nonces(),
        Err(Error::NoParticipants)
    ));
}
