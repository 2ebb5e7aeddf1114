use grin_multisig_poc::{
    Challenge, Coefficient, Error, NonceCommitment, Participant, ParticipantId, PartialSignature,
    Point, Round1State, Scalar, Session,
};
use grin_multisig_poc::Context;

const PK1: &str = "034f355bdcb7cc0af728ef3cceb9615d90684bb5b2ca5f859ab0f0b704075871aa";
const PK2: &str = "02466d7fcae563e5cb09a0d1870bb580344804617879a14949cf22285f1bae3f27";

fn bytes(text: &str) -> Vec<u8> {
    hex::decode(text).unwrap()
}

fn secret(secp: &Context, byte: u8) -> Scalar {
    Scalar::from_bytes(secp, [byte; 32]).unwrap()
}

fn two_party_session(secp: &Context) -> (Session, Point, Point) {
    let pk1 = Point::from_secret(secp, &secret(secp, 0x11));
    let pk2 = Point::from_secret(secp, &secret(secp, 0x22));
    let session = Session::new(vec![
        Participant::new(ParticipantId::new(1), pk1.clone()),
        Participant::new(ParticipantId::new(2), pk2.clone()),
    ]);
    (session, pk1, pk2)
}

#[test]
fn public_keys_of_fixed_secrets() {
    let secp = Context::new();
    let (_, pk1, pk2) = two_party_session(&secp);
    assert_eq!(pk1.to_bytes(), bytes(PK1));
    assert_eq!(pk2.to_bytes(), bytes(PK2));
}

#[test]
fn coefficients_of_fixed_keys() {
    let secp = Context::new();
    let (session, pk1, pk2) = two_party_session(&secp);
    let a1 = session.key_agg_coefficient(&pk1);
    let a2 = session.key_agg_coefficient(&pk2);
    assert_eq!(
        a1.as_bytes().to_vec(),
        bytes("cb41ec531b7190c1674b94c73a08503f8e4c21235907583de056e0bdc74d2e4d")
    );
    assert_eq!(
        a2.as_bytes().to_vec(),
        bytes("972b847536923658c5e93f0aa6701569a5f6089e76d787bdb2ec769ca7bafbc9")
    );
    assert_ne!(a1, a2);
    assert_eq!(session.key_agg_coefficient(&pk1), a1);
}

#[test]
fn coefficient_depends_on_registry_order() {
    let secp = Context::new();
    let (session, pk1, pk2) = two_party_session(&secp);
    let reversed = Session::new(vec![
        Participant::new(ParticipantId::new(2), pk2),
        Participant::new(ParticipantId::new(1), pk1.clone()),
    ]);
    assert_ne!(
        session.key_agg_coefficient(&pk1),
        reversed.key_agg_coefficient(&pk1)
    );
}

#[test]
fn aggregated_key_of_fixed_keys() {
    let secp = Context::new();
    let (session, pk1, _) = two_party_session(&secp);
    let agg = session.aggregate_pubkeys().unwrap();
    assert_eq!(
        agg.to_bytes(),
        bytes("0312528af3062984ca8cf06ad68b994d4e9f307ffe201564a7cdc9d8673414b29b")
    );
    assert_ne!(agg, pk1);

    let single = Session::new(vec![Participant::new(ParticipantId::new(1), pk1)]);
    assert_eq!(
        single.aggregate_pubkeys().unwrap().to_bytes(),
        bytes("02a9c3d7b51b943a853febccbc42f082945fd2c4a8e1405b67ff8915c06bd5d352")
    );
}

#[test]
fn commitment_of_fixed_points() {
    let secp = Context::new();
    let (_, pk1, pk2) = two_party_session(&secp);
    let commitment = NonceCommitment::from_nonces(&pk1, &pk2);
    assert_eq!(
        commitment.as_bytes().to_vec(),
        bytes(
            "bbaaec001306af99ba0635fc93c4493d12c688cc867e5d6f819edd809a3b628c\
             502d329dfe0576333e80a376e0c89d231d90d72747b1890f6a01623a6719b70e"
        )
    );
    assert!(commitment.verify(&pk1, &pk2));
    assert!(!commitment.verify(&pk2, &pk1));
}

#[test]
fn challenge_of_fixed_points() {
    let secp = Context::new();
    let (_, pk1, pk2) = two_party_session(&secp);
    let message = [0x42u8; 32];
    let challenge = Challenge::from_message(&pk1, &pk2, &message);
    assert_eq!(
        challenge.as_bytes().to_vec(),
        bytes("f5c5296eaedb2b65c23edf70026c8f0c45c99095ede80d08de87cfbc764c12bc")
    );
    assert_eq!(Challenge::from_message(&pk1, &pk2, &message), challenge);
    assert_ne!(Challenge::from_message(&pk2, &pk1, &message), challenge);
    assert_ne!(Challenge::from_message(&pk1, &pk2, &[0x43u8; 32]), challenge);
}

#[test]
fn nonce_aggregation_is_a_group_sum() {
    let secp = Context::new();
    let (session, pk1, pk2) = two_party_session(&secp);

    let single = session.round2_aggregate_nonces(
        &[NonceCommitment::from_nonces(&pk1, &pk2)],
        &[(pk1.clone(), pk2.clone())],
    );
    assert_eq!(
        single.unwrap().to_bytes(),
        bytes("023c72addb4fdf09af94f0c94d7fe92a386a7e70cf8a1d85916386bb2535c7b1b1")
    );

    let commitments = vec![
        NonceCommitment::from_nonces(&pk1, &pk2),
        NonceCommitment::from_nonces(&pk2, &pk1),
    ];
    let reveals = vec![(pk1.clone(), pk2.clone()), (pk2.clone(), pk1.clone())];
    let both = session.round2_aggregate_nonces(&commitments, &reveals).unwrap();
    assert_eq!(
        both.to_bytes(),
        bytes("035ab4689e400a4a160cf01cd44730845a54768df8547dcdf073d964f109f18c30")
    );
}

#[test]
fn points_and_scalars_are_checked() {
    let secp = Context::new();
    assert!(matches!(
        Point::from_bytes(&secp, &[0u8; 33]),
        Err(Error::Crypto(_))
    ));
    let pk = Point::from_bytes(&secp, &bytes(PK1)).unwrap();
    assert_eq!(pk.to_bytes(), bytes(PK1));
    assert!(matches!(
        Scalar::from_bytes(&secp, [0u8; 32]),
        Err(Error::Crypto(_))
    ));
    assert!(matches!(
        Scalar::from_bytes(&secp, [0xffu8; 32]),
        Err(Error::Crypto(_))
    ));
}

#[test]
fn two_party_signing_end_to_end() {
    let secp = Context::new();
    let (session, pk1, pk2) = two_party_session(&secp);
    assert_eq!(session.participant_count(), 2);

    let a1: Coefficient = session.key_agg_coefficient(&pk1);
    let a2: Coefficient = session.key_agg_coefficient(&pk2);
    assert_ne!(a1, a2);
    assert_eq!(a1.as_bytes().len(), 32);

    let round1_p1 = session.round1_generate_nonces().unwrap();
    let round1_p2 = session.round1_generate_nonces().unwrap();
    assert_ne!(round1_p1.commitment(), round1_p2.commitment());
    assert_eq!(round1_p1.commitment().as_bytes().len(), 64);

    let commitments = vec![*round1_p1.commitment(), *round1_p2.commitment()];
    let revealed = vec![
        round1_p1.public_nonces().clone(),
        round1_p2.public_nonces().clone(),
    ];
    let agg_nonce = session
        .round2_aggregate_nonces(&commitments, &revealed)
        .unwrap();

    let swapped = vec![
        round1_p1.public_nonces().clone(),
        round1_p1.public_nonces().clone(),
    ];
    assert_eq!(
        session.round2_aggregate_nonces(&commitments, &swapped),
        Err(Error::CommitmentMismatch {
            participant_index: 1
        })
    );

    let agg_pubkey = session.aggregate_pubkeys().unwrap();
    let message = [0x42u8; 32];
    let s1: PartialSignature = session
        .round3_partial_sign(&message, &secret(&secp, 0x11), round1_p1, &agg_nonce, &agg_pubkey)
        .unwrap();
    let s2 = session
        .round3_partial_sign(&message, &secret(&secp, 0x22), round1_p2, &agg_nonce, &agg_pubkey)
        .unwrap();
    assert_eq!(s1.challenge().as_bytes().len(), 32);
    assert_eq!(s1.challenge(), s2.challenge());
    assert_eq!(
        s1.challenge(),
        Challenge::from_message(&agg_pubkey, &agg_nonce, &message)
    );

    let signature = session.aggregate_partial_signatures(&[s1, s2]).unwrap();
    assert_eq!(
        session.verify_signature(&signature, &agg_nonce, &agg_pubkey, &message),
        Ok(true)
    );
    assert_eq!(
        session.verify_signature(&signature, &agg_nonce, &agg_pubkey, &[0x43u8; 32]),
        Ok(false)
    );
    assert_ne!(s1.to_bytes(), s2.to_bytes());
}

#[test]
fn uncompressed_point_is_stored_compressed() {
    let secp = Context::new();
    let pk = Point::from_bytes(
        &secp,
        &bytes("044f355bdcb7cc0af728ef3cceb9615d90684bb5b2ca5f859ab0f0b704075871aa385b6b1b8ead809ca67454d9683fcf2ba03456d6fe2c4abe2b07f0fbdbb2f1c1"),
    )
    .unwrap();
    assert_eq!(pk.to_bytes(), bytes(PK1));
}

#[test]
fn round1_state_from_fixed_nonces() {
    let ctx = Context::new();
    let state = Round1State::from_secret_nonces(&ctx, secret(&ctx, 0x11), secret(&ctx, 0x22));
    assert_eq!(state.public_nonces().0.to_bytes(), bytes(PK1));
    assert_eq!(state.public_nonces().1.to_bytes(), bytes(PK2));
    assert_eq!(
        state.commitment().as_bytes().to_vec(),
        bytes(
            "bbaaec001306af99ba0635fc93c4493d12c688cc867e5d6f819edd809a3b628c\
             502d329dfe0576333e80a376e0c89d231d90d72747b1890f6a01623a6719b70e"
        )
    );
}
