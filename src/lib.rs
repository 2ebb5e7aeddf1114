//! MuSig2-style multi-party Schnorr signing over secp256k1: key aggregation
//! with rogue-key protection, a committed two-nonce exchange, challenge and
//! partial-signature computation, and aggregation and checking of the final
//! signature.
mod crypto;
mod error;
mod order;
mod participant;
mod session;
mod types;

pub use crypto::{
    base_mul_of, be_value, blake2b512_of, group_order, point_add_of, point_mul_of,
    point_parse_of, valid_scalar, Context, POINT_LEN, SCALAR_LEN,
};
pub use error::Error;
pub use order::{be_encode, order_bytes, radix, reduce_mod_order};
pub use participant::Participant;
pub use session::{
    aggregate_key_of, aggregate_nonce_of, all_open, coefficient_of, commitment_views, concat_all,
    first_mismatch, key_list_digest, key_terms_of, lemma_challenge_deterministic,
    lemma_coefficient_deterministic, lemma_foreign_reveal_fails_first,
    lemma_round1_commitment_opens, nonce_terms_of, opens, partial_sign_defined, partial_sums_defined,
    partial_value_of, point_sum_of, present, key_term_of, reveal_views, signature_check_of,
    value_sum_of, PartialSignature, Round1State, Session,
};
pub use types::{
    challenge_of, commitment_of, Challenge, Coefficient, NonceCommitment, ParticipantId, Point,
    Scalar,
};
