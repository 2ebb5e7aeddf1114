//! Errors of the signing protocol.
use vstd::prelude::*;

verus! {

/// What can go wrong in a signing session.
#[derive(Debug, Clone, PartialEq, Eq)]
pub enum Error {
    /// The session has no participants.
    NoParticipants,
    /// The nonces revealed by a participant do not hash to its commitment.
    CommitmentMismatch {
        /// Position of that participant in the registry order.
        participant_index: usize,
    },
    /// No nonces were revealed.
    NoNonces,
    /// The commitment list and the reveal list have different lengths.
    LengthMismatch {
        /// Number of commitments supplied.
        commitments: usize,
        /// Number of revealed nonce pairs supplied.
        reveals: usize,
    },
    /// No partial signatures were supplied for aggregation.
    NoSignatures,
    /// The curve library refused an operation (an invalid encoding or scalar).
    Crypto(String),
}

/// The library's error for a failure that the curve library reported.
pub(crate) fn crypto_error(detail: String) -> (r: Error)
    ensures
        r == Error::Crypto(detail),
{
    Error::Crypto(detail)
}

} // verus!
