//! Members of a signing group.
use vstd::prelude::*;

use crate::types::{ParticipantId, Point};

verus! {

/// One signer of a group: an identifier and a public key.
#[derive(Clone, Debug)]
pub struct Participant {
    id: ParticipantId,
    public_key: Point,
}

impl Participant {
    /// The identifier of this participant.
    pub closed spec fn spec_id(&self) -> ParticipantId {
        self.id
    }

    /// The compressed encoding of this participant's public key.
    pub closed spec fn key(&self) -> Seq<u8> {
        self.public_key@
    }

    /// Pairs an identifier with a public key.
    pub fn new(id: ParticipantId, public_key: Point) -> (r: Self)
        ensures
            r.spec_id() == id,
            r.key() == public_key@,
    {
        Participant { id, public_key }
    }

    /// The identifier.
    pub fn id(&self) -> (r: ParticipantId)
        ensures
            r == self.spec_id(),
    {
        self.id
    }

    /// The public key.
    pub fn public_key(&self) -> (r: &Point)
        ensures
            r@ == self.key(),
    {
        &self.public_key
    }
}

} // verus!
