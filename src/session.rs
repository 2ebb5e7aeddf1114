//! The signing session: key aggregation, the committed nonce exchange, and
//! partial signatures.
use vstd::prelude::*;

use vstd::arithmetic::div_mod::{lemma_add_mod_noop, lemma_mod_twice, lemma_mul_mod_noop_left};

use crate::crypto::{
    base_mul, base_mul_of, be_value, blake2b512, blake2b512_of, check_scalar, group_order,
    point_add, point_add_of, point_mul, point_mul_of, point_parse_of, random_scalar, scalar_add,
    scalar_mul, valid_scalar, Context,
};
use crate::error::{crypto_error, Error};
use crate::order::{be_encode, reduce_mod_order};
use crate::participant::Participant;
use crate::types::{
    append, bytes_equal, challenge_of, commitment_of, concat, prefix_32, Challenge, Coefficient,
    NonceCommitment, Point, Scalar,
};

verus! {

/// The encodings in `keys`, one after another.
pub open spec fn concat_all(keys: Seq<Seq<u8>>) -> Seq<u8>
    decreases keys.len(),
{
    if keys.len() == 0 {
        seq![]
    } else {
        concat_all(keys.drop_last()) + keys.last()
    }
}

/// `L = H(X_1 || ... || X_n)`, the digest of the whole key list in registry order.
pub open spec fn key_list_digest(keys: Seq<Seq<u8>>) -> Seq<u8> {
    blake2b512_of(concat_all(keys))
}

/// `a = H(L || X)`, its first 32 bytes read as a number and reduced modulo
/// `n`: the coefficient of key `pk` in the group `keys`, as 32 bytes.
pub open spec fn coefficient_of(keys: Seq<Seq<u8>>, pk: Seq<u8>) -> Seq<u8> {
    be_encode(
        be_value(blake2b512_of(key_list_digest(keys) + pk).subrange(0, 32)) % group_order(),
        32,
    )
}

/// The group sum of a list of points, added from the first one on. `None`
/// when the list is empty, when a point is missing, or when a partial sum is
/// the point at infinity.
pub open spec fn point_sum_of(terms: Seq<Option<Seq<u8>>>) -> Option<Seq<u8>>
    decreases terms.len(),
{
    if terms.len() == 0 {
        None
    } else if terms.len() == 1 {
        terms[0]
    } else {
        match (point_sum_of(terms.drop_last()), terms.last()) {
            (Some(sum), Some(t)) => point_add_of(sum, t),
            _ => None,
        }
    }
}

/// The points of a list, all present.
pub open spec fn present(points: Seq<Vec<u8>>) -> Seq<Option<Seq<u8>>> {
    points.map_values(|p: Vec<u8>| Some(p@))
}

/// The weighted key `a·X` of the key `pk` in the group `keys`; `None` when
/// `pk` is no point or its coefficient is no valid scalar.
pub open spec fn key_term_of(keys: Seq<Seq<u8>>, pk: Seq<u8>) -> Option<Seq<u8>> {
    let a = coefficient_of(keys, pk);
    if point_parse_of(pk) is Some && valid_scalar(a) {
        Some(point_mul_of(pk, a))
    } else {
        None
    }
}

/// The weighted keys `a_i·X_i` of a group.
pub open spec fn key_terms_of(keys: Seq<Seq<u8>>) -> Seq<Option<Seq<u8>>> {
    Seq::new(keys.len(), |i: int| key_term_of(keys, keys[i]))
}

/// The aggregated public key `X = Σ a_i·X_i` of a group, where it exists.
pub open spec fn aggregate_key_of(keys: Seq<Seq<u8>>) -> Option<Seq<u8>> {
    point_sum_of(key_terms_of(keys))
}

/// The encodings of a list of commitments.
pub open spec fn commitment_views(commitments: Seq<NonceCommitment>) -> Seq<Seq<u8>> {
    commitments.map_values(|c: NonceCommitment| c@)
}

/// The encodings of a list of revealed nonce pairs.
pub open spec fn reveal_views(reveals: Seq<(Point, Point)>) -> Seq<(Seq<u8>, Seq<u8>)> {
    reveals.map_values(|p: (Point, Point)| (p.0@, p.1@))
}

/// Whether the commitment `c` binds the revealed pair `nonces`.
pub open spec fn opens(c: Seq<u8>, nonces: (Seq<u8>, Seq<u8>)) -> bool {
    c == commitment_of(nonces.0, nonces.1)
}

/// Whether `i` is the first position at which a reveal fails its commitment.
pub open spec fn first_mismatch(
    commitments: Seq<Seq<u8>>,
    reveals: Seq<(Seq<u8>, Seq<u8>)>,
    i: int,
) -> bool {
    &&& 0 <= i < reveals.len()
    &&& !opens(commitments[i], reveals[i])
    &&& forall|j: int| 0 <= j < i ==> opens(commitments[j], reveals[j])
}

/// Whether every reveal opens the commitment at its position.
pub open spec fn all_open(commitments: Seq<Seq<u8>>, reveals: Seq<(Seq<u8>, Seq<u8>)>) -> bool {
    forall|j: int| 0 <= j < reveals.len() ==> opens(commitments[j], reveals[j])
}

/// The per-participant nonce points `R1_i + R2_i`.
pub open spec fn nonce_terms_of(reveals: Seq<(Seq<u8>, Seq<u8>)>) -> Seq<Option<Seq<u8>>> {
    Seq::new(reveals.len(), |i: int| point_add_of(reveals[i].0, reveals[i].1))
}

/// The aggregated nonce `R = Σ (R1_i + R2_i)`, where it exists.
pub open spec fn aggregate_nonce_of(reveals: Seq<(Seq<u8>, Seq<u8>)>) -> Option<Seq<u8>> {
    point_sum_of(nonce_terms_of(reveals))
}

/// The value of a partial signature `s = r1 + r2 + c·a·x (mod n)`.
pub open spec fn partial_value_of(
    r1: Seq<u8>,
    r2: Seq<u8>,
    c: Seq<u8>,
    a: Seq<u8>,
    x: Seq<u8>,
) -> nat {
    (be_value(r1) + be_value(r2) + be_value(c) * be_value(a) * be_value(x)) % group_order()
}

/// Whether round 3 can compute a partial signature: the challenge and the
/// coefficient are valid scalars and neither `r1 + r2` nor `s` is zero mod `n`.
pub open spec fn partial_sign_defined(
    r1: Seq<u8>,
    r2: Seq<u8>,
    c: Seq<u8>,
    a: Seq<u8>,
    x: Seq<u8>,
) -> bool {
    &&& valid_scalar(c)
    &&& valid_scalar(a)
    &&& (be_value(r1) + be_value(r2)) % group_order() != 0
    &&& partial_value_of(r1, r2, c, a, x) != 0
}

/// The sum of the values that a list of 32-byte strings encodes.
pub open spec fn value_sum_of(values: Seq<Seq<u8>>) -> nat
    decreases values.len(),
{
    if values.len() == 0 {
        0
    } else {
        value_sum_of(values.drop_last()) + be_value(values.last())
    }
}

/// Whether partial signatures can be added up: each is a valid scalar and no
/// running sum is zero modulo `n`.
pub open spec fn partial_sums_defined(values: Seq<Seq<u8>>) -> bool {
    &&& forall|k: int| 0 <= k < values.len() ==> valid_scalar(#[trigger] values[k])
    &&& forall|j: int|
        1 <= j <= values.len() ==> #[trigger] value_sum_of(values.subrange(0, j))
            % group_order() != 0
}

/// The outcome of checking the signature `s` on `message` for the aggregated
/// nonce and key: `Some(s·G == R + c·X)`, or `None` when `s` or `c` is no
/// valid scalar, `X` is no point, or `R + c·X` does not exist.
pub open spec fn signature_check_of(
    s: Seq<u8>,
    agg_nonce: Seq<u8>,
    agg_pubkey: Seq<u8>,
    message: Seq<u8>,
) -> Option<bool> {
    let c = challenge_of(agg_pubkey, agg_nonce, message);
    if valid_scalar(s) && point_parse_of(agg_pubkey) is Some && valid_scalar(c) {
        match point_add_of(agg_nonce, point_mul_of(agg_pubkey, c)) {
            Some(rhs) => Some(base_mul_of(s) == rhs),
            None => None,
        }
    } else {
        None
    }
}

/// Once a partial sum is missing, the whole sum is.
proof fn lemma_sum_none_stays(terms: Seq<Option<Seq<u8>>>, j: int)
    requires
        1 <= j <= terms.len(),
        point_sum_of(terms.subrange(0, j)) is None,
    ensures
        point_sum_of(terms) is None,
    decreases terms.len() - j,
{
    if j < terms.len() {
        assert(terms.subrange(0, j + 1).drop_last() == terms.subrange(0, j));
        lemma_sum_none_stays(terms, j + 1);
    } else {
        assert(terms.subrange(0, j) == terms);
    }
}

/// A missing point makes the whole sum missing.
proof fn lemma_missing_term(terms: Seq<Option<Seq<u8>>>, i: int)
    requires
        0 <= i < terms.len(),
        terms[i] is None,
    ensures
        point_sum_of(terms) is None,
{
    let sub = terms.subrange(0, i + 1);
    assert(sub.last() == terms[i]);
    if i > 0 {
        assert(sub.drop_last() == terms.subrange(0, i));
    }
    lemma_sum_none_stays(terms, i + 1);
}

/// Adds up a non-empty list of points from the first one on.
fn sum_points(ctx: &Context, points: &Vec<Vec<u8>>) -> (r: Result<Vec<u8>, Error>)
    requires
        points@.len() > 0,
    ensures
        match r {
            Ok(p) => point_sum_of(present(points@)) == Some(p@),
            Err(e) => point_sum_of(present(points@)) is None && e is Crypto,
        },
{
    let ghost terms = present(points@);
    let mut acc: Vec<u8> = points[0].clone();
    assert(terms.subrange(0, 1).len() == 1);
    let mut i: usize = 1;
    while i < points.len()
        invariant
            terms == present(points@),
            1 <= i <= points@.len(),
            point_sum_of(terms.subrange(0, i as int)) == Some(acc@),
        decreases points@.len() - i,
    {
        assert(terms.subrange(0, i + 1 as int).drop_last() == terms.subrange(0, i as int));
        assert(terms.subrange(0, i + 1 as int).last() == Some(points@[i as int]@));
        match point_add(ctx, acc.as_slice(), points[i].as_slice()) {
            Ok(sum) => {
                acc = sum;
            },
            Err(detail) => {
                proof {
                    lemma_sum_none_stays(terms, i + 1);
                }
                return Err(crypto_error(detail));
            },
        }
        i = i + 1;
    }
    assert(terms.subrange(0, i as int) == terms);
    Ok(acc)
}

/// Coefficients are a pure function of the registry's key list and the key:
/// two sessions over the same keys, in the same order, give a key the same
/// coefficient, however often it is computed.
pub proof fn lemma_coefficient_deterministic(first: &Session, second: &Session, pk: Seq<u8>)
    requires
        first.keys() == second.keys(),
    ensures
        coefficient_of(first.keys(), pk) == coefficient_of(second.keys(), pk),
{
}

/// The challenge depends on the aggregated key, the aggregated nonce and the
/// message alone: equal inputs give equal challenges.
pub proof fn lemma_challenge_deterministic(
    agg_pubkey: Seq<u8>,
    agg_nonce: Seq<u8>,
    message: Seq<u8>,
    other_pubkey: Seq<u8>,
    other_nonce: Seq<u8>,
    other_message: Seq<u8>,
)
    requires
        agg_pubkey == other_pubkey,
        agg_nonce == other_nonce,
        message == other_message,
    ensures
        challenge_of(agg_pubkey, agg_nonce, message) == challenge_of(
            other_pubkey,
            other_nonce,
            other_message,
        ),
{
}

/// The commitment of a well-formed round 1 state, which is what
/// `round1_generate_nonces` returns, is opened by the state's own public
/// nonces, so `NonceCommitment::verify` accepts them.
pub proof fn lemma_round1_commitment_opens(state: &Round1State)
    requires
        state.well_formed(),
    ensures
        opens(state.spec_commitment(), state.spec_public_nonces()),
{
}

/// Round 2 rejects the nonces of one round 1 state against the commitment of
/// another: when the two states' commitments differ, the reveal at position 0
/// is the first mismatch, so round 2 fails with a commitment mismatch at 0.
pub proof fn lemma_foreign_reveal_fails_first(committed: &Round1State, revealed: &Round1State)
    requires
        committed.well_formed(),
        revealed.well_formed(),
        committed.spec_commitment() != revealed.spec_commitment(),
    ensures
        first_mismatch(
            seq![committed.spec_commitment()],
            seq![revealed.spec_public_nonces()],
            0,
        ),
{
}

/// The secret state of one participant after round 1: two secret nonces,
/// their public points, and the commitment to those points. It is neither
/// `Clone` nor `Copy`: round 3 takes it by value, so its nonces sign once.
pub struct Round1State {
    secret_nonces: (Scalar, Scalar),
    public_nonces: (Point, Point),
    commitment: NonceCommitment,
}

impl Round1State {
    /// The two secret nonces `r1`, `r2`.
    pub closed spec fn spec_secret_nonces(&self) -> (Seq<u8>, Seq<u8>) {
        (self.secret_nonces.0@, self.secret_nonces.1@)
    }

    /// The two public nonces `R1`, `R2`.
    pub closed spec fn spec_public_nonces(&self) -> (Seq<u8>, Seq<u8>) {
        (self.public_nonces.0@, self.public_nonces.1@)
    }

    /// The commitment to the public nonces.
    pub closed spec fn spec_commitment(&self) -> Seq<u8> {
        self.commitment@
    }

    /// The state is consistent: valid secret nonces, `R_k = r_k·G`, and the
    /// commitment is `H(R1 || R2)`.
    pub open spec fn well_formed(&self) -> bool {
        &&& valid_scalar(self.spec_secret_nonces().0)
        &&& valid_scalar(self.spec_secret_nonces().1)
        &&& self.spec_public_nonces().0 == base_mul_of(self.spec_secret_nonces().0)
        &&& self.spec_public_nonces().1 == base_mul_of(self.spec_secret_nonces().1)
        &&& self.spec_commitment() == commitment_of(
            self.spec_public_nonces().0,
            self.spec_public_nonces().1,
        )
    }

    /// The state for two drawn secret nonces: their public points
    /// `R_k = r_k·G` and the commitment `H(R1 || R2)`.
    pub fn from_secret_nonces(ctx: &Context, r1: Scalar, r2: Scalar) -> (r: Round1State)
        ensures
            r.spec_secret_nonces() == (r1@, r2@),
            r.well_formed(),
    {
        let (_, _) = (r1.bytes(), r2.bytes());
        let public1 = Point::from_secret(ctx, &r1);
        let public2 = Point::from_secret(ctx, &r2);
        let commitment = NonceCommitment::from_nonces(&public1, &public2);
        Round1State {
            secret_nonces: (r1, r2),
            public_nonces: (public1, public2),
            commitment,
        }
    }

    /// The secret nonces. They must never leave their owner.
    pub fn secret_nonces(&self) -> (r: &(Scalar, Scalar))
        ensures
            (r.0@, r.1@) == self.spec_secret_nonces(),
    {
        &self.secret_nonces
    }

    /// The public nonces, revealed in round 2.
    pub fn public_nonces(&self) -> (r: &(Point, Point))
        ensures
            (r.0@, r.1@) == self.spec_public_nonces(),
    {
        &self.public_nonces
    }

    /// The commitment, broadcast in round 1.
    pub fn commitment(&self) -> (r: &NonceCommitment)
        ensures
            r@ == self.spec_commitment(),
    {
        &self.commitment
    }
}

/// One participant's share of the signature, with the challenge it was made for.
#[derive(Debug, Clone, Copy, PartialEq, Eq)]
pub struct PartialSignature {
    challenge: Challenge,
    value: [u8; 32],
}

impl PartialSignature {
    /// The challenge `c` of the signing attempt.
    pub closed spec fn spec_challenge(&self) -> Seq<u8> {
        self.challenge@
    }

    /// The scalar `s_i`, 32 big-endian bytes.
    pub closed spec fn spec_value(&self) -> Seq<u8> {
        self.value@
    }

    /// The challenge `c` of the signing attempt.
    pub fn challenge(&self) -> (r: Challenge)
        ensures
            r@ == self.spec_challenge(),
    {
        self.challenge
    }

    /// The scalar `s_i`.
    pub fn to_bytes(&self) -> (r: [u8; 32])
        ensures
            r@ == self.spec_value(),
    {
        self.value
    }
}

/// A signing session over a fixed, ordered registry of participants.
/// The registry order is the canonical order: every signer must build its
/// session from the same list in the same order.
pub struct Session {
    participants: Vec<Participant>,
    ctx: Context,
}

impl Session {
    /// The public keys of the registry, in order.
    pub closed spec fn keys(&self) -> Seq<Seq<u8>> {
        self.participants@.map_values(|p: Participant| p.key())
    }

    /// A session over `participants`, in the order given.
    pub fn new(participants: Vec<Participant>) -> (r: Self)
        ensures
            r.keys() == participants@.map_values(|p: Participant| p.key()),
    {
        Session { participants, ctx: Context::new() }
    }

    /// The number of participants.
    pub fn participant_count(&self) -> (r: usize)
        ensures
            r == self.keys().len(),
    {
        self.participants.len()
    }

    /// The registry, in order.
    pub fn participants(&self) -> (r: &[Participant])
        ensures
            r@.map_values(|p: Participant| p.key()) == self.keys(),
    {
        self.participants.as_slice()
    }

    /// The curve context of this session.
    pub fn context(&self) -> (r: &Context) {
        &self.ctx
    }

    /// The concatenated encodings of all registry keys.
    fn key_list_bytes(&self) -> (r: Vec<u8>)
        ensures
            r@ == concat_all(self.keys()),
    {
        let ghost keys = self.keys();
        let mut all: Vec<u8> = Vec::new();
        let mut i: usize = 0;
        assert(keys.subrange(0, 0) == Seq::<Seq<u8>>::empty());
        while i < self.participants.len()
            invariant
                keys == self.keys(),
                i <= keys.len(),
                all@ == concat_all(keys.subrange(0, i as int)),
            decreases keys.len() - i,
        {
            append(&mut all, self.participants[i].public_key().encoding());
            assert(keys.subrange(0, i + 1 as int).drop_last() == keys.subrange(0, i as int));
            i = i + 1;
        }
        assert(keys.subrange(0, i as int) == keys);
        all
    }

    /// The key aggregation coefficient `a = H(L || X) mod n` of the key
    /// `pubkey`, where `L` is the digest of the registry's keys in order.
    pub fn key_agg_coefficient(&self, pubkey: &Point) -> (r: Coefficient)
        ensures
            r@ == coefficient_of(self.keys(), pubkey@),
    {
        let all = self.key_list_bytes();
        let list_digest = blake2b512(all.as_slice());
        let data = concat(list_digest.as_slice(), pubkey.encoding());
        let digest = blake2b512(data.as_slice());
        Coefficient::new(reduce_mod_order(&prefix_32(&digest)))
    }

    /// The aggregated public key `X = Σ a_i·X_i`, summed by real point
    /// arithmetic over the whole registry.
    pub fn aggregate_pubkeys(&self) -> (r: Result<Point, Error>)
        ensures
            self.keys().len() == 0 <==> r == Err::<Point, Error>(Error::NoParticipants),
            self.keys().len() > 0 ==> match r {
                Ok(p) => aggregate_key_of(self.keys()) == Some(p@),
                Err(e) => aggregate_key_of(self.keys()) is None && e is Crypto,
            },
    {
        if self.participants.len() == 0 {
            return Err(Error::NoParticipants);
        }
        let ghost keys = self.keys();
        let ghost terms = key_terms_of(keys);
        let mut computed: Vec<Vec<u8>> = Vec::new();
        let mut i: usize = 0;
        while i < self.participants.len()
            invariant
                keys == self.keys(),
                terms == key_terms_of(keys),
                i <= keys.len(),
                computed@.len() == i,
                forall|j: int| 0 <= j < i ==> terms[j] == Some(#[trigger] computed@[j]@),
            decreases keys.len() - i,
        {
            let pk = self.participants[i].public_key();
            let a = self.key_agg_coefficient(pk);
            match point_mul(&self.ctx, pk.encoding(), a.as_bytes()) {
                Ok(term) => {
                    computed.push(term);
                },
                Err(detail) => {
                    proof {
                        lemma_missing_term(terms, i as int);
                    }
                    return Err(crypto_error(detail));
                },
            }
            i = i + 1;
        }
        assert(present(computed@) =~= terms);
        match sum_points(&self.ctx, &computed) {
            Ok(sum) => Ok(Point::from_encoding(sum)),
            Err(e) => Err(e),
        }
    }

    /// Round 1: draws two fresh secret nonces `r1`, `r2` and builds the state
    /// holding `R1 = r1·G`, `R2 = r2·G` and the commitment `H(R1 || R2)`.
    pub fn round1_generate_nonces(&self) -> (r: Result<Round1State, Error>)
        ensures
            self.keys().len() == 0 <==> r == Err::<Round1State, Error>(Error::NoParticipants),
            self.keys().len() > 0 ==> r is Ok && r->Ok_0.well_formed(),
    {
        if self.participants.len() == 0 {
            return Err(Error::NoParticipants);
        }
        let secret1 = Scalar::from_valid(random_scalar(&self.ctx));
        let secret2 = Scalar::from_valid(random_scalar(&self.ctx));
        Ok(Round1State::from_secret_nonces(&self.ctx, secret1, secret2))
    }

    /// Round 2: checks each revealed nonce pair against the commitment at the
    /// same position, stopping at the first that fails, then aggregates
    /// `R = Σ (R1_i + R2_i)`.
    ///
    /// This is the simplified aggregation, without a per-participant nonce
    /// coefficient `b_i`: the result is a true group sum, but it gives less
    /// protection against nonce-bias attacks than full MuSig2.
    pub fn round2_aggregate_nonces(
        &self,
        commitments: &[NonceCommitment],
        revealed_nonces: &[(Point, Point)],
    ) -> (r: Result<Point, Error>)
        ensures
            ({
                let cs = commitment_views(commitments@);
                let rs = reveal_views(revealed_nonces@);
                &&& rs.len() == 0 ==> r == Err::<Point, Error>(Error::NoNonces)
                &&& rs.len() > 0 && cs.len() != rs.len() ==> r == Err::<Point, Error>(
                    Error::LengthMismatch {
                        commitments: commitments@.len() as usize,
                        reveals: revealed_nonces@.len() as usize,
                    },
                )
                &&& forall|i: int|
                    rs.len() > 0 && cs.len() == rs.len() && #[trigger] first_mismatch(cs, rs, i)
                        ==> r == Err::<Point, Error>(
                        Error::CommitmentMismatch { participant_index: i as usize },
                    )
                &&& rs.len() > 0 && cs.len() == rs.len() && all_open(cs, rs) ==> match r {
                    Ok(p) => aggregate_nonce_of(rs) == Some(p@),
                    Err(e) => aggregate_nonce_of(rs) is None && e is Crypto,
                }
            }),
    {
        let ghost cs = commitment_views(commitments@);
        let ghost rs = reveal_views(revealed_nonces@);
        if revealed_nonces.len() == 0 {
            return Err(Error::NoNonces);
        }
        if commitments.len() != revealed_nonces.len() {
            return Err(
                Error::LengthMismatch {
                    commitments: commitments.len(),
                    reveals: revealed_nonces.len(),
                },
            );
        }
        let n = revealed_nonces.len();
        let mut i: usize = 0;
        while i < n
            invariant
                n == rs.len(),
                n == cs.len(),
                cs == commitment_views(commitments@),
                rs == reveal_views(revealed_nonces@),
                i <= n,
                forall|j: int| 0 <= j < i ==> opens(cs[j], rs[j]),
            decreases n - i,
        {
            let pair = &revealed_nonces[i];
            if !commitments[i].verify(&pair.0, &pair.1) {
                assert(first_mismatch(cs, rs, i as int));
                assert forall|k: int| #[trigger] first_mismatch(cs, rs, k) implies k == i by {
                    if k < i {
                        assert(opens(cs[k], rs[k]));
                    } else if k > i {
                        assert(opens(cs[i as int], rs[i as int]));
                    }
                }
                return Err(Error::CommitmentMismatch { participant_index: i });
            }
            i = i + 1;
        }
        assert(all_open(cs, rs));
        assert forall|k: int| !first_mismatch(cs, rs, k) by {
            if 0 <= k < rs.len() {
                assert(opens(cs[k], rs[k]));
            }
        }
        let ghost terms = nonce_terms_of(rs);
        let mut computed: Vec<Vec<u8>> = Vec::new();
        let mut i: usize = 0;
        while i < n
            invariant
                n == rs.len(),
                n == cs.len(),
                cs == commitment_views(commitments@),
                rs == reveal_views(revealed_nonces@),
                all_open(cs, rs),
                forall|k: int| !first_mismatch(cs, rs, k),
                terms == nonce_terms_of(rs),
                i <= n,
                computed@.len() == i,
                forall|j: int| 0 <= j < i ==> terms[j] == Some(#[trigger] computed@[j]@),
            decreases n - i,
        {
            let pair = &revealed_nonces[i];
            match point_add(&self.ctx, pair.0.encoding(), pair.1.encoding()) {
                Ok(term) => {
                    computed.push(term);
                },
                Err(detail) => {
                    proof {
                        lemma_missing_term(terms, i as int);
                    }
                    return Err(crypto_error(detail));
                },
            }
            i = i + 1;
        }
        assert(present(computed@) =~= terms);
        match sum_points(&self.ctx, &computed) {
            Ok(sum) => Ok(Point::from_encoding(sum)),
            Err(e) => Err(e),
        }
    }

    /// Round 3: the challenge `c = H(X || R || m)` and the partial signature
    /// `s = r1 + r2 + c·a·x (mod n)`, where `x` is the signer's secret key and
    /// `a` the coefficient of its public key `x·G` in this registry. The
    /// round 1 state is consumed, so its nonces cannot sign a second time.
    pub fn round3_partial_sign(
        &self,
        message: &[u8; 32],
        secret_key: &Scalar,
        nonces: Round1State,
        agg_nonce: &Point,
        agg_pubkey: &Point,
    ) -> (r: Result<PartialSignature, Error>)
        ensures
            ({
                let c = challenge_of(agg_pubkey@, agg_nonce@, message@);
                let a = coefficient_of(self.keys(), base_mul_of(secret_key@));
                let (r1, r2) = nonces.spec_secret_nonces();
                &&& self.keys().len() == 0 <==> r == Err::<PartialSignature, Error>(
                    Error::NoParticipants,
                )
                &&& self.keys().len() > 0 ==> (r is Ok <==> partial_sign_defined(
                    r1,
                    r2,
                    c,
                    a,
                    secret_key@,
                ))
                &&& r is Ok ==> r->Ok_0.spec_challenge() == c
                &&& r is Ok ==> be_value(r->Ok_0.spec_value()) == partial_value_of(
                    r1,
                    r2,
                    c,
                    a,
                    secret_key@,
                )
                &&& r is Err && self.keys().len() > 0 ==> r->Err_0 is Crypto
            }),
    {
        if self.participants.len() == 0 {
            return Err(Error::NoParticipants);
        }
        let challenge = Challenge::from_message(agg_pubkey, agg_nonce, message);
        let own_key = Point::from_secret(&self.ctx, secret_key);
        let coefficient = self.key_agg_coefficient(&own_key);
        let x = secret_key.bytes();
        let ca = match scalar_mul(&self.ctx, challenge.as_bytes(), coefficient.as_bytes()) {
            Ok(v) => v,
            Err(detail) => return Err(crypto_error(detail)),
        };
        let cax = match scalar_mul(&self.ctx, &ca, x) {
            Ok(v) => v,
            Err(detail) => return Err(crypto_error(detail)),
        };
        let Round1State { secret_nonces, .. } = nonces;
        let nonce_sum = match scalar_add(&self.ctx, secret_nonces.0.bytes(), secret_nonces.1.bytes()) {
            Ok(v) => v,
            Err(detail) => return Err(crypto_error(detail)),
        };
        proof {
            let n = group_order() as int;
            let rr = (be_value(secret_nonces.0@) + be_value(secret_nonces.1@)) as int;
            let c = be_value(challenge@) as int;
            let a = be_value(coefficient@) as int;
            let xv = be_value(secret_key@) as int;
            lemma_mul_mod_noop_left(c * a, xv, n);
            lemma_add_mod_noop(rr, c * a * xv, n);
            lemma_mod_twice(rr, n);
            lemma_mod_twice(c * a * xv, n);
            lemma_add_mod_noop(rr % n, (c * a * xv) % n, n);
            assert(nonce_sum@.len() == 32);
        }
        let value = match scalar_add(&self.ctx, &nonce_sum, &cax) {
            Ok(v) => v,
            Err(detail) => return Err(crypto_error(detail)),
        };
        Ok(PartialSignature { challenge, value })
    }

    /// Adds the partial signatures of all signers: `s = Σ s_i (mod n)`.
    pub fn aggregate_partial_signatures(&self, partials: &[PartialSignature]) -> (r: Result<
        [u8; 32],
        Error,
    >)
        ensures
            ({
                let values = partials@.map_values(|p: PartialSignature| p.spec_value());
                &&& values.len() == 0 <==> r == Err::<[u8; 32], Error>(Error::NoSignatures)
                &&& values.len() > 0 ==> (r is Ok <==> partial_sums_defined(values))
                &&& r is Ok ==> be_value(r->Ok_0@) == value_sum_of(values) % group_order()
                &&& r is Err && values.len() > 0 ==> r->Err_0 is Crypto
            }),
    {
        if partials.len() == 0 {
            return Err(Error::NoSignatures);
        }
        let ghost values = partials@.map_values(|p: PartialSignature| p.spec_value());
        let first = partials[0].to_bytes();
        match check_scalar(&self.ctx, &first) {
            Ok(()) => {},
            Err(detail) => {
                assert(!valid_scalar(values[0]));
                return Err(crypto_error(detail));
            },
        }
        let mut acc: [u8; 32] = first;
        proof {
            vstd::arithmetic::div_mod::lemma_small_mod(be_value(first@), group_order());
            assert(values.subrange(0, 1).drop_last() == values.subrange(0, 0));
            assert(values[0] == first@);
            assert(value_sum_of(values.subrange(0, 0)) == 0);
            assert(value_sum_of(values.subrange(0, 1)) == be_value(first@));
        }
        let mut i: usize = 1;
        while i < partials.len()
            invariant
                values == partials@.map_values(|p: PartialSignature| p.spec_value()),
                1 <= i <= values.len(),
                be_value(acc@) == value_sum_of(values.subrange(0, i as int)) % group_order(),
                valid_scalar(acc@),
                forall|k: int| 0 <= k < i ==> valid_scalar(#[trigger] values[k]),
                forall|j: int|
                    1 <= j <= i ==> #[trigger] value_sum_of(values.subrange(0, j))
                        % group_order() != 0,
            decreases values.len() - i,
        {
            let next = partials[i].to_bytes();
            let ghost before = value_sum_of(values.subrange(0, i as int)) as int;
            proof {
                let n = group_order() as int;
                let v = be_value(next@) as int;
                assert(values[i as int] == next@);
                assert(values.subrange(0, i + 1 as int).drop_last() == values.subrange(0, i as int));
                assert(values.subrange(0, i + 1 as int).last() == next@);
                lemma_mod_twice(before, n);
                lemma_add_mod_noop(before % n, v, n);
                lemma_add_mod_noop(before, v, n);
                assert(value_sum_of(values.subrange(0, i + 1 as int)) == before + v);
            }
            acc = match scalar_add(&self.ctx, &acc, &next) {
                Ok(v) => v,
                Err(detail) => {
                    proof {
                        if valid_scalar(values[i as int]) {
                            assert(value_sum_of(values.subrange(0, i + 1 as int)) % group_order()
                                == 0);
                        }
                    }
                    return Err(crypto_error(detail));
                },
            };
            assert(acc@.len() == 32);
            i = i + 1;
        }
        assert(values.subrange(0, i as int) == values);
        Ok(acc)
    }

    /// Checks an aggregated signature: `s·G == R + c·X` with `c = H(X || R || m)`.
    pub fn verify_signature(
        &self,
        signature: &[u8; 32],
        agg_nonce: &Point,
        agg_pubkey: &Point,
        message: &[u8; 32],
    ) -> (r: Result<bool, Error>)
        ensures
            match r {
                Ok(b) => signature_check_of(signature@, agg_nonce@, agg_pubkey@, message@) == Some(
                    b,
                ),
                Err(e) => signature_check_of(signature@, agg_nonce@, agg_pubkey@, message@) is None
                    && e is Crypto,
            },
    {
        let challenge = Challenge::from_message(agg_pubkey, agg_nonce, message);
        let lhs = match base_mul(&self.ctx, signature) {
            Ok(p) => p,
            Err(detail) => return Err(crypto_error(detail)),
        };
        let cx = match point_mul(&self.ctx, agg_pubkey.encoding(), challenge.as_bytes()) {
            Ok(p) => p,
            Err(detail) => return Err(crypto_error(detail)),
        };
        let rhs = match point_add(&self.ctx, agg_nonce.encoding(), cx.as_slice()) {
            Ok(p) => p,
            Err(detail) => return Err(crypto_error(detail)),
        };
        Ok(bytes_equal(lhs.as_slice(), rhs.as_slice()))
    }
}

} // verus!
