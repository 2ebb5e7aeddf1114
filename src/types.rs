//! Values exchanged in the protocol: identifiers, points, scalars and the
//! digests that bind them.
use vstd::prelude::*;

use crate::crypto::{
    base_mul, base_mul_of, blake2b512, blake2b512_of, check_scalar, parse_point, point_parse_of,
    valid_scalar, Context, POINT_LEN,
};
use crate::error::{crypto_error, Error};

verus! {

/// Label of one signer. Only equality and order are meaningful.
#[derive(Clone, Copy, Debug, PartialEq, Eq, Structural, PartialOrd, Ord, Hash)]
pub struct ParticipantId(pub u32);

impl ParticipantId {
    /// Wraps a raw identifier.
    pub fn new(id: u32) -> (r: Self)
        ensures
            r.0 == id,
    {
        ParticipantId(id)
    }

    /// The raw identifier.
    pub fn inner(&self) -> (r: u32)
        ensures
            r == self.0,
    {
        self.0
    }
}

/// `data` followed by `more`, in a new vector.
pub(crate) fn concat(data: &[u8], more: &[u8]) -> (r: Vec<u8>)
    ensures
        r@ == data@ + more@,
{
    let mut r: Vec<u8> = Vec::new();
    append(&mut r, data);
    append(&mut r, more);
    r
}

/// Appends the bytes of `more` to `out`.
pub(crate) fn append(out: &mut Vec<u8>, more: &[u8])
    ensures
        final(out)@ == old(out)@ + more@,
{
    let mut i: usize = 0;
    while i < more.len()
        invariant
            i <= more@.len(),
            out@ == old(out)@ + more@.subrange(0, i as int),
        decreases more@.len() - i,
    {
        out.push(more[i]);
        i = i + 1;
        assert(more@.subrange(0, i as int) == more@.subrange(0, i - 1 as int).push(more@[i - 1]));
    }
    assert(more@.subrange(0, i as int) == more@);
}

/// The first 32 bytes of `data`.
pub(crate) fn prefix_32(data: &Vec<u8>) -> (r: [u8; 32])
    requires
        data@.len() >= 32,
    ensures
        r@ == data@.subrange(0, 32),
{
    let mut r = [0u8; 32];
    let mut i: usize = 0;
    while i < 32
        invariant
            i <= 32,
            data@.len() >= 32,
            r@.len() == 32,
            forall|j: int| 0 <= j < i ==> r@[j] == data@[j],
        decreases 32 - i,
    {
        r.set(i, data[i]);
        i = i + 1;
    }
    assert(r@ == data@.subrange(0, 32));
    r
}

/// The first 64 bytes of `data`.
pub(crate) fn prefix_64(data: &Vec<u8>) -> (r: [u8; 64])
    requires
        data@.len() >= 64,
    ensures
        r@ == data@.subrange(0, 64),
{
    let mut r = [0u8; 64];
    let mut i: usize = 0;
    while i < 64
        invariant
            i <= 64,
            data@.len() >= 64,
            r@.len() == 64,
            forall|j: int| 0 <= j < i ==> r@[j] == data@[j],
        decreases 64 - i,
    {
        r.set(i, data[i]);
        i = i + 1;
    }
    assert(r@ == data@.subrange(0, 64));
    r
}

/// Whether two byte strings are equal.
pub(crate) fn bytes_equal(a: &[u8], b: &[u8]) -> (r: bool)
    ensures
        r == (a@ == b@),
{
    if a.len() != b.len() {
        return false;
    }
    let mut i: usize = 0;
    while i < a.len()
        invariant
            a@.len() == b@.len(),
            i <= a@.len(),
            forall|j: int| 0 <= j < i ==> a@[j] == b@[j],
        decreases a@.len() - i,
    {
        if a[i] != b[i] {
            return false;
        }
        i = i + 1;
    }
    assert(a@ == b@);
    true
}

/// A point of the curve, held as its canonical 33-byte compressed encoding.
#[derive(Clone, Debug, PartialEq, Eq)]
pub struct Point {
    encoding: Vec<u8>,
}

impl View for Point {
    type V = Seq<u8>;

    closed spec fn view(&self) -> Seq<u8> {
        self.encoding@
    }
}

impl Point {
    /// Reads a point from an encoding, compressed or not. The result holds
    /// the canonical compressed form.
    pub fn from_bytes(ctx: &Context, data: &[u8]) -> (r: Result<Point, Error>)
        ensures
            match r {
                Ok(p) => point_parse_of(data@) == Some(p@) && p@.len() == POINT_LEN,
                Err(e) => point_parse_of(data@) is None && e is Crypto,
            },
    {
        match parse_point(ctx, data) {
            Ok(encoding) => Ok(Point { encoding }),
            Err(detail) => Err(crypto_error(detail)),
        }
    }

    /// The public point `k·G` of a secret scalar.
    pub fn from_secret(ctx: &Context, k: &Scalar) -> (r: Point)
        ensures
            r@ == base_mul_of(k@),
            r@.len() == POINT_LEN,
    {
        proof {
            use_type_invariant(k);
        }
        match base_mul(ctx, &k.bytes) {
            Ok(encoding) => Point { encoding },
            Err(_) => {
                proof {
                    assert(false);
                }
                Point { encoding: Vec::new() }
            },
        }
    }

    /// The compressed encoding.
    pub fn to_bytes(&self) -> (r: Vec<u8>)
        ensures
            r@ == self@,
    {
        self.encoding.clone()
    }

    pub(crate) fn encoding(&self) -> (r: &[u8])
        ensures
            r@ == self@,
    {
        self.encoding.as_slice()
    }

    pub(crate) fn from_encoding(encoding: Vec<u8>) -> (r: Point)
        ensures
            r@ == encoding@,
    {
        Point { encoding }
    }
}

/// A secret scalar: 32 big-endian bytes encoding a value in `1 .. n`.
/// It is neither `Clone`, `Copy` nor `Debug`: a secret nonce is used once
/// and no secret is printed.
pub struct Scalar {
    bytes: [u8; 32],
}

impl Scalar {
    #[verifier::type_invariant]
    spec fn inv(&self) -> bool {
        valid_scalar(self.bytes@)
    }
}

impl View for Scalar {
    type V = Seq<u8>;

    closed spec fn view(&self) -> Seq<u8> {
        self.bytes@
    }
}

impl Scalar {
    /// Accepts 32 bytes that encode a value in `1 .. n`.
    pub fn from_bytes(ctx: &Context, bytes: [u8; 32]) -> (r: Result<
        Scalar,
        Error,
    >)
        ensures
            r is Ok <==> valid_scalar(bytes@),
            r is Ok ==> r->Ok_0@ == bytes@,
            r is Err ==> r->Err_0 is Crypto,
    {
        match check_scalar(ctx, &bytes) {
            Ok(()) => Ok(Scalar { bytes }),
            Err(detail) => Err(crypto_error(detail)),
        }
    }

    pub(crate) fn bytes(&self) -> (r: &[u8; 32])
        ensures
            r@ == self@,
            valid_scalar(r@),
    {
        proof {
            use_type_invariant(self);
        }
        &self.bytes
    }

    pub(crate) fn from_valid(bytes: [u8; 32]) -> (r: Scalar)
        requires
            valid_scalar(bytes@),
        ensures
            r@ == bytes@,
    {
        Scalar { bytes }
    }
}

/// Key aggregation coefficient `a_i` of one participant (32 bytes).
#[derive(Debug, Clone, Copy, PartialEq, Eq)]
pub struct Coefficient([u8; 32]);

impl View for Coefficient {
    type V = Seq<u8>;

    closed spec fn view(&self) -> Seq<u8> {
        self.0@
    }
}

impl Coefficient {
    /// Wraps raw bytes.
    pub fn new(bytes: [u8; 32]) -> (r: Self)
        ensures
            r@ == bytes@,
    {
        Coefficient(bytes)
    }

    /// The raw bytes.
    pub fn as_bytes(&self) -> (r: &[u8; 32])
        ensures
            r@ == self@,
    {
        &self.0
    }
}

/// The commitment to a pair of public nonces: `H(R1 || R2)`.
pub open spec fn commitment_of(r1: Seq<u8>, r2: Seq<u8>) -> Seq<u8> {
    blake2b512_of(r1 + r2)
}

/// Commitment to a pair of public nonces (64 bytes of BLAKE2b-512).
#[derive(Debug, Clone, Copy, PartialEq, Eq)]
pub struct NonceCommitment([u8; 64]);

impl View for NonceCommitment {
    type V = Seq<u8>;

    closed spec fn view(&self) -> Seq<u8> {
        self.0@
    }
}

impl NonceCommitment {
    /// Wraps raw bytes.
    pub fn new(bytes: [u8; 64]) -> (r: Self)
        ensures
            r@ == bytes@,
    {
        NonceCommitment(bytes)
    }

    /// The commitment `H(R1 || R2)` to two public nonces.
    pub fn from_nonces(r1: &Point, r2: &Point) -> (r: Self)
        ensures
            r@ == commitment_of(r1@, r2@),
    {
        let data = concat(r1.encoding(), r2.encoding());
        let digest = blake2b512(data.as_slice());
        let r = NonceCommitment(prefix_64(&digest));
        assert(digest@.subrange(0, 64) == digest@);
        r
    }

    /// The raw bytes.
    pub fn as_bytes(&self) -> (r: &[u8; 64])
        ensures
            r@ == self@,
    {
        &self.0
    }

    /// Whether this commitment binds exactly the nonces `r1`, `r2`.
    pub fn verify(&self, r1: &Point, r2: &Point) -> (r: bool)
        ensures
            r == (self@ == commitment_of(r1@, r2@)),
    {
        let computed = NonceCommitment::from_nonces(r1, r2);
        bytes_equal(self.0.as_slice(), computed.0.as_slice())
    }
}

/// The challenge `c = H(X || R || m)`, cut to 32 bytes.
pub open spec fn challenge_of(agg_pubkey: Seq<u8>, agg_nonce: Seq<u8>, message: Seq<u8>) -> Seq<
    u8,
> {
    blake2b512_of(agg_pubkey + agg_nonce + message).subrange(0, 32)
}

/// Fiat-Shamir challenge (32 bytes).
#[derive(Debug, Clone, Copy, PartialEq, Eq)]
pub struct Challenge([u8; 32]);

impl View for Challenge {
    type V = Seq<u8>;

    closed spec fn view(&self) -> Seq<u8> {
        self.0@
    }
}

impl Challenge {
    /// Wraps raw bytes.
    pub fn new(bytes: [u8; 32]) -> (r: Self)
        ensures
            r@ == bytes@,
    {
        Challenge(bytes)
    }

    /// The challenge for an aggregated key, an aggregated nonce and a 32-byte message.
    pub fn from_message(agg_pubkey: &Point, agg_nonce: &Point, message: &[u8; 32]) -> (r: Self)
        ensures
            r@ == challenge_of(agg_pubkey@, agg_nonce@, message@),
            r@.len() == 32,
    {
        let head = concat(agg_pubkey.encoding(), agg_nonce.encoding());
        let data = concat(head.as_slice(), message.as_slice());
        let digest = blake2b512(data.as_slice());
        Challenge(prefix_32(&digest))
    }

    /// The raw bytes.
    pub fn as_bytes(&self) -> (r: &[u8; 32])
        ensures
            r@ == self@,
    {
        &self.0
    }
}

} // verus!
