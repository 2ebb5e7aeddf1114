//! The hash function and the secp256k1 group, as the protocol sees them.
//!
//! Points travel through the library as their 33-byte compressed encoding and
//! scalars as 32 big-endian bytes. Every curve operation is done by the
//! `secp256k1zkp` crate and every digest by the `blake2` crate; the functions
//! here convert between those plain values and the crates' own types. A
//! failure of the curve library comes back as the text of its error.
use vstd::prelude::*;

verus! {

#[verifier::external_type_specification]
#[verifier::external_body]
pub struct ExSecp256k1(secp256k1zkp::Secp256k1);

/// Relies on `Secp256k1::new`: a context able to sign and verify.
pub assume_specification[ secp256k1zkp::Secp256k1::new ]() -> secp256k1zkp::Secp256k1;

/// A curve context with full capabilities. It is only ever built by
/// `Secp256k1::new`, so no operation below fails for want of a capability.
pub struct Context {
    secp: secp256k1zkp::Secp256k1,
}

impl Context {
    /// A fresh context, able to sign and to verify.
    pub fn new() -> (r: Context) {
        Context { secp: secp256k1zkp::Secp256k1::new() }
    }
}

/// Length in bytes of a compressed point encoding.
pub const POINT_LEN: usize = 33;

/// Length in bytes of an encoded scalar.
pub const SCALAR_LEN: usize = 32;

/// The order `n` of the secp256k1 base point.
pub open spec fn group_order() -> nat {
    115792089237316195423570985008687907852837564279074904382605163141518161494337nat
}

/// The unsigned integer that a byte string encodes, most significant byte first.
pub open spec fn be_value(s: Seq<u8>) -> nat
    decreases s.len(),
{
    if s.len() == 0 {
        0
    } else {
        be_value(s.drop_last()) * 256 + s.last() as nat
    }
}

/// A usable secret scalar: 32 bytes encoding a value in `1 .. n`.
pub open spec fn valid_scalar(s: Seq<u8>) -> bool {
    &&& s.len() == SCALAR_LEN
    &&& 0 < be_value(s)
    &&& be_value(s) < group_order()
}

/// The BLAKE2b-512 digest of a byte string.
pub uninterp spec fn blake2b512_of(data: Seq<u8>) -> Seq<u8>;

/// The compressed encoding of `k·G`, for the base point `G`.
pub uninterp spec fn base_mul_of(k: Seq<u8>) -> Seq<u8>;

/// The compressed encoding of `k·P`, for the point `P` encoded by `p`.
pub uninterp spec fn point_mul_of(p: Seq<u8>, k: Seq<u8>) -> Seq<u8>;

/// The compressed encoding of the group sum of the points encoded by `a` and
/// `b`; `None` when one of them is no point or the sum is the point at infinity.
pub uninterp spec fn point_add_of(a: Seq<u8>, b: Seq<u8>) -> Option<Seq<u8>>;

/// The canonical compressed encoding of the point that `data` encodes, if any.
pub uninterp spec fn point_parse_of(data: Seq<u8>) -> Option<Seq<u8>>;

/// Relies on `blake2::Blake2b512`: a 64-byte digest of the input.
#[verifier::external_body]
pub(crate) fn blake2b512(data: &[u8]) -> (r: Vec<u8>)
    ensures
        r@ == blake2b512_of(data@),
        r@.len() == 64,
{
    <blake2::Blake2b512 as blake2::Digest>::digest(data).to_vec()
}

/// Relies on `PublicKey::from_slice`, which accepts exactly the encodings of
/// curve points, and on `PublicKey::serialize_vec` for the compressed form.
#[verifier::external_body]
pub(crate) fn parse_point(ctx: &Context, data: &[u8]) -> (r: Result<Vec<u8>, String>)
    ensures
        match r {
            Ok(p) => point_parse_of(data@) == Some(p@) && p@.len() == POINT_LEN,
            Err(_) => point_parse_of(data@) is None,
        },
{
    let secp = &ctx.secp;
    let pk = secp256k1zkp::PublicKey::from_slice(secp, data).map_err(|e| e.to_string())?;
    Ok(pk.serialize_vec(secp, true).to_vec())
}

/// Relies on `SecretKey::from_slice`, which accepts a 32-byte value in
/// `1 .. n` and nothing else.
#[verifier::external_body]
pub(crate) fn check_scalar(ctx: &Context, k: &[u8; 32]) -> (r: Result<(), String>)
    ensures
        r is Ok <==> valid_scalar(k@),
{
    secp256k1zkp::SecretKey::from_slice(&ctx.secp, k).map_err(|e| e.to_string())?;
    Ok(())
}

/// Relies on `SecretKey::new`, which draws from the generator until the
/// 32 bytes encode a value in `1 .. n`.
#[verifier::external_body]
pub(crate) fn random_scalar(ctx: &Context) -> (r: [u8; 32])
    ensures
        valid_scalar(r@),
{
    secp256k1zkp::SecretKey::new(&ctx.secp, &mut rand::thread_rng()).0
}

/// Relies on `SecretKey::from_slice` and on `PublicKey::from_secret_key`,
/// which succeeds on a valid key with a signing context.
#[verifier::external_body]
pub(crate) fn base_mul(ctx: &Context, k: &[u8; 32]) -> (r: Result<Vec<u8>, String>)
    ensures
        r is Ok <==> valid_scalar(k@),
        r is Ok ==> r->Ok_0@ == base_mul_of(k@) && r->Ok_0@.len() == POINT_LEN,
{
    let secp = &ctx.secp;
    let sk = secp256k1zkp::SecretKey::from_slice(secp, k).map_err(|e| e.to_string())?;
    let pk = secp256k1zkp::PublicKey::from_secret_key(secp, &sk).map_err(|e| e.to_string())?;
    Ok(pk.serialize_vec(secp, true).to_vec())
}

/// Relies on `PublicKey::mul_assign` for `k·P`. It fails only on a zero or
/// out-of-range tweak; as the group has prime order, `k·P` of a point and a
/// valid scalar is never the point at infinity.
#[verifier::external_body]
pub(crate) fn point_mul(ctx: &Context, p: &[u8], k: &[u8; 32]) -> (r: Result<Vec<u8>, String>)
    ensures
        r is Ok <==> (point_parse_of(p@) is Some && valid_scalar(k@)),
        r is Ok ==> r->Ok_0@ == point_mul_of(p@, k@) && r->Ok_0@.len() == POINT_LEN,
{
    let secp = &ctx.secp;
    let mut pk = secp256k1zkp::PublicKey::from_slice(secp, p).map_err(|e| e.to_string())?;
    let sk = secp256k1zkp::SecretKey::from_slice(secp, k).map_err(|e| e.to_string())?;
    pk.mul_assign(secp, &sk).map_err(|e| e.to_string())?;
    Ok(pk.serialize_vec(secp, true).to_vec())
}

/// Relies on `PublicKey::from_combination`, which fails only when the sum is
/// the point at infinity (or for want of a capability).
#[verifier::external_body]
pub(crate) fn point_add(ctx: &Context, a: &[u8], b: &[u8]) -> (r: Result<Vec<u8>, String>)
    ensures
        match r {
            Ok(s) => point_add_of(a@, b@) == Some(s@) && s@.len() == POINT_LEN,
            Err(_) => point_add_of(a@, b@) is None,
        },
{
    let secp = &ctx.secp;
    let pa = secp256k1zkp::PublicKey::from_slice(secp, a).map_err(|e| e.to_string())?;
    let pb = secp256k1zkp::PublicKey::from_slice(secp, b).map_err(|e| e.to_string())?;
    let sum = secp256k1zkp::PublicKey::from_combination(secp, vec![&pa, &pb]);
    Ok(sum.map_err(|e| e.to_string())?.serialize_vec(secp, true).to_vec())
}

/// Relies on `SecretKey::add_assign`: the sum modulo `n`, refused when it is zero.
#[verifier::external_body]
pub(crate) fn scalar_add(ctx: &Context, a: &[u8; 32], b: &[u8; 32]) -> (r: Result<[u8; 32], String>)
    ensures
        r is Ok <==> (valid_scalar(a@) && valid_scalar(b@) && (be_value(a@) + be_value(b@))
            % group_order() != 0),
        r is Ok ==> be_value(r->Ok_0@) == (be_value(a@) + be_value(b@)) % group_order(),
{
    let secp = &ctx.secp;
    let mut sa = secp256k1zkp::SecretKey::from_slice(secp, a).map_err(|e| e.to_string())?;
    let sb = secp256k1zkp::SecretKey::from_slice(secp, b).map_err(|e| e.to_string())?;
    sa.add_assign(secp, &sb).map_err(|e| e.to_string())?;
    Ok(sa.0)
}

/// Relies on `SecretKey::mul_assign`: the product modulo `n`. As `n` is prime,
/// the product of two valid scalars is again a valid scalar.
#[verifier::external_body]
pub(crate) fn scalar_mul(ctx: &Context, a: &[u8; 32], b: &[u8; 32]) -> (r: Result<[u8; 32], String>)
    ensures
        r is Ok <==> (valid_scalar(a@) && valid_scalar(b@)),
        r is Ok ==> be_value(r->Ok_0@) == (be_value(a@) * be_value(b@)) % group_order(),
        r is Ok ==> valid_scalar(r->Ok_0@),
{
    let secp = &ctx.secp;
    let mut sa = secp256k1zkp::SecretKey::from_slice(secp, a).map_err(|e| e.to_string())?;
    let sb = secp256k1zkp::SecretKey::from_slice(secp, b).map_err(|e| e.to_string())?;
    sa.mul_assign(secp, &sb).map_err(|e| e.to_string())?;
    Ok(sa.0)
}

} // verus!
