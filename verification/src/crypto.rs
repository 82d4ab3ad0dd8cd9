//! The cryptographic primitives that the handshake is built from.
//!
//! Each function makes one call into the crate that implements the primitive.
//! Results that are functions of their arguments have names, by which the
//! contracts of the callers speak of them.

use ed25519_dalek::{Signature, Signer, SigningKey, Verifier, VerifyingKey};
use hmac::{Hmac, KeyInit, Mac};
use rand::rngs::OsRng;
use rand::{Rng, RngCore};
use sha2::{Digest, Sha256};
use subtle::ConstantTimeEq;
use vstd::prelude::*;

verus! {

/// The HMAC-SHA256 of a message under a key.
pub uninterp spec fn hmac_sha256_of(key: Seq<u8>, message: Seq<u8>) -> Seq<u8>;

/// The SHA-256 digest of a message.
pub uninterp spec fn sha256_of(message: Seq<u8>) -> Seq<u8>;

/// The Ed25519 public key that belongs to a secret key.
pub uninterp spec fn ed25519_public_of(secret: Seq<u8>) -> Seq<u8>;

/// The Ed25519 signature of a message under a secret key.
pub uninterp spec fn ed25519_signature_of(secret: Seq<u8>, message: Seq<u8>) -> Seq<u8>;

/// Whether bytes are an Ed25519 public key.
pub uninterp spec fn ed25519_key_ok(key: Seq<u8>) -> bool;

/// Whether a signature of a message is good under a public key.
pub uninterp spec fn ed25519_accepts(key: Seq<u8>, message: Seq<u8>, signature: Seq<u8>) -> bool;

/// The point of Curve25519 that X25519 makes of a point and a secret.
pub uninterp spec fn x25519_of(secret: Seq<u8>, point: Seq<u8>) -> Seq<u8>;

/// The base point of X25519.
pub const BASE_POINT: [u8; 32] = [
    9, 0, 0, 0, 0, 0, 0, 0, 0, 0, 0, 0, 0, 0, 0, 0, 0, 0, 0, 0, 0, 0, 0, 0, 0, 0, 0, 0, 0, 0, 0, 0,
];

/// The X25519 public key that belongs to a secret.
pub open spec fn x25519_public_of(secret: Seq<u8>) -> Seq<u8> {
    x25519_of(secret, BASE_POINT@)
}

/// `hmac::Hmac::<sha2::Sha256>`, fed the whole message: 32 bytes that are a
/// function of key and message. A key of any size is accepted.
#[verifier::external_body]
pub(crate) fn hmac_sha256(key: &[u8; 32], message: &[u8]) -> (r: [u8; 32])
    ensures
        r@ == hmac_sha256_of(key@, message@),
{
    let mut mac = Hmac::<Sha256>::new_from_slice(key).unwrap();
    mac.update(message);
    mac.finalize().into_bytes().into()
}

/// `sha2::Sha256::digest`: 32 bytes that are a function of the message.
#[verifier::external_body]
pub(crate) fn sha256(message: &[u8]) -> (r: [u8; 32])
    ensures
        r@ == sha256_of(message@),
{
    Sha256::digest(message).into()
}

/// `subtle::ConstantTimeEq::ct_eq` on byte slices: whether they are the same.
#[verifier::external_body]
pub(crate) fn ct_eq(a: &[u8], b: &[u8]) -> (r: bool)
    ensures
        r <==> a@ == b@,
{
    a.ct_eq(b).into()
}

/// `ed25519_dalek::SigningKey::verifying_key`, on keys as bytes. What it gives is
/// a public key that `VerifyingKey::from_bytes` takes.
#[verifier::external_body]
pub(crate) fn ed25519_public(secret: &[u8; 32]) -> (r: [u8; 32])
    ensures
        r@ == ed25519_public_of(secret@),
        ed25519_key_ok(r@),
{
    SigningKey::from_bytes(secret).verifying_key().to_bytes()
}

/// `ed25519_dalek::SigningKey::sign`, on keys and signatures as bytes. The
/// signature is a function of key and message, and good under the public key.
#[verifier::external_body]
pub(crate) fn ed25519_sign(secret: &[u8; 32], message: &[u8]) -> (r: [u8; 64])
    ensures
        r@ == ed25519_signature_of(secret@, message@),
        ed25519_accepts(ed25519_public_of(secret@), message@, r@),
{
    SigningKey::from_bytes(secret).sign(message).to_bytes()
}

/// `ed25519_dalek::VerifyingKey::from_bytes`: whether the bytes are a public key.
#[verifier::external_body]
pub(crate) fn ed25519_is_key(key: &[u8; 32]) -> (r: bool)
    ensures
        r == ed25519_key_ok(key@),
{
    VerifyingKey::from_bytes(key).is_ok()
}

/// `ed25519_dalek::VerifyingKey::verify`, on keys and signatures as bytes:
/// whether the signature is good. No signature is, under bytes that are no key.
#[verifier::external_body]
pub(crate) fn ed25519_verify(key: &[u8; 32], message: &[u8], signature: &[u8; 64]) -> (r: bool)
    ensures
        r == ed25519_accepts(key@, message@, signature@),
{
    match VerifyingKey::from_bytes(key) {
        Ok(k) => k.verify(message, &Signature::from_bytes(signature)).is_ok(),
        Err(_) => false,
    }
}

/// `x25519_dalek::x25519`: 32 bytes that are a function of secret and point.
/// Multiplications commute: where the point is the public key of some secret, the
/// holder of that secret gets the same bytes out of this secret's public key.
#[verifier::external_body]
pub(crate) fn x25519(secret: [u8; 32], point: [u8; 32]) -> (r: [u8; 32])
    ensures
        r@ == x25519_of(secret@, point@),
        forall|other: [u8; 32]|
            point@ == #[trigger] x25519_public_of(other@) ==> r@ == x25519_of(
                other@,
                x25519_public_of(secret@),
            ),
{
    x25519_dalek::x25519(secret, point)
}

/// `rand::RngCore::fill_bytes` on the system's generator: 32 random bytes.
/// Nothing is said of them, since they differ from call to call.
#[verifier::external_body]
pub(crate) fn random_secret() -> (r: [u8; 32])
{
    let mut secret = [0u8; 32];
    OsRng.fill_bytes(&mut secret);
    secret
}

/// `rand::Rng::fill` from the thread's generator: eight random bytes. Nothing
/// is said of them, since they differ from call to call.
#[verifier::external_body]
pub(crate) fn random_bytes() -> (r: [u8; 8])
{
    let mut token = [0u8; 8];
    rand::thread_rng().fill(&mut token);
    token
}

/// Whether a draw may turn out as `drawn` when `numerator` out of `denominator`
/// are to be true: with none of them it is false, with all of them true.
pub open spec fn ratio_allows(numerator: u32, denominator: u32, drawn: bool) -> bool {
    &&& numerator == 0 ==> !drawn
    &&& numerator == denominator ==> drawn
}

/// `rand::Rng::gen_ratio` on the thread's generator: true with the probability
/// `numerator` out of `denominator`, so never for none and always for all. Of
/// the rest nothing is said, since it differs from call to call.
#[verifier::external_body]
pub(crate) fn random_ratio(numerator: u32, denominator: u32) -> (r: bool)
    requires
        0 < denominator,
        numerator <= denominator,
    ensures
        ratio_allows(numerator, denominator, r),
{
    rand::thread_rng().gen_ratio(numerator, denominator)
}

} // verus!
