//! Ed25519 signatures, from ed25519-dalek.
use vstd::prelude::*;
use ed25519_dalek::{Signer, Verifier};

verus! {

/// Ed25519 public key of a secret key.
pub uninterp spec fn ed_public_of(sk: Seq<u8>) -> Seq<u8>;

/// Ed25519 signature of `msg` under a secret key.
pub uninterp spec fn ed_signature_of(sk: Seq<u8>, msg: Seq<u8>) -> Seq<u8>;

/// Whether `sig` verifies as the Ed25519 signature of `msg` under public key `pk`.
pub uninterp spec fn ed_verifies(pk: Seq<u8>, msg: Seq<u8>, sig: Seq<u8>) -> bool;

/// Relies on ed25519_dalek::SigningKey::from_bytes and verifying_key: the 32-byte public key
/// of a 32-byte secret key, which depends on the secret key alone.
#[verifier::external_body]
pub(crate) fn ed25519_public(sk: &[u8]) -> (r: Vec<u8>)
    requires
        sk@.len() == 32,
    ensures
        r@ == ed_public_of(sk@),
        r@.len() == 32,
{
    let k: [u8; 32] = sk.try_into().unwrap();
    ed25519_dalek::SigningKey::from_bytes(&k).verifying_key().to_bytes().to_vec()
}

/// Relies on ed25519_dalek's `Signer::sign` for `SigningKey`: the deterministic 64-byte
/// signature of `msg`.
#[verifier::external_body]
pub(crate) fn ed25519_sign(sk: &[u8], msg: &[u8]) -> (r: Vec<u8>)
    requires
        sk@.len() == 32,
    ensures
        r@ == ed_signature_of(sk@, msg@),
        r@.len() == 64,
{
    let k: [u8; 32] = sk.try_into().unwrap();
    ed25519_dalek::SigningKey::from_bytes(&k).sign(msg).to_bytes().to_vec()
}

/// Relies on ed25519_dalek::VerifyingKey::from_bytes and `Verifier::verify`: the verdict
/// depends on the key, the message and the signature alone, and a signature that the secret
/// key of `pk` made on `msg` verifies.
#[verifier::external_body]
pub(crate) fn ed25519_verify(pk: &[u8], msg: &[u8], sig: &[u8]) -> (r: bool)
    requires
        pk@.len() == 32,
        sig@.len() == 64,
    ensures
        r == ed_verifies(pk@, msg@, sig@),
        forall|sk: Seq<u8>|
            sk.len() == 32 && pk@ == #[trigger] ed_public_of(sk) && sig@ == ed_signature_of(sk, msg@) ==> r,
{
    let k: [u8; 32] = pk.try_into().unwrap();
    let s: [u8; 64] = sig.try_into().unwrap();
    match ed25519_dalek::VerifyingKey::from_bytes(&k) {
        Ok(v) => v.verify(msg, &ed25519_dalek::Signature::from_bytes(&s)).is_ok(),
        Err(_) => false,
    }
}

} // verus!
