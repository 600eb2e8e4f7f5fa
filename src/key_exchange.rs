//! X25519 key agreement, from x25519-dalek.
use vstd::prelude::*;

verus! {

/// X25519 public key of a secret key.
pub uninterp spec fn x25519_public_of(sk: Seq<u8>) -> Seq<u8>;

/// X25519 shared secret of a secret key and a public key.
pub uninterp spec fn x25519_shared_of(sk: Seq<u8>, pk: Seq<u8>) -> Seq<u8>;

/// Relies on x25519_dalek: `PublicKey::from(&StaticSecret::from(sk))`, the 32-byte public key
/// of a secret key.
#[verifier::external_body]
pub(crate) fn x25519_public(sk: &[u8]) -> (r: Vec<u8>)
    requires
        sk@.len() == 32,
    ensures
        r@ == x25519_public_of(sk@),
        r@.len() == 32,
{
    let k: [u8; 32] = sk.try_into().unwrap();
    x25519_dalek::PublicKey::from(&x25519_dalek::StaticSecret::from(k)).to_bytes().to_vec()
}

/// Relies on x25519_dalek::StaticSecret::diffie_hellman: the 32-byte shared secret, which is
/// the same from either side of the agreement (both scalars are clamped).
#[verifier::external_body]
pub(crate) fn x25519_shared(sk: &[u8], pk: &[u8]) -> (r: Vec<u8>)
    requires
        sk@.len() == 32,
        pk@.len() == 32,
    ensures
        r@ == x25519_shared_of(sk@, pk@),
        r@.len() == 32,
        forall|a: Seq<u8>|
            a.len() == 32 && pk@ == #[trigger] x25519_public_of(a) ==> r@ == x25519_shared_of(a, x25519_public_of(sk@)),
{
    let k: [u8; 32] = sk.try_into().unwrap();
    let p: [u8; 32] = pk.try_into().unwrap();
    x25519_dalek::StaticSecret::from(k).diffie_hellman(&x25519_dalek::PublicKey::from(p)).to_bytes().to_vec()
}

} // verus!
