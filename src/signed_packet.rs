//! `SignedPacket` message content: a public and a masked payload, signed by their publisher.
//!
//! ```ddml
//! message SignedPacket {
//!     join link msgid;
//!     absorb u8 signer_pk[32];
//!     absorb u32 n_public; absorb u8 public_payload[n_public];
//!     absorb u32 n_masked; mask u8 masked_payload[n_masked];
//!     commit;
//!     squeeze external u8 digest[64];
//!     ed25519(signer_sk, digest) u8 signature[64];
//! }
//! ```
use vstd::prelude::*;
use crate::bytes::{append, be4, be4_value, copy_range, lemma_be4_value_be4, push_be4, read_be4};
use crate::error::Error;
use crate::message::{MSGID_SIZE, PK_SIZE, SIGNATURE_SIZE};
use crate::signature::{ed25519_public, ed25519_sign, ed25519_verify, ed_public_of, ed_signature_of, ed_verifies};
use crate::sponge::{Op, Spongos};

verus! {

pub open spec fn signed_mask_state(h0: Seq<Op>, link: Seq<u8>, signer: Seq<u8>, public: Seq<u8>) -> Seq<Op> {
    h0.push(Op::Absorb(link)).push(Op::Absorb(signer)).push(Op::Absorb(public))
}

pub open spec fn signed_digest_state(h0: Seq<Op>, link: Seq<u8>, signer: Seq<u8>, public: Seq<u8>, masked: Seq<u8>) -> Seq<Op> {
    signed_mask_state(h0, link, signer, public).push(Op::Mask(masked)).push(Op::Commit)
}

/// The digest that the publisher signs.
pub open spec fn signed_digest<F: Spongos>(h0: Seq<Op>, link: Seq<u8>, signer: Seq<u8>, public: Seq<u8>, masked: Seq<u8>) -> Seq<u8> {
    F::squeezed(signed_digest_state(h0, link, signer, public, masked), SIGNATURE_SIZE)
}

pub open spec fn signed_final(h0: Seq<Op>, link: Seq<u8>, signer: Seq<u8>, public: Seq<u8>, masked: Seq<u8>) -> Seq<Op> {
    signed_digest_state(h0, link, signer, public, masked).push(Op::Squeeze(SIGNATURE_SIZE))
}

/// Bytes of a signed packet carrying signature `sig`.
pub open spec fn signed_bytes<F: Spongos>(
    h0: Seq<Op>,
    link: Seq<u8>,
    signer: Seq<u8>,
    public: Seq<u8>,
    masked: Seq<u8>,
    sig: Seq<u8>,
) -> Seq<u8> {
    link + signer + be4(public.len() as u32) + public + be4(masked.len() as u32) + F::masked(
        signed_mask_state(h0, link, signer, public),
        masked,
    ) + sig
}

/// Link, signer, public payload, masked payload and signature read from `b` from sponge state
/// `h0`; the signature is not checked here.
pub open spec fn signed_parse<F: Spongos>(h0: Seq<Op>, b: Seq<u8>) -> Result<(Seq<u8>, Seq<u8>, Seq<u8>, Seq<u8>, Seq<u8>), Error> {
    if b.len() < 48 {
        Err(Error::Malformed)
    } else {
        let n_pub = be4_value(b.subrange(44, 48)) as int;
        if b.len() < 52 + n_pub {
            Err(Error::Malformed)
        } else {
            let n_masked = be4_value(b.subrange(48 + n_pub, 52 + n_pub)) as int;
            if b.len() != 52 + n_pub + n_masked + SIGNATURE_SIZE {
                Err(Error::Malformed)
            } else {
                let link = b.subrange(0, 12);
                let signer = b.subrange(12, 44);
                let public = b.subrange(48, 48 + n_pub);
                let masked = F::unmasked(
                    signed_mask_state(h0, link, signer, public),
                    b.subrange(52 + n_pub, 52 + n_pub + n_masked),
                );
                Ok((link, signer, public, masked, b.subrange(52 + n_pub + n_masked, b.len() as int)))
            }
        }
    }
}

/// Content of a signed packet.
pub struct SignedContent {
    pub link: Vec<u8>,
    pub signer: Vec<u8>,
    pub public_payload: Vec<u8>,
    pub masked_payload: Vec<u8>,
}

/// Writes a signed packet to `out`, starting from the (already joined) sponge `s`, signed with
/// secret key `sk`.
pub fn wrap_signed<F: Spongos>(s: &mut F, link: &[u8], sk: &[u8], public: &[u8], masked: &[u8], out: &mut Vec<u8>)
    requires
        sk@.len() == 32,
        public@.len() <= u32::MAX,
        masked@.len() <= u32::MAX,
    ensures
        final(out)@ == old(out)@ + signed_bytes::<F>(
            old(s).history(),
            link@,
            ed_public_of(sk@),
            public@,
            masked@,
            ed_signature_of(sk@, signed_digest::<F>(old(s).history(), link@, ed_public_of(sk@), public@, masked@)),
        ),
        final(s).history() == signed_final(old(s).history(), link@, ed_public_of(sk@), public@, masked@),
{
    let ghost out0 = out@;
    let signer = ed25519_public(sk);
    append(out, link);
    s.absorb(link);
    append(out, signer.as_slice());
    s.absorb(signer.as_slice());
    push_be4(out, public.len() as u32);
    append(out, public);
    s.absorb(public);
    push_be4(out, masked.len() as u32);
    let c = s.encrypt(masked);
    append(out, c.as_slice());
    s.commit();
    let digest = s.squeeze(SIGNATURE_SIZE);
    let sig = ed25519_sign(sk, digest.as_slice());
    append(out, sig.as_slice());
    assert(out@ =~= out0 + signed_bytes::<F>(
        old(s).history(),
        link@,
        signer@,
        public@,
        masked@,
        sig@,
    ));
}

/// Reads a signed packet from `b`, starting from the (already joined) sponge `s`, and checks
/// its signature: `SignatureVerificationFailed` where it does not verify. A signature that the
/// signer's secret key made on the digest always verifies.
pub fn unwrap_signed<F: Spongos>(s: &mut F, b: &[u8]) -> (r: Result<SignedContent, Error>)
    ensures
        match signed_parse::<F>(old(s).history(), b@) {
            Ok((link, signer, public, masked, sig)) => {
                &&& r matches Ok(c) ==> c.link@ == link && c.signer@ == signer && c.public_payload@ == public
                    && c.masked_payload@ == masked && final(s).history() == signed_final(
                    old(s).history(),
                    link,
                    signer,
                    public,
                    masked,
                )
                &&& r is Err ==> r == Err::<SignedContent, Error>(Error::SignatureVerificationFailed)
                &&& r is Ok <==> ed_verifies(signer, signed_digest::<F>(old(s).history(), link, signer, public, masked), sig)
                &&& (exists|sk: Seq<u8>|
                    sk.len() == 32 && signer == #[trigger] ed_public_of(sk) && sig == ed_signature_of(
                        sk,
                        signed_digest::<F>(old(s).history(), link, signer, public, masked),
                    )) ==> r is Ok
            },
            Err(e) => r == Err::<SignedContent, Error>(e),
        },
{
    let bl: usize = b.len();
    let blen = bl as u64;
    if blen < 48 {
        return Err(Error::Malformed);
    }
    let n_pub = read_be4(b, 44) as u64;
    if blen < 52 + n_pub {
        return Err(Error::Malformed);
    }
    let n_masked = read_be4(b, (48 + n_pub) as usize) as u64;
    if blen != 52 + n_pub + n_masked + 64 {
        return Err(Error::Malformed);
    }
    let link = copy_range(b, 0, MSGID_SIZE);
    let signer = copy_range(b, MSGID_SIZE, PK_SIZE);
    let public = copy_range(b, 48, n_pub as usize);
    let c = copy_range(b, (52 + n_pub) as usize, n_masked as usize);
    let sig = copy_range(b, (52 + n_pub + n_masked) as usize, SIGNATURE_SIZE);
    s.absorb(link.as_slice());
    s.absorb(signer.as_slice());
    s.absorb(public.as_slice());
    let masked = s.decrypt(c.as_slice());
    s.commit();
    let digest = s.squeeze(SIGNATURE_SIZE);
    if !ed25519_verify(signer.as_slice(), digest.as_slice(), sig.as_slice()) {
        return Err(Error::SignatureVerificationFailed);
    }
    Ok(SignedContent { link, signer, public_payload: public, masked_payload: masked })
}

/// Round trip: a signed packet read from the state it was written from yields the link, the
/// signer and both payloads that were written, and its signature is the signer's signature of
/// the digest that the reader recomputes, so that it verifies.
pub proof fn lemma_signed_round_trip<F: Spongos>(
    h0: Seq<Op>,
    link: Seq<u8>,
    sk: Seq<u8>,
    public: Seq<u8>,
    masked: Seq<u8>,
    signer: Seq<u8>,
    sig: Seq<u8>,
)
    requires
        link.len() == MSGID_SIZE,
        signer.len() == PK_SIZE,
        sig.len() == SIGNATURE_SIZE,
        public.len() <= u32::MAX,
        masked.len() <= u32::MAX,
        signer == ed_public_of(sk),
        sig == ed_signature_of(sk, signed_digest::<F>(h0, link, signer, public, masked)),
    ensures
        signed_parse::<F>(h0, signed_bytes::<F>(h0, link, signer, public, masked, sig)) == Ok::<
            (Seq<u8>, Seq<u8>, Seq<u8>, Seq<u8>, Seq<u8>),
            Error,
        >((link, signer, public, masked, sig)),
        sig == ed_signature_of(sk, signed_digest::<F>(h0, link, signer, public, masked)),
{
    let b = signed_bytes::<F>(h0, link, signer, public, masked, sig);
    let np = public.len() as int;
    let nm = masked.len() as int;
    let c = F::masked(signed_mask_state(h0, link, signer, public), masked);
    lemma_be4_value_be4(public.len() as u32);
    lemma_be4_value_be4(masked.len() as u32);
    F::lemma_unmask_masked(signed_mask_state(h0, link, signer, public), masked);
    assert(b.subrange(44, 48) =~= be4(public.len() as u32));
    assert(b.subrange(48 + np, 52 + np) =~= be4(masked.len() as u32));
    assert(b.subrange(0, 12) =~= link);
    assert(b.subrange(12, 44) =~= signer);
    assert(b.subrange(48, 48 + np) =~= public);
    assert(b.subrange(52 + np, 52 + np + nm) =~= c);
    assert(b.subrange(52 + np + nm, b.len() as int) =~= sig);
}

} // verus!
