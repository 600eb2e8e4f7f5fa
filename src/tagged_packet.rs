//! `TaggedPacket` message content: a public and a masked payload, authenticated by a tag that
//! only readers of the parent's state can recompute.
//!
//! ```ddml
//! message TaggedPacket {
//!     join link msgid;
//!     absorb u32 n_public; absorb u8 public_payload[n_public];
//!     absorb u32 n_masked; mask u8 masked_payload[n_masked];
//!     commit;
//!     squeeze u8 mac[32];
//! }
//! ```
use vstd::prelude::*;
use crate::bytes::{append, be4, be4_value, bytes_eq, copy_range, lemma_be4_value_be4, push_be4, read_be4};
use crate::error::Error;
use crate::message::{MAC_SIZE, MSGID_SIZE};
use crate::sponge::{Op, Spongos};

verus! {

/// State under which the masked payload is encrypted.
pub open spec fn tagged_mask_state(h0: Seq<Op>, link: Seq<u8>, public: Seq<u8>) -> Seq<Op> {
    h0.push(Op::Absorb(link)).push(Op::Absorb(public))
}

/// State from which the tag is squeezed.
pub open spec fn tagged_mac_state(h0: Seq<Op>, link: Seq<u8>, public: Seq<u8>, masked: Seq<u8>) -> Seq<Op> {
    tagged_mask_state(h0, link, public).push(Op::Mask(masked)).push(Op::Commit)
}

pub open spec fn tagged_final(h0: Seq<Op>, link: Seq<u8>, public: Seq<u8>, masked: Seq<u8>) -> Seq<Op> {
    tagged_mac_state(h0, link, public, masked).push(Op::Squeeze(MAC_SIZE))
}

pub open spec fn tagged_bytes<F: Spongos>(h0: Seq<Op>, link: Seq<u8>, public: Seq<u8>, masked: Seq<u8>) -> Seq<u8> {
    link + be4(public.len() as u32) + public + be4(masked.len() as u32) + F::masked(
        tagged_mask_state(h0, link, public),
        masked,
    ) + F::squeezed(tagged_mac_state(h0, link, public, masked), MAC_SIZE)
}

/// Link, public payload and masked payload read from `b`, starting from sponge state `h0`;
/// `ValueMismatch` where the tag does not match.
pub open spec fn tagged_unwrap<F: Spongos>(h0: Seq<Op>, b: Seq<u8>) -> Result<(Seq<u8>, Seq<u8>, Seq<u8>), Error> {
    if b.len() < 16 {
        Err(Error::Malformed)
    } else {
        let n_pub = be4_value(b.subrange(12, 16)) as int;
        if b.len() < 20 + n_pub {
            Err(Error::Malformed)
        } else {
            let n_masked = be4_value(b.subrange(16 + n_pub, 20 + n_pub)) as int;
            if b.len() != 20 + n_pub + n_masked + MAC_SIZE {
                Err(Error::Malformed)
            } else {
                let link = b.subrange(0, 12);
                let public = b.subrange(16, 16 + n_pub);
                let masked = F::unmasked(
                    tagged_mask_state(h0, link, public),
                    b.subrange(20 + n_pub, 20 + n_pub + n_masked),
                );
                if b.subrange(20 + n_pub + n_masked, b.len() as int) == F::squeezed(
                    tagged_mac_state(h0, link, public, masked),
                    MAC_SIZE,
                ) {
                    Ok((link, public, masked))
                } else {
                    Err(Error::ValueMismatch)
                }
            }
        }
    }
}

/// Content of a tagged packet.
pub struct TaggedContent {
    pub link: Vec<u8>,
    pub public_payload: Vec<u8>,
    pub masked_payload: Vec<u8>,
}

/// Writes a tagged packet to `out`, starting from the (already joined) sponge `s`.
pub fn wrap_tagged<F: Spongos>(s: &mut F, link: &[u8], public: &[u8], masked: &[u8], out: &mut Vec<u8>)
    requires
        public@.len() <= u32::MAX,
        masked@.len() <= u32::MAX,
    ensures
        final(out)@ == old(out)@ + tagged_bytes::<F>(old(s).history(), link@, public@, masked@),
        final(s).history() == tagged_final(old(s).history(), link@, public@, masked@),
{
    let ghost out0 = out@;
    append(out, link);
    s.absorb(link);
    push_be4(out, public.len() as u32);
    append(out, public);
    s.absorb(public);
    push_be4(out, masked.len() as u32);
    let c = s.encrypt(masked);
    append(out, c.as_slice());
    s.commit();
    let mac = s.squeeze(MAC_SIZE);
    append(out, mac.as_slice());
    assert(out@ =~= out0 + tagged_bytes::<F>(old(s).history(), link@, public@, masked@));
}

/// Reads a tagged packet from `b`, starting from the (already joined) sponge `s`.
pub fn unwrap_tagged<F: Spongos>(s: &mut F, b: &[u8]) -> (r: Result<TaggedContent, Error>)
    ensures
        match tagged_unwrap::<F>(old(s).history(), b@) {
            Ok((link, public, masked)) => r matches Ok(c) && c.link@ == link && c.public_payload@ == public
                && c.masked_payload@ == masked && final(s).history() == tagged_final(
                old(s).history(),
                link,
                public,
                masked,
            ),
            Err(e) => r == Err::<TaggedContent, Error>(e),
        },
{
    let ghost h0 = s.history();
    let bl: usize = b.len();
    let blen = bl as u64;
    if blen < 16 {
        return Err(Error::Malformed);
    }
    let n_pub = read_be4(b, 12) as u64;
    if blen < 20 + n_pub {
        return Err(Error::Malformed);
    }
    let n_masked = read_be4(b, (16 + n_pub) as usize) as u64;
    if blen != 20 + n_pub + n_masked + 32 {
        return Err(Error::Malformed);
    }
    let link = copy_range(b, 0, MSGID_SIZE);
    let public = copy_range(b, 16, n_pub as usize);
    let c = copy_range(b, (20 + n_pub) as usize, n_masked as usize);
    let mac = copy_range(b, (20 + n_pub + n_masked) as usize, MAC_SIZE);
    s.absorb(link.as_slice());
    s.absorb(public.as_slice());
    let masked = s.decrypt(c.as_slice());
    s.commit();
    let expected = s.squeeze(MAC_SIZE);
    if !bytes_eq(mac.as_slice(), expected.as_slice()) {
        return Err(Error::ValueMismatch);
    }
    Ok(TaggedContent { link, public_payload: public, masked_payload: masked })
}

/// Round trip: a tagged packet read from the state it was written from yields the link and
/// both payloads that were written.
pub proof fn lemma_tagged_round_trip<F: Spongos>(h0: Seq<Op>, link: Seq<u8>, public: Seq<u8>, masked: Seq<u8>)
    requires
        link.len() == MSGID_SIZE,
        public.len() <= u32::MAX,
        masked.len() <= u32::MAX,
    ensures
        tagged_unwrap::<F>(h0, tagged_bytes::<F>(h0, link, public, masked)) == Ok::<
            (Seq<u8>, Seq<u8>, Seq<u8>),
            Error,
        >((link, public, masked)),
{
    let b = tagged_bytes::<F>(h0, link, public, masked);
    let np = public.len() as int;
    let nm = masked.len() as int;
    let c = F::masked(tagged_mask_state(h0, link, public), masked);
    let mac = F::squeezed(tagged_mac_state(h0, link, public, masked), MAC_SIZE);
    lemma_be4_value_be4(public.len() as u32);
    lemma_be4_value_be4(masked.len() as u32);
    F::lemma_unmask_masked(tagged_mask_state(h0, link, public), masked);
    F::lemma_squeezed_len(tagged_mac_state(h0, link, public, masked), MAC_SIZE);
    assert(b.subrange(12, 16) =~= be4(public.len() as u32));
    assert(b.subrange(16 + np, 20 + np) =~= be4(masked.len() as u32));
    assert(b.subrange(0, 12) =~= link);
    assert(b.subrange(16, 16 + np) =~= public);
    assert(b.subrange(20 + np, 20 + np + nm) =~= c);
    assert(b.subrange(20 + np + nm, b.len() as int) =~= mac);
}

} // verus!
