//! `Subscribe` message content: a subscriber's X25519 public key, and its signature public
//! key masked so that only readers of the announcement's state learn it.
//!
//! ```ddml
//! message Subscribe {
//!     join link msgid;
//!     absorb u8 ke_pk[32];
//!     mask u8 sig_pk[32];
//!     commit;
//! }
//! ```
use vstd::prelude::*;
use crate::bytes::{append, copy_range};
use crate::error::Error;
use crate::message::{MSGID_SIZE, PK_SIZE};
use crate::sponge::{Op, Spongos};

verus! {

/// Link, X25519 public key, masked signature public key.
pub const SUBSCRIBE_SIZE: usize = 76;

pub open spec fn subscribe_mask_state(h0: Seq<Op>, link: Seq<u8>, ke_pk: Seq<u8>) -> Seq<Op> {
    h0.push(Op::Absorb(link)).push(Op::Absorb(ke_pk))
}

pub open spec fn subscribe_final(h0: Seq<Op>, link: Seq<u8>, ke_pk: Seq<u8>, sig_pk: Seq<u8>) -> Seq<Op> {
    subscribe_mask_state(h0, link, ke_pk).push(Op::Mask(sig_pk)).push(Op::Commit)
}

pub open spec fn subscribe_bytes<F: Spongos>(h0: Seq<Op>, link: Seq<u8>, ke_pk: Seq<u8>, sig_pk: Seq<u8>) -> Seq<u8> {
    link + ke_pk + F::masked(subscribe_mask_state(h0, link, ke_pk), sig_pk)
}

/// Link, X25519 public key and signature public key read from `b` from sponge state `h0`.
pub open spec fn subscribe_unwrap<F: Spongos>(h0: Seq<Op>, b: Seq<u8>) -> Result<(Seq<u8>, Seq<u8>, Seq<u8>), Error> {
    if b.len() != SUBSCRIBE_SIZE {
        Err(Error::Malformed)
    } else {
        let link = b.subrange(0, 12);
        let ke_pk = b.subrange(12, 44);
        Ok((link, ke_pk, F::unmasked(subscribe_mask_state(h0, link, ke_pk), b.subrange(44, 76))))
    }
}

/// Content of a subscription.
pub struct SubscribeContent {
    pub link: Vec<u8>,
    pub ke_pk: Vec<u8>,
    pub sig_pk: Vec<u8>,
}

pub fn wrap_subscribe<F: Spongos>(s: &mut F, link: &[u8], ke_pk: &[u8], sig_pk: &[u8], out: &mut Vec<u8>)
    ensures
        final(out)@ == old(out)@ + subscribe_bytes::<F>(old(s).history(), link@, ke_pk@, sig_pk@),
        final(s).history() == subscribe_final(old(s).history(), link@, ke_pk@, sig_pk@),
{
    let ghost out0 = out@;
    append(out, link);
    s.absorb(link);
    append(out, ke_pk);
    s.absorb(ke_pk);
    let c = s.encrypt(sig_pk);
    append(out, c.as_slice());
    s.commit();
    assert(out@ =~= out0 + subscribe_bytes::<F>(old(s).history(), link@, ke_pk@, sig_pk@));
}

pub fn unwrap_subscribe<F: Spongos>(s: &mut F, b: &[u8]) -> (r: Result<SubscribeContent, Error>)
    ensures
        match subscribe_unwrap::<F>(old(s).history(), b@) {
            Ok((link, ke_pk, sig_pk)) => r matches Ok(c) && c.link@ == link && c.ke_pk@ == ke_pk
                && c.sig_pk@ == sig_pk && final(s).history() == subscribe_final(
                old(s).history(),
                link,
                ke_pk,
                sig_pk,
            ),
            Err(e) => r == Err::<SubscribeContent, Error>(e),
        },
{
    if b.len() != SUBSCRIBE_SIZE {
        return Err(Error::Malformed);
    }
    let link = copy_range(b, 0, MSGID_SIZE);
    let ke_pk = copy_range(b, MSGID_SIZE, PK_SIZE);
    let c = copy_range(b, 44, PK_SIZE);
    s.absorb(link.as_slice());
    s.absorb(ke_pk.as_slice());
    let sig_pk = s.decrypt(c.as_slice());
    s.commit();
    Ok(SubscribeContent { link, ke_pk, sig_pk })
}

/// Round trip: a subscription read from the state it was written from yields the keys that
/// were written.
pub proof fn lemma_subscribe_round_trip<F: Spongos>(h0: Seq<Op>, link: Seq<u8>, ke_pk: Seq<u8>, sig_pk: Seq<u8>)
    requires
        link.len() == MSGID_SIZE,
        ke_pk.len() == PK_SIZE,
        sig_pk.len() == PK_SIZE,
    ensures
        subscribe_unwrap::<F>(h0, subscribe_bytes::<F>(h0, link, ke_pk, sig_pk)) == Ok::<
            (Seq<u8>, Seq<u8>, Seq<u8>),
            Error,
        >((link, ke_pk, sig_pk)),
{
    let b = subscribe_bytes::<F>(h0, link, ke_pk, sig_pk);
    let c = F::masked(subscribe_mask_state(h0, link, ke_pk), sig_pk);
    F::lemma_unmask_masked(subscribe_mask_state(h0, link, ke_pk), sig_pk);
    assert(b.subrange(0, 12) =~= link);
    assert(b.subrange(12, 44) =~= ke_pk);
    assert(b.subrange(44, 76) =~= c);
}

} // verus!
