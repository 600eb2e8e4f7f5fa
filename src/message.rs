//! Message framing, addresses, and the Announce and TaggedPacket contents.
use vstd::prelude::*;
use crate::bytes::{append, be4, be4_value, bytes_eq, copy_range, lemma_be4_value_be4, push_be4, read_be4};
use crate::error::Error;
use crate::signature::{ed25519_public, ed25519_sign, ed25519_verify, ed_public_of, ed_signature_of, ed_verifies};
use crate::sponge::{Op, Spongos};

verus! {

/// Protocol version written in every header.
pub const VERSION: u8 = 1;
pub const APPINST_SIZE: usize = 40;
pub const MSGID_SIZE: usize = 12;
pub const PK_SIZE: usize = 32;
pub const MAC_SIZE: usize = 32;
/// Channel address, message identifier, version byte, type byte.
pub const HEADER_SIZE: usize = 54;
/// Body of an announcement: signature public key, X25519 public key, branching flag,
/// signature.
pub const ANNOUNCE_SIZE: usize = 129;
/// Size of a signed digest and of a signature.
pub const SIGNATURE_SIZE: usize = 64;

pub const ANNOUNCE: u8 = 0;
pub const KEYLOAD: u8 = crate::keyload::TYPE;
pub const SIGNED_PACKET: u8 = 2;
pub const TAGGED_PACKET: u8 = 3;
pub const SUBSCRIBE: u8 = 4;
pub const SEQUENCE: u8 = 5;

/// How publishers are sequenced in a channel.
#[derive(Debug, Clone, Copy, PartialEq, Eq, Structural)]
pub enum ChannelType {
    /// One chain that every publisher extends.
    SingleBranch,
    /// One chain per publisher, announced through sequence messages.
    MultiBranch,
    /// Every message attached directly to the announcement.
    SingleDepth,
}

pub open spec fn channel_flag(t: ChannelType) -> u8 {
    match t {
        ChannelType::SingleBranch => 0,
        ChannelType::MultiBranch => 1,
        ChannelType::SingleDepth => 2,
    }
}

pub open spec fn channel_type_of(flag: u8) -> Option<ChannelType> {
    if flag == 0 {
        Some(ChannelType::SingleBranch)
    } else if flag == 1 {
        Some(ChannelType::MultiBranch)
    } else if flag == 2 {
        Some(ChannelType::SingleDepth)
    } else {
        None
    }
}

pub fn flag_of(t: ChannelType) -> (r: u8)
    ensures
        r == channel_flag(t),
{
    match t {
        ChannelType::SingleBranch => 0,
        ChannelType::MultiBranch => 1,
        ChannelType::SingleDepth => 2,
    }
}

/// Address of a message: the channel (application instance) and the message identifier.
pub struct Address {
    pub appinst: Vec<u8>,
    pub msgid: Vec<u8>,
}

impl Address {
    pub open spec fn view(&self) -> (Seq<u8>, Seq<u8>) {
        (self.appinst@, self.msgid@)
    }

    /// A copy with the same value.
    pub fn duplicate(&self) -> (r: Address)
        ensures
            r.view() == self.view(),
    {
        let mut appinst: Vec<u8> = Vec::new();
        append(&mut appinst, self.appinst.as_slice());
        let mut msgid: Vec<u8> = Vec::new();
        append(&mut msgid, self.msgid.as_slice());
        Address { appinst, msgid }
    }

    pub fn same_as(&self, other: &Address) -> (r: bool)
        ensures
            r == (self.view() == other.view()),
    {
        bytes_eq(self.appinst.as_slice(), other.appinst.as_slice()) && bytes_eq(
            self.msgid.as_slice(),
            other.msgid.as_slice(),
        )
    }
}

/// Channel address of the channel with index `idx` of the author with public key `pk`.
pub open spec fn appinst_of(pk: Seq<u8>, idx: u64) -> Seq<u8> {
    pk + be4((idx >> 32u64) as u32) + be4(idx as u32)
}

pub fn make_appinst(pk: &[u8], idx: u64) -> (r: Vec<u8>)
    ensures
        r@ == appinst_of(pk@, idx),
{
    let mut r: Vec<u8> = Vec::new();
    append(&mut r, pk);
    push_be4(&mut r, (idx >> 32u64) as u32);
    push_be4(&mut r, idx as u32);
    r
}

/// Sponge operations that derive the identifier of the message that publisher `id` sends
/// with sequence number `seq` after message `prev` in channel `appinst`.
pub open spec fn msgid_history(appinst: Seq<u8>, prev: Seq<u8>, id: Seq<u8>, seq: u32) -> Seq<Op> {
    seq![Op::Absorb(appinst), Op::Absorb(prev), Op::Absorb(id), Op::Absorb(be4(seq)), Op::Commit]
}

pub open spec fn msgid_of<F: Spongos>(appinst: Seq<u8>, prev: Seq<u8>, id: Seq<u8>, seq: u32) -> Seq<u8> {
    F::squeezed(msgid_history(appinst, prev, id, seq), MSGID_SIZE)
}

pub fn gen_msgid<F: Spongos>(appinst: &[u8], prev: &[u8], id: &[u8], seq: u32) -> (r: Vec<u8>)
    ensures
        r@ == msgid_of::<F>(appinst@, prev@, id@, seq),
        r@.len() == MSGID_SIZE,
{
    let mut s = F::fresh();
    s.absorb(appinst);
    s.absorb(prev);
    s.absorb(id);
    let mut n: Vec<u8> = Vec::new();
    push_be4(&mut n, seq);
    assert(n@ =~= be4(seq));
    s.absorb(n.as_slice());
    s.commit();
    assert(s.history() =~= msgid_history(appinst@, prev@, id@, seq));
    s.squeeze(MSGID_SIZE)
}

pub open spec fn header_bytes(appinst: Seq<u8>, msgid: Seq<u8>, msg_type: u8) -> Seq<u8> {
    appinst + msgid + seq![VERSION, msg_type]
}

/// Channel address, message identifier and type read from the front of `b`.
pub open spec fn header_parse(b: Seq<u8>) -> Result<(Seq<u8>, Seq<u8>, u8), Error> {
    if b.len() < HEADER_SIZE {
        Err(Error::Malformed)
    } else if b[52] != VERSION {
        Err(Error::VersionMismatch)
    } else {
        Ok((b.subrange(0, 40), b.subrange(40, 52), b[53]))
    }
}

pub fn write_header(out: &mut Vec<u8>, addr: &Address, msg_type: u8)
    ensures
        final(out)@ == old(out)@ + header_bytes(addr.appinst@, addr.msgid@, msg_type),
{
    append(out, addr.appinst.as_slice());
    append(out, addr.msgid.as_slice());
    out.push(VERSION);
    out.push(msg_type);
    assert(final(out)@ =~= old(out)@ + header_bytes(addr.appinst@, addr.msgid@, msg_type));
}

/// A parsed header.
pub struct Header {
    pub addr: Address,
    pub msg_type: u8,
}

pub fn parse_header(b: &[u8]) -> (r: Result<Header, Error>)
    ensures
        match header_parse(b@) {
            Ok((appinst, msgid, t)) => r matches Ok(h) && h.addr.appinst@ == appinst && h.addr.msgid@ == msgid
                && h.msg_type == t,
            Err(e) => r == Err::<Header, Error>(e),
        },
{
    if b.len() < HEADER_SIZE {
        return Err(Error::Malformed);
    }
    if b[52] != VERSION {
        return Err(Error::VersionMismatch);
    }
    let appinst = copy_range(b, 0, APPINST_SIZE);
    let msgid = copy_range(b, APPINST_SIZE, MSGID_SIZE);
    Ok(Header { addr: Address { appinst, msgid }, msg_type: b[53] })
}

/// A header is read back as it was written, whatever body follows it.
pub proof fn lemma_header_round_trip(appinst: Seq<u8>, msgid: Seq<u8>, msg_type: u8, body: Seq<u8>)
    requires
        appinst.len() == APPINST_SIZE,
        msgid.len() == MSGID_SIZE,
    ensures
        header_parse(header_bytes(appinst, msgid, msg_type) + body) == Ok::<(Seq<u8>, Seq<u8>, u8), Error>(
            (appinst, msgid, msg_type),
        ),
{
    let b = header_bytes(appinst, msgid, msg_type) + body;
    assert(b.subrange(0, 40) =~= appinst);
    assert(b.subrange(40, 52) =~= msgid);
    assert(b[52] == VERSION);
    assert(b[53] == msg_type);
}

// ---------------------------------------------------------------- Announce

/// Sponge state whose digest the author signs in an announcement.
pub open spec fn announce_digest_state(h0: Seq<Op>, sig_pk: Seq<u8>, ke_pk: Seq<u8>, t: ChannelType) -> Seq<Op> {
    h0.push(Op::Absorb(sig_pk)).push(Op::Absorb(ke_pk)).push(Op::Absorb(seq![channel_flag(t)])).push(
        Op::Commit,
    )
}

pub open spec fn announce_digest<F: Spongos>(h0: Seq<Op>, sig_pk: Seq<u8>, ke_pk: Seq<u8>, t: ChannelType) -> Seq<u8> {
    F::squeezed(announce_digest_state(h0, sig_pk, ke_pk, t), SIGNATURE_SIZE)
}

pub open spec fn announce_final(h0: Seq<Op>, sig_pk: Seq<u8>, ke_pk: Seq<u8>, t: ChannelType) -> Seq<Op> {
    announce_digest_state(h0, sig_pk, ke_pk, t).push(Op::Squeeze(SIGNATURE_SIZE))
}

pub open spec fn announce_bytes(sig_pk: Seq<u8>, ke_pk: Seq<u8>, t: ChannelType, sig: Seq<u8>) -> Seq<u8> {
    sig_pk + ke_pk + seq![channel_flag(t)] + sig
}

/// Author keys, channel type and signature read from an announcement body; the signature is
/// not checked here.
pub open spec fn announce_parse(b: Seq<u8>) -> Result<(Seq<u8>, Seq<u8>, ChannelType, Seq<u8>), Error> {
    if b.len() != ANNOUNCE_SIZE {
        Err(Error::Malformed)
    } else {
        match channel_type_of(b[64]) {
            Some(t) => Ok((b.subrange(0, 32), b.subrange(32, 64), t, b.subrange(65, 129))),
            None => Err(Error::BranchingFlagMismatch),
        }
    }
}

/// Content of an announcement.
pub struct AnnounceContent {
    pub sig_pk: Vec<u8>,
    pub ke_pk: Vec<u8>,
    pub channel_type: ChannelType,
}

/// Writes an announcement by the author with Ed25519 secret key `sk`, from sponge `s`.
pub fn wrap_announce<F: Spongos>(s: &mut F, sk: &[u8], ke_pk: &[u8], t: ChannelType, out: &mut Vec<u8>)
    requires
        sk@.len() == 32,
    ensures
        final(out)@ == old(out)@ + announce_bytes(
            ed_public_of(sk@),
            ke_pk@,
            t,
            ed_signature_of(sk@, announce_digest::<F>(old(s).history(), ed_public_of(sk@), ke_pk@, t)),
        ),
        final(s).history() == announce_final(old(s).history(), ed_public_of(sk@), ke_pk@, t),
{
    let ghost out0 = out@;
    let sig_pk = ed25519_public(sk);
    append(out, sig_pk.as_slice());
    s.absorb(sig_pk.as_slice());
    append(out, ke_pk);
    s.absorb(ke_pk);
    let flag: Vec<u8> = vec![flag_of(t)];
    assert(flag@ =~= seq![channel_flag(t)]);
    append(out, flag.as_slice());
    s.absorb(flag.as_slice());
    s.commit();
    let digest = s.squeeze(SIGNATURE_SIZE);
    let sig = ed25519_sign(sk, digest.as_slice());
    append(out, sig.as_slice());
    assert(out@ =~= out0 + announce_bytes(sig_pk@, ke_pk@, t, sig@));
}

/// Reads an announcement from `b`, from sponge `s`, and checks its signature:
/// `SignatureVerificationFailed` where it does not verify. A signature that the author's
/// secret key made on the digest always verifies.
pub fn unwrap_announce<F: Spongos>(s: &mut F, b: &[u8]) -> (r: Result<AnnounceContent, Error>)
    ensures
        match announce_parse(b@) {
            Ok((sig_pk, ke_pk, t, sig)) => {
                &&& r matches Ok(c) ==> c.sig_pk@ == sig_pk && c.ke_pk@ == ke_pk && c.channel_type == t
                    && final(s).history() == announce_final(old(s).history(), sig_pk, ke_pk, t)
                &&& r is Err ==> r == Err::<AnnounceContent, Error>(Error::SignatureVerificationFailed)
                &&& r is Ok <==> ed_verifies(sig_pk, announce_digest::<F>(old(s).history(), sig_pk, ke_pk, t), sig)
                &&& (exists|sk: Seq<u8>|
                    sk.len() == 32 && sig_pk == #[trigger] ed_public_of(sk) && sig == ed_signature_of(
                        sk,
                        announce_digest::<F>(old(s).history(), sig_pk, ke_pk, t),
                    )) ==> r is Ok
            },
            Err(e) => r == Err::<AnnounceContent, Error>(e),
        },
{
    if b.len() != ANNOUNCE_SIZE {
        return Err(Error::Malformed);
    }
    let t = if b[64] == 0 {
        ChannelType::SingleBranch
    } else if b[64] == 1 {
        ChannelType::MultiBranch
    } else if b[64] == 2 {
        ChannelType::SingleDepth
    } else {
        return Err(Error::BranchingFlagMismatch);
    };
    let sig_pk = copy_range(b, 0, PK_SIZE);
    let ke_pk = copy_range(b, PK_SIZE, PK_SIZE);
    let sig = copy_range(b, 65, SIGNATURE_SIZE);
    s.absorb(sig_pk.as_slice());
    s.absorb(ke_pk.as_slice());
    let flag: Vec<u8> = vec![b[64]];
    assert(flag@ =~= seq![channel_flag(t)]);
    s.absorb(flag.as_slice());
    s.commit();
    let digest = s.squeeze(SIGNATURE_SIZE);
    if !ed25519_verify(sig_pk.as_slice(), digest.as_slice(), sig.as_slice()) {
        return Err(Error::SignatureVerificationFailed);
    }
    Ok(AnnounceContent { sig_pk, ke_pk, channel_type: t })
}

/// An announcement is read back with the keys and the channel type it was written with, so
/// that every reader of it agrees with its author on how the channel branches; its signature
/// is the author's signature of the digest that the reader recomputes.
pub proof fn lemma_announce_round_trip<F: Spongos>(h0: Seq<Op>, sk: Seq<u8>, sig_pk: Seq<u8>, ke_pk: Seq<u8>, t: ChannelType, sig: Seq<u8>)
    requires
        sig_pk.len() == PK_SIZE,
        ke_pk.len() == PK_SIZE,
        sig.len() == SIGNATURE_SIZE,
        sig_pk == ed_public_of(sk),
        sig == ed_signature_of(sk, announce_digest::<F>(h0, sig_pk, ke_pk, t)),
    ensures
        announce_parse(announce_bytes(sig_pk, ke_pk, t, sig)) == Ok::<(Seq<u8>, Seq<u8>, ChannelType, Seq<u8>), Error>(
            (sig_pk, ke_pk, t, sig),
        ),
        sig == ed_signature_of(sk, announce_digest::<F>(h0, sig_pk, ke_pk, t)),
{
    let b = announce_bytes(sig_pk, ke_pk, t, sig);
    assert(b.subrange(0, 32) =~= sig_pk);
    assert(b.subrange(32, 64) =~= ke_pk);
    assert(b[64] == channel_flag(t));
    assert(b.subrange(65, 129) =~= sig);
}

// ---------------------------------------------------------------- Sequence

/// Body of a sequence message: the publisher's previous message, the publisher, its sequence
/// number, and the content message it points to.
pub const SEQUENCE_SIZE: usize = 60;

pub open spec fn sequence_bytes(prev: Seq<u8>, publisher: Seq<u8>, seq: u32, content: Seq<u8>) -> Seq<u8> {
    prev + publisher + be4(seq) + content
}

pub open spec fn sequence_parse(b: Seq<u8>) -> Result<(Seq<u8>, Seq<u8>, u32, Seq<u8>), Error> {
    if b.len() != SEQUENCE_SIZE {
        Err(Error::Malformed)
    } else {
        Ok((b.subrange(0, 12), b.subrange(12, 44), be4_value(b.subrange(44, 48)), b.subrange(48, 60)))
    }
}

/// Content of a sequence message.
pub struct SequenceContent {
    pub prev: Vec<u8>,
    pub publisher: Vec<u8>,
    pub seq_num: u32,
    /// Identifier of the content message.
    pub content: Vec<u8>,
}

pub fn wrap_sequence(prev: &[u8], publisher: &[u8], seq: u32, content: &[u8], out: &mut Vec<u8>)
    ensures
        final(out)@ == old(out)@ + sequence_bytes(prev@, publisher@, seq, content@),
{
    let ghost out0 = out@;
    append(out, prev);
    append(out, publisher);
    push_be4(out, seq);
    append(out, content);
    assert(out@ =~= out0 + sequence_bytes(prev@, publisher@, seq, content@));
}

pub fn unwrap_sequence(b: &[u8]) -> (r: Result<SequenceContent, Error>)
    ensures
        match sequence_parse(b@) {
            Ok((prev, publisher, seq, content)) => r matches Ok(c) && c.prev@ == prev && c.publisher@ == publisher
                && c.seq_num == seq && c.content@ == content,
            Err(e) => r == Err::<SequenceContent, Error>(e),
        },
{
    if b.len() != SEQUENCE_SIZE {
        return Err(Error::Malformed);
    }
    Ok(SequenceContent {
        prev: copy_range(b, 0, MSGID_SIZE),
        publisher: copy_range(b, MSGID_SIZE, PK_SIZE),
        seq_num: read_be4(b, 44),
        content: copy_range(b, 48, MSGID_SIZE),
    })
}

/// A sequence message is read back as it was written.
pub proof fn lemma_sequence_round_trip(prev: Seq<u8>, publisher: Seq<u8>, seq: u32, content: Seq<u8>)
    requires
        prev.len() == MSGID_SIZE,
        publisher.len() == PK_SIZE,
        content.len() == MSGID_SIZE,
    ensures
        sequence_parse(sequence_bytes(prev, publisher, seq, content)) == Ok::<(Seq<u8>, Seq<u8>, u32, Seq<u8>), Error>(
            (prev, publisher, seq, content),
        ),
{
    let b = sequence_bytes(prev, publisher, seq, content);
    lemma_be4_value_be4(seq);
    assert(b.subrange(0, 12) =~= prev);
    assert(b.subrange(12, 44) =~= publisher);
    assert(b.subrange(44, 48) =~= be4(seq));
    assert(b.subrange(48, 60) =~= content);
}

} // verus!
