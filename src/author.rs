//! The channel's author: owner of the channel address, announcer, and sender of keyloads.
use vstd::prelude::*;
use crate::bytes::{bytes_eq, copy_range, to_vec};
use crate::error::Error;
use crate::key_store::{cursor_of, has_id, hex_of, inserted, rewound, to_hex, stored_state, stored_state_for_all, Cursor, CursorView, KeyStore};
use crate::keyload::{byte_views, find_psk, keyload_bytes, keyload_final, keyload_unwrap, psk_pairs, ContentUnwrap, ContentWrap, PskEntry};
use crate::subscribe::subscribe_unwrap;
use crate::subscribe::unwrap_subscribe;
use crate::tagged_packet::{tagged_final, tagged_unwrap, unwrap_tagged, wrap_tagged, TaggedContent};
use crate::link_store::{has_link, state_of, LinkStore};
use crate::message::{
    sequence_bytes, announce_bytes, announce_digest, header_bytes, announce_final, appinst_of, gen_msgid, header_parse, make_appinst, msgid_of, parse_header, sequence_parse,
    unwrap_sequence, wrap_announce, wrap_sequence, write_header, Address, ChannelType, ANNOUNCE, HEADER_SIZE, KEYLOAD,
    MSGID_SIZE, PK_SIZE, SEQUENCE, SIGNED_PACKET, SUBSCRIBE, TAGGED_PACKET,
};
use crate::signature::{ed25519_public, ed_public_of, ed_signature_of, ed_verifies};
use crate::signed_packet::{signed_digest, signed_final, signed_parse, unwrap_signed, wrap_signed, SignedContent};
use crate::sponge::{Op, Spongos};

verus! {

/// Publishes and fetches binary messages by address. Implemented by the application: an
/// in-memory store for tests, a node client in production.
pub trait Transport {
    /// Publishes `msg` at `addr`.
    fn send_message(&mut self, addr: &Address, msg: &[u8]) -> Result<(), Error>;

    /// The message published at `addr`; `MessageNotFound` where there is none.
    fn recv_message(&mut self, addr: &Address) -> Result<Vec<u8>, Error>;
}

/// Sequence number of the first message after the announcement.
pub const FIRST_SEQ_NUM: u32 = 2;

/// Mathematical value of an author's protocol state (everything but the transport).
pub struct UserState {
    pub channel_type: ChannelType,
    pub appinst: Option<Seq<u8>>,
    pub announce_link: Option<Seq<u8>>,
    pub cursors: Seq<(Seq<u8>, CursorView)>,
    pub links: Seq<(Seq<u8>, Seq<Op>)>,
    pub psks: Seq<(Seq<u8>, Seq<u8>)>,
    pub subscribers: Seq<(Seq<u8>, Seq<u8>)>,
}

pub open spec fn opt_bytes(o: Option<Vec<u8>>) -> Option<Seq<u8>> {
    match o {
        Some(v) => Some(v@),
        None => None,
    }
}

pub open spec fn pair_views(v: Seq<(Vec<u8>, Vec<u8>)>) -> Seq<(Seq<u8>, Seq<u8>)> {
    v.map_values(|e: (Vec<u8>, Vec<u8>)| (e.0@, e.1@))
}

/// A message found while fetching: its address and the payloads of the tagged packet there.
pub struct UnwrappedMessage {
    pub link: Address,
    /// Type byte of the message; the payloads are those of a tagged or signed packet, empty
    /// otherwise.
    pub msg_type: u8,
    /// Publisher of a signed packet.
    pub signer: Option<Vec<u8>>,
    pub public_payload: Vec<u8>,
    pub masked_payload: Vec<u8>,
}

/// Author object: identity keys, channel, sequencing state and link store.
pub struct Author<Trans, F> {
    pub transport: Trans,
    pub channel_type: ChannelType,
    /// Ed25519 key pair; the public key identifies the author as a publisher.
    pub sig_sk: Vec<u8>,
    pub sig_pk: Vec<u8>,
    /// X25519 key pair.
    pub ke_pk: Vec<u8>,
    pub ke_sk: Vec<u8>,
    pub appinst: Option<Vec<u8>>,
    /// Identifier of the announcement, once sent.
    pub announce_link: Option<Vec<u8>>,
    pub key_store: KeyStore,
    pub psks: Vec<PskEntry>,
    /// Subscribers by signature public key, with their X25519 public keys.
    pub subscribers: Vec<(Vec<u8>, Vec<u8>)>,
    pub links: LinkStore<F>,
}

impl<Trans: Transport, F: Spongos> Author<Trans, F> {
    pub open spec fn state(&self) -> UserState {
        UserState {
            channel_type: self.channel_type,
            appinst: opt_bytes(self.appinst),
            announce_link: opt_bytes(self.announce_link),
            cursors: self.key_store.view(),
            links: self.links.view(),
            psks: psk_pairs(self.psks@),
            subscribers: pair_views(self.subscribers@),
        }
    }

    pub open spec fn wf(&self) -> bool {
        &&& self.sig_sk@.len() == 32
        &&& self.sig_pk@ == ed_public_of(self.sig_sk@)
        &&& self.sig_pk@.len() == PK_SIZE
        &&& self.ke_pk@.len() == PK_SIZE
        &&& self.ke_sk@.len() == PK_SIZE
        &&& self.appinst matches Some(a) && a@ == appinst_of(self.sig_pk@, 0)
        &&& self.key_store.wf()
        &&& forall|i: int| 0 <= i < self.key_store.view().len() ==> (#[trigger] self.key_store.view()[i]).1.seq_num >= 1
        &&& self.key_store.view().len() > 0 ==> self.announce_link is Some
        &&& self.links.wf()
        &&& forall|i: int| 0 <= i < self.psks@.len() ==> (#[trigger] self.psks@[i]).id@.len() == 16
        &&& forall|i: int| 0 <= i < self.subscribers@.len() ==> (#[trigger] self.subscribers@[i]).1@.len() == PK_SIZE
    }

    /// A new author with the given Ed25519 secret key and X25519 key pair, owner of the
    /// channel with index 0.
    pub fn new(sig_sk: Vec<u8>, ke_pk: Vec<u8>, ke_sk: Vec<u8>, channel_type: ChannelType, transport: Trans) -> (r: Self)
        requires
            sig_sk@.len() == 32,
            ke_pk@.len() == PK_SIZE,
            ke_sk@.len() == PK_SIZE,
        ensures
            r.wf(),
            r.sig_sk@ == sig_sk@,
            r.sig_pk@ == ed_public_of(sig_sk@),
            r.ke_pk@ == ke_pk@,
            r.ke_sk@ == ke_sk@,
            r.transport == transport,
            r.state() == fresh_state(channel_type, ed_public_of(sig_sk@)),
    {
        let channel_idx: u64 = 0;
        let sig_pk = ed25519_public(sig_sk.as_slice());
        let appinst = make_appinst(sig_pk.as_slice(), channel_idx);
        let r = Author {
            transport,
            channel_type,
            sig_sk,
            sig_pk,
            ke_pk,
            ke_sk,
            appinst: Some(appinst),
            announce_link: None,
            key_store: KeyStore::new(),
            psks: Vec::new(),
            subscribers: Vec::new(),
            links: LinkStore::new(),
        };
        assert(psk_pairs(r.psks@) =~= Seq::<(Seq<u8>, Seq<u8>)>::empty());
        assert(pair_views(r.subscribers@) =~= Seq::<(Seq<u8>, Seq<u8>)>::empty());
        r
    }

    /// The transport object.
    pub fn get_transport(&self) -> (r: &Trans)
        ensures
            r == &self.transport,
    {
        &self.transport
    }

    /// Whether each publisher has a branch of its own.
    pub fn is_multi_branching(&self) -> (r: bool)
        ensures
            r == (self.channel_type == ChannelType::MultiBranch),
    {
        match self.channel_type {
            ChannelType::MultiBranch => true,
            _ => false,
        }
    }

    /// Whether every message is attached to the announcement.
    pub fn is_single_depth(&self) -> (r: bool)
        ensures
            r == (self.channel_type == ChannelType::SingleDepth),
    {
        match self.channel_type {
            ChannelType::SingleDepth => true,
            _ => false,
        }
    }

    /// The channel address (application instance).
    pub fn channel_address(&self) -> (r: Option<&Vec<u8>>)
        ensures
            opt_bytes(self.appinst) == match r {
                Some(a) => Some(a@),
                None => None::<Seq<u8>>,
            },
    {
        match &self.appinst {
            Some(a) => Some(a),
            None => None,
        }
    }

    /// The author's signature public key.
    pub fn get_public_key(&self) -> (r: &Vec<u8>)
        ensures
            r@ == self.sig_pk@,
    {
        &self.sig_pk
    }

    /// Stores a pre-shared key under its identifier. An identifier already stored is a
    /// `StateMismatch` and changes nothing.
    pub fn store_psk(&mut self, pskid: Vec<u8>, psk: Vec<u8>) -> (r: Result<(), Error>)
        requires
            old(self).wf(),
            pskid@.len() == 16,
            psk@.len() == 32,
        ensures
            final(self).wf(),
            final(self).sig_pk@ == old(self).sig_pk@,
            lookup_known(old(self).state().psks, pskid@) ==> r == Err::<(), Error>(Error::StateMismatch)
                && final(self).state() == old(self).state(),
            !lookup_known(old(self).state().psks, pskid@) ==> r == Ok::<(), Error>(()) && final(self).state()
                == (UserState { psks: old(self).state().psks.push((pskid@, psk@)), ..old(self).state() }),
    {
        if find_psk(&self.psks, pskid.as_slice()).is_some() {
            return Err(Error::StateMismatch);
        }
        let ghost before = psk_pairs(self.psks@);
        let ghost e = (pskid@, psk@);
        self.psks.push(PskEntry { id: pskid, psk });
        assert(psk_pairs(self.psks@) =~= before.push(e));
        Ok(())
    }

    /// Moves publisher `pk`'s cursor to `link` (multi-branching sequencing).
    pub fn store_state(&mut self, pk: &[u8], link: &Address) -> (r: Result<(), Error>)
        requires
            old(self).wf(),
        ensures
            final(self).wf(),
            final(self).sig_pk@ == old(self).sig_pk@,
            match cursor_of(old(self).state().cursors, pk@) {
                Some(c) => if c.seq_num == u32::MAX {
                    r == Err::<(), Error>(Error::StateMismatch) && final(self).state() == old(self).state()
                } else {
                    r == Ok::<(), Error>(()) && final(self).state() == (UserState {
                        cursors: stored_state(old(self).state().cursors, pk@, link.msgid@),
                        ..old(self).state()
                    })
                },
                None => r == Ok::<(), Error>(()) && final(self).state() == old(self).state(),
            },
    {
        self.key_store.store_state(pk, link.msgid.as_slice())
    }

    /// Moves every cursor to `link`, raising sequence numbers to `seq_num` (single-branching
    /// sequencing).
    pub fn store_state_for_all(&mut self, link: &Address, seq_num: u32) -> (r: Result<(), Error>)
        requires
            old(self).wf(),
        ensures
            final(self).wf(),
            final(self).sig_pk@ == old(self).sig_pk@,
            r == Ok::<(), Error>(()),
            final(self).state() == (UserState {
                cursors: stored_state_for_all(old(self).state().cursors, link.msgid@, seq_num),
                ..old(self).state()
            }),
    {
        self.key_store.store_state_for_all(link.msgid.as_slice(), seq_num);
        Ok(())
    }

    /// Each known publisher, in hexadecimal, with its cursor.
    pub fn fetch_state(&self) -> (r: Result<Vec<(String, Cursor)>, Error>)
        ensures
            r matches Ok(v) && v@.len() == self.state().cursors.len() && forall|i: int|
                0 <= i < v@.len() ==> (#[trigger] v@[i]).0@ == hex_of(self.state().cursors[i].0)
                    && v@[i].1.view() == self.state().cursors[i].1,
    {
        Ok(self.key_store.fetch_state())
    }

    /// The announcement: its address, its bytes, and the sponge state it commits.
    fn build_announce(&self) -> (r: (Address, Vec<u8>, F))
        requires
            self.wf(),
        ensures
            r.0.view() == (appinst_of(self.sig_pk@, 0), announce_msgid::<F>(self.sig_pk@)),
            r.1@ == announce_message::<F>(self.sig_sk@, self.ke_pk@, self.channel_type),
            r.2.history() == announce_final(Seq::empty(), self.sig_pk@, self.ke_pk@, self.channel_type),
    {
        let appinst = make_appinst(self.sig_pk.as_slice(), 0);
        let empty: Vec<u8> = Vec::new();
        let msgid = gen_msgid::<F>(appinst.as_slice(), empty.as_slice(), self.sig_pk.as_slice(), 0);
        let addr = Address { appinst, msgid };
        let mut out: Vec<u8> = Vec::new();
        write_header(&mut out, &addr, ANNOUNCE);
        let mut s = F::fresh();
        wrap_announce(&mut s, self.sig_sk.as_slice(), self.ke_pk.as_slice(), self.channel_type, &mut out);
        (addr, out, s)
    }

    /// Takes the announcement `fetched` as this author's own: `Ok` exactly when it is the
    /// announcement that this author builds, which is then recorded as sent; otherwise
    /// `PublicPayloadMismatch`, and nothing changes.
    pub fn adopt_announcement(&mut self, fetched: &[u8]) -> (r: Result<(), Error>)
        requires
            old(self).wf(),
            old(self).announce_link is None,
            !has_link(old(self).state().links, announce_msgid::<F>(old(self).sig_pk@)),
        ensures
            final(self).wf(),
            final(self).sig_pk@ == old(self).sig_pk@,
            final(self).ke_pk@ == old(self).ke_pk@,
            final(self).ke_sk@ == old(self).ke_sk@,
            fetched@ == announce_message::<F>(old(self).sig_sk@, old(self).ke_pk@, old(self).channel_type) ==> r
                == Ok::<(), Error>(()) && final(self).state() == announced::<F>(
                old(self).state(),
                old(self).sig_pk@,
                old(self).ke_pk@,
            ),
            fetched@ != announce_message::<F>(old(self).sig_sk@, old(self).ke_pk@, old(self).channel_type) ==> r
                == Err::<(), Error>(Error::PublicPayloadMismatch) && final(self).state() == old(self).state(),
    {
        let (addr, out, s) = self.build_announce();
        if !bytes_eq(fetched, out.as_slice()) {
            return Err(Error::PublicPayloadMismatch);
        }
        self.commit_announce(&addr, s);
        Ok(())
    }

    /// Records the announcement as sent.
    fn commit_announce(&mut self, addr: &Address, s: F)
        requires
            old(self).wf(),
            addr.view() == (appinst_of(old(self).sig_pk@, 0), announce_msgid::<F>(old(self).sig_pk@)),
            s.history() == announce_final(Seq::empty(), old(self).sig_pk@, old(self).ke_pk@, old(self).channel_type),
            !has_link(old(self).state().links, addr.msgid@),
        ensures
            final(self).wf(),
            final(self).sig_pk@ == old(self).sig_pk@,
            final(self).ke_pk@ == old(self).ke_pk@,
            final(self).ke_sk@ == old(self).ke_sk@,
            final(self).state() == announced::<F>(old(self).state(), old(self).sig_pk@, old(self).ke_pk@),
    {
        self.links.insert(to_vec(addr.msgid.as_slice()), s);
        self.key_store.insert_cursor(
            to_vec(self.sig_pk.as_slice()),
            Cursor { link: to_vec(addr.msgid.as_slice()), seq_num: FIRST_SEQ_NUM, branch_no: 0 },
        );
        self.announce_link = Some(to_vec(addr.msgid.as_slice()));
    }

    /// Sends the announcement, which opens the channel. A second announcement is a
    /// `StateMismatch`.
    pub fn send_announce(&mut self) -> (r: Result<Address, Error>)
        requires
            old(self).wf(),
        ensures
            final(self).wf(),
            final(self).sig_pk@ == old(self).sig_pk@,
            final(self).ke_pk@ == old(self).ke_pk@,
            final(self).ke_sk@ == old(self).ke_sk@,
            old(self).announce_link is Some || has_link(old(self).state().links, announce_msgid::<F>(old(self).sig_pk@))
                ==> r == Err::<Address, Error>(Error::StateMismatch),
            match r {
                Ok(a) => a.view() == (appinst_of(old(self).sig_pk@, 0), announce_msgid::<F>(old(self).sig_pk@))
                    && final(self).state() == announced::<F>(old(self).state(), old(self).sig_pk@, old(self).ke_pk@),
                Err(_) => final(self).state() == old(self).state(),
            },
    {
        if self.announce_link.is_some() {
            return Err(Error::StateMismatch);
        }
        let (addr, out, s) = self.build_announce();
        if self.links.contains(addr.msgid.as_slice()) {
            return Err(Error::StateMismatch);
        }
        match self.transport.send_message(&addr, out.as_slice()) {
            Ok(()) => {},
            Err(e) => {
                return Err(e);
            },
        }
        self.commit_announce(&addr, s);
        Ok(addr)
    }

    /// Identifiers of the author's next sequence and content messages, its cursor's link and
    /// sequence number, and a fork of the state of the message it attaches to.
    fn prepare_send(&self, link_to: &Address) -> (r: Result<(Vec<u8>, Vec<u8>, Vec<u8>, u32, F), Error>)
        requires
            self.wf(),
        ensures
            match send_check::<F>(self.state(), self.sig_pk@, link_to.view()) {
                Err(e) => r == Err::<(Vec<u8>, Vec<u8>, Vec<u8>, u32, F), Error>(e),
                Ok(()) => r matches Ok((next, content, prev, seq, parent)) && next@ == next_msgid::<F>(self.state(), self.sig_pk@)
                    && content@ == content_msgid::<F>(self.state(), self.sig_pk@)
                    && (cursor_of(self.state().cursors, self.sig_pk@) matches Some(c) && c.seq_num == seq && c.link == prev@)
                    && parent.history() == state_of(self.state().links, link_to.msgid@),
            },
    {
        let appinst = match &self.appinst {
            Some(a) => a,
            None => {
                return Err(Error::ApplicationInstanceMismatch);
            },
        };
        if !bytes_eq(appinst.as_slice(), link_to.appinst.as_slice()) {
            return Err(Error::ApplicationInstanceMismatch);
        }
        let parent = match self.links.lookup(link_to.msgid.as_slice()) {
            Some(p) => p,
            None => {
                return Err(Error::LinkMismatch);
            },
        };
        let i = match self.key_store.find(self.sig_pk.as_slice()) {
            Some(i) => i,
            None => {
                return Err(Error::StateMismatch);
            },
        };
        let c = &self.key_store.entries[i].1;
        if c.seq_num == u32::MAX {
            return Err(Error::StateMismatch);
        }
        let ann = match &self.announce_link {
            Some(a) => a,
            None => {
                return Err(Error::StateMismatch);
            },
        };
        let base = match self.channel_type {
            ChannelType::SingleDepth => ann.as_slice(),
            _ => c.link.as_slice(),
        };
        let next = gen_msgid::<F>(appinst.as_slice(), base, self.sig_pk.as_slice(), c.seq_num);
        if self.links.contains(next.as_slice()) {
            return Err(Error::StateMismatch);
        }
        let content = match self.channel_type {
            ChannelType::MultiBranch => {
                let content = gen_msgid::<F>(appinst.as_slice(), next.as_slice(), self.sig_pk.as_slice(), c.seq_num);
                if self.links.contains(content.as_slice()) || bytes_eq(content.as_slice(), next.as_slice()) {
                    return Err(Error::StateMismatch);
                }
                content
            },
            _ => to_vec(next.as_slice()),
        };
        Ok((next, content, to_vec(c.link.as_slice()), c.seq_num, parent))
    }

    /// The sequence message at `at` by which this author points from its previous message
    /// `prev` (sequence number `seq`) to the content message `content`.
    fn build_sequence(&self, at: &Address, prev: &Vec<u8>, seq: u32, content: &Vec<u8>) -> (r: Vec<u8>)
        ensures
            r@ == header_bytes(at.appinst@, at.msgid@, SEQUENCE) + sequence_bytes(prev@, self.sig_pk@, seq, content@),
    {
        let mut so: Vec<u8> = Vec::new();
        write_header(&mut so, at, SEQUENCE);
        wrap_sequence(prev.as_slice(), self.sig_pk.as_slice(), seq, content.as_slice(), &mut so);
        so
    }

    /// Sends the content message `out` at `content` and, in a multi-branching channel, the
    /// sequence message at `next` that points to it; then records the publication.
    fn finish_send(&mut self, link_to: &Address, next: Vec<u8>, content: Vec<u8>, prev: Vec<u8>, seq: u32, out: Vec<u8>, s: F) -> (r: Result<(Address, Option<Address>), Error>)
        requires
            old(self).wf(),
            send_check::<F>(old(self).state(), old(self).sig_pk@, link_to.view()) is Ok,
            next@ == next_msgid::<F>(old(self).state(), old(self).sig_pk@),
            content@ == content_msgid::<F>(old(self).state(), old(self).sig_pk@),
            cursor_of(old(self).state().cursors, old(self).sig_pk@) matches Some(c) && c.seq_num == seq && c.link == prev@,
        ensures
            final(self).wf(),
            final(self).sig_pk@ == old(self).sig_pk@,
            final(self).ke_pk@ == old(self).ke_pk@,
            final(self).ke_sk@ == old(self).ke_sk@,
            match r {
                Ok((a, sq)) => {
                    &&& a.view() == (link_to.appinst@, content@)
                    &&& if is_multi(old(self).state()) {
                        sq matches Some(sa) && sa.view() == (link_to.appinst@, next@)
                    } else {
                        sq is None
                    }
                    &&& final(self).state() == published::<F>(old(self).state(), old(self).sig_pk@, s.history())
                },
                Err(_) => final(self).state() == old(self).state(),
            },
    {
        let addr = Address { appinst: to_vec(link_to.appinst.as_slice()), msgid: to_vec(content.as_slice()) };
        match self.transport.send_message(&addr, out.as_slice()) {
            Ok(()) => {},
            Err(e) => {
                return Err(e);
            },
        }
        let seq_addr = match self.channel_type {
            ChannelType::MultiBranch => {
                let sa = Address { appinst: to_vec(link_to.appinst.as_slice()), msgid: to_vec(next.as_slice()) };
                let so = self.build_sequence(&sa, &prev, seq, &content);
                match self.transport.send_message(&sa, so.as_slice()) {
                    Ok(()) => {},
                    Err(e) => {
                        return Err(e);
                    },
                }
                Some(sa)
            },
            _ => None,
        };
        let ghost l0 = self.state().links;
        self.links.insert(to_vec(content.as_slice()), s);
        match self.channel_type {
            ChannelType::MultiBranch => {
                assert(!has_link(self.state().links, next@)) by {
                    if has_link(self.state().links, next@) {
                        let k = choose|k: int| 0 <= k < self.state().links.len() && self.state().links[k].0 == next@;
                        if k < l0.len() {
                            assert(l0[k].0 == next@);
                        }
                    }
                }
                self.links.insert(to_vec(next.as_slice()), F::fresh());
                let _ = self.key_store.store_state(self.sig_pk.as_slice(), content.as_slice());
            },
            _ => {
                self.key_store.store_state_for_all(next.as_slice(), seq + 1);
            },
        }
        Ok((addr, seq_addr))
    }

    /// Publishes a tagged packet attached to `link_to`. Sequence messages are not used: the
    /// second address is always `None`.
    pub fn send_tagged_packet(&mut self, link_to: &Address, public_payload: &Vec<u8>, masked_payload: &Vec<u8>) -> (r: Result<(Address, Option<Address>), Error>)
        requires
            old(self).wf(),
            public_payload@.len() <= u32::MAX,
            masked_payload@.len() <= u32::MAX,
        ensures
            final(self).wf(),
            final(self).sig_pk@ == old(self).sig_pk@,
            final(self).ke_pk@ == old(self).ke_pk@,
            final(self).ke_sk@ == old(self).ke_sk@,
            send_outcome::<F>(
                old(self).state(),
                old(self).sig_pk@,
                link_to.view(),
                tagged_final(
                    state_of(old(self).state().links, link_to.msgid@),
                    link_to.msgid@,
                    public_payload@,
                    masked_payload@,
                ),
                r,
                final(self).state(),
            ),
    {
        let (next, content, prev, seq, mut parent) = match self.prepare_send(link_to) {
            Ok(x) => x,
            Err(e) => {
                return Err(e);
            },
        };
        let addr = Address { appinst: to_vec(link_to.appinst.as_slice()), msgid: to_vec(content.as_slice()) };
        let mut out: Vec<u8> = Vec::new();
        write_header(&mut out, &addr, TAGGED_PACKET);
        wrap_tagged(&mut parent, link_to.msgid.as_slice(), public_payload.as_slice(), masked_payload.as_slice(), &mut out);
        self.finish_send(link_to, next, content, prev, seq, out, parent)
    }

    /// The keyload message that the author sends at `content`, attached to `link_to` whose
    /// state `parent` is, for the given recipients; and the state it commits.
    fn build_keyload(&self, link_to: &Address, content: &Vec<u8>, parent: F, psks: Vec<PskEntry>, ke_pks: Vec<Vec<u8>>) -> (r: (Vec<u8>, F, Ghost<Seq<Seq<u8>>>))
        requires
            self.wf(),
            link_to.msgid@.len() == MSGID_SIZE,
            psks@.len() <= u32::MAX,
            ke_pks@.len() <= u32::MAX,
            forall|i: int| 0 <= i < psks@.len() ==> (#[trigger] psks@[i]).id@.len() == 16,
            forall|i: int| 0 <= i < ke_pks@.len() ==> (#[trigger] ke_pks@[i])@.len() == PK_SIZE,
        ensures
            r.0@ == header_bytes(link_to.appinst@, content@, KEYLOAD) + keyload_bytes::<F>(
                parent.history(),
                link_to.msgid@,
                session_nonce::<F>(self.ke_sk@, content@),
                session_key::<F>(self.ke_sk@, content@),
                psk_pairs(psks@),
                byte_views(ke_pks@),
                r.2@,
            ),
            r.1.history() == keyload_final(
                parent.history(),
                link_to.msgid@,
                session_nonce::<F>(self.ke_sk@, content@),
                session_key::<F>(self.ke_sk@, content@),
            ),
    {
        let mut g = F::fresh();
        g.absorb(self.ke_sk.as_slice());
        g.absorb(content.as_slice());
        g.commit();
        assert(g.history() =~= session_history(self.ke_sk@, content@));
        let nonce = g.squeeze(16);
        let key = g.squeeze(32);
        let mut eph_sks: Vec<Vec<u8>> = Vec::new();
        let mut i: usize = 0;
        while i < ke_pks.len()
            invariant
                i <= ke_pks@.len(),
                eph_sks@.len() == i,
                forall|j: int| 0 <= j < eph_sks@.len() ==> (#[trigger] eph_sks@[j])@.len() == 32,
            decreases ke_pks@.len() - i,
        {
            eph_sks.push(g.squeeze(32));
            i = i + 1;
        }
        let wrap = ContentWrap { link: to_vec(link_to.msgid.as_slice()), nonce, key, psks, ke_pks, eph_sks };
        let addr = Address { appinst: to_vec(link_to.appinst.as_slice()), msgid: to_vec(content.as_slice()) };
        let mut out: Vec<u8> = Vec::new();
        write_header(&mut out, &addr, KEYLOAD);
        let mut s = parent;
        let ephs = wrap.wrap(&mut s, &mut out);
        (out, s, ephs)
    }

    /// Sends a keyload to the given recipients, attached to `link_to`: the message that
    /// `build_keyload` builds. A link that is not a message identifier, or more recipients of
    /// a kind than a count holds, is `Malformed`.
    fn send_keyload_to(&mut self, link_to: &Address, psks: Vec<PskEntry>, ke_pks: Vec<Vec<u8>>) -> (r: Result<(Address, Option<Address>), Error>)
        requires
            old(self).wf(),
            forall|i: int| 0 <= i < psks@.len() ==> (#[trigger] psks@[i]).id@.len() == 16,
            forall|i: int| 0 <= i < ke_pks@.len() ==> (#[trigger] ke_pks@[i])@.len() == PK_SIZE,
        ensures
            final(self).wf(),
            final(self).sig_pk@ == old(self).sig_pk@,
            final(self).ke_pk@ == old(self).ke_pk@,
            final(self).ke_sk@ == old(self).ke_sk@,
            send_check::<F>(old(self).state(), old(self).sig_pk@, link_to.view()) is Ok && (link_to.msgid@.len()
                != MSGID_SIZE || psks@.len() > u32::MAX || ke_pks@.len() > u32::MAX) ==> r == Err::<
                (Address, Option<Address>),
                Error,
            >(Error::Malformed) && final(self).state() == old(self).state(),
            send_outcome::<F>(
                old(self).state(),
                old(self).sig_pk@,
                link_to.view(),
                keyload_state::<F>(
                    old(self).state(),
                    old(self).ke_sk@,
                    link_to.msgid@,
                    content_msgid::<F>(old(self).state(), old(self).sig_pk@),
                ),
                r,
                final(self).state(),
            ),
    {
        let (next, content, prev, seq, parent) = match self.prepare_send(link_to) {
            Ok(x) => x,
            Err(e) => {
                return Err(e);
            },
        };
        if link_to.msgid.len() != MSGID_SIZE || psks.len() > u32::MAX as usize || ke_pks.len() > u32::MAX as usize {
            return Err(Error::Malformed);
        }
        let (out, s, _) = self.build_keyload(link_to, &content, parent, psks, ke_pks);
        self.finish_send(link_to, next, content, prev, seq, out, s)
    }

    fn find_subscriber(&self, sig_pk: &[u8]) -> (r: Option<usize>)
        ensures
            match r {
                Some(i) => i < self.subscribers@.len() && self.subscribers@[i as int].0@ == sig_pk@ && subscriber_ke(
                    self.state().subscribers,
                    sig_pk@,
                ) == Some(self.subscribers@[i as int].1@),
                None => subscriber_ke(self.state().subscribers, sig_pk@) is None && forall|i: int|
                    0 <= i < self.subscribers@.len() ==> self.subscribers@[i].0@ != sig_pk@,
            },
    {
        let ghost v = self.state().subscribers;
        let mut i: usize = 0;
        assert(v.subrange(0, v.len() as int) =~= v);
        while i < self.subscribers.len()
            invariant
                i <= self.subscribers@.len(),
                v == self.state().subscribers,
                v.len() == self.subscribers@.len(),
                subscriber_ke(v, sig_pk@) == subscriber_ke(v.subrange(i as int, v.len() as int), sig_pk@),
                forall|k: int| 0 <= k < i ==> self.subscribers@[k].0@ != sig_pk@,
            decreases self.subscribers@.len() - i,
        {
            let ghost rest = v.subrange(i as int, v.len() as int);
            assert(rest[0] == v[i as int]);
            if bytes_eq(self.subscribers[i].0.as_slice(), sig_pk) {
                return Some(i);
            }
            assert(rest.drop_first() =~= v.subrange(i + 1, v.len() as int));
            i = i + 1;
        }
        None
    }

    /// Recipients named by `ids`: pre-shared keys by identifier, subscribers by signature
    /// public key.
    fn resolve(&self, ids: &Vec<Vec<u8>>) -> (r: Result<(Vec<PskEntry>, Vec<Vec<u8>>), Error>)
        requires
            self.wf(),
        ensures
            (forall|j: int| 0 <= j < ids@.len() ==> known_id(self.state(), (#[trigger] ids@[j])@)) <==> r is Ok,
            match r {
                Ok((p, k)) => psk_pairs(p@) == resolved_psks(self.state(), byte_views(ids@)) && byte_views(k@)
                    == resolved_kes(self.state(), byte_views(ids@))
                    && (forall|i: int| 0 <= i < p@.len() ==> (#[trigger] p@[i]).id@.len() == 16)
                    && (forall|i: int| 0 <= i < k@.len() ==> (#[trigger] k@[i])@.len() == PK_SIZE),
                Err(e) => e == Error::KeyNotFound,
            },
    {
        let mut p: Vec<PskEntry> = Vec::new();
        let mut k: Vec<Vec<u8>> = Vec::new();
        let mut j: usize = 0;
        while j < ids.len()
            invariant
                self.wf(),
                j <= ids@.len(),
                forall|x: int| 0 <= x < j ==> known_id(self.state(), (#[trigger] ids@[x])@),
                psk_pairs(p@) == resolved_psks(self.state(), byte_views(ids@).take(j as int)),
                byte_views(k@) == resolved_kes(self.state(), byte_views(ids@).take(j as int)),
                forall|i: int| 0 <= i < p@.len() ==> (#[trigger] p@[i]).id@.len() == 16,
                forall|i: int| 0 <= i < k@.len() ==> (#[trigger] k@[i])@.len() == PK_SIZE,
            decreases ids@.len() - j,
        {
            let id = ids[j].as_slice();
            assert(id@ == ids@[j as int]@);
            let ghost t = byte_views(ids@).take(j + 1);
            assert(t.drop_last() =~= byte_views(ids@).take(j as int));
            assert(t.last() == id@);
            let ghost p0 = psk_pairs(p@);
            let ghost k0 = byte_views(k@);
            match find_psk(&self.psks, id) {
                Some(i) => {
                    assert(known_id(self.state(), ids@[j as int]@));
                    p.push(PskEntry { id: to_vec(id), psk: to_vec(self.psks[i].psk.as_slice()) });
                    assert(psk_pairs(p@) =~= p0.push((id@, self.psks@[i as int].psk@)));
                },
                None => match self.find_subscriber(id) {
                    Some(i) => {
                        assert(pair_views(self.subscribers@)[i as int].0 == id@);
                        assert(self.state().subscribers[i as int].0 == ids@[j as int]@);
                        assert(known_id(self.state(), ids@[j as int]@));
                        k.push(to_vec(self.subscribers[i].1.as_slice()));
                        assert(byte_views(k@) =~= k0.push(self.subscribers@[i as int].1@));
                    },
                    None => {
                        assert(!known_id(self.state(), ids@[j as int]@));
                        return Err(Error::KeyNotFound);
                    },
                },
            }
            j = j + 1;
        }
        assert(byte_views(ids@).take(j as int) =~= byte_views(ids@));
        Ok((p, k))
    }

    /// Sends a keyload for the recipients named by `keys` (pre-shared key identifiers or
    /// subscribers' signature public keys). A name that is neither is a `KeyNotFound`.
    pub fn send_keyload(&mut self, link_to: &Address, keys: &Vec<Vec<u8>>) -> (r: Result<(Address, Option<Address>), Error>)
        requires
            old(self).wf(),
        ensures
            final(self).wf(),
            final(self).sig_pk@ == old(self).sig_pk@,
            (exists|j: int| 0 <= j < keys@.len() && !known_id(old(self).state(), (#[trigger] keys@[j])@)) ==> r
                == Err::<(Address, Option<Address>), Error>(Error::KeyNotFound) && final(self).state() == old(self).state(),
            (forall|j: int| 0 <= j < keys@.len() ==> known_id(old(self).state(), (#[trigger] keys@[j])@))
                && send_check::<F>(old(self).state(), old(self).sig_pk@, link_to.view()) is Ok && (link_to.msgid@.len()
                != MSGID_SIZE || resolved_psks(old(self).state(), byte_views(keys@)).len() > u32::MAX || resolved_kes(
                old(self).state(),
                byte_views(keys@),
            ).len() > u32::MAX) ==> r == Err::<(Address, Option<Address>), Error>(Error::Malformed)
                && final(self).state() == old(self).state(),
            (forall|j: int| 0 <= j < keys@.len() ==> known_id(old(self).state(), (#[trigger] keys@[j])@)) ==> send_outcome::<F>(
                old(self).state(),
                old(self).sig_pk@,
                link_to.view(),
                keyload_state::<F>(
                    old(self).state(),
                    old(self).ke_sk@,
                    link_to.msgid@,
                    content_msgid::<F>(old(self).state(), old(self).sig_pk@),
                ),
                r,
                final(self).state(),
            ),
    {
        let (p, k) = match self.resolve(keys) {
            Ok(x) => x,
            Err(e) => {
                return Err(e);
            },
        };
        assert(p@.len() == psk_pairs(p@).len() && k@.len() == byte_views(k@).len());
        self.send_keyload_to(link_to, p, k)
    }

    /// Sends a keyload for every stored pre-shared key and every subscriber.
    pub fn send_keyload_for_everyone(&mut self, link_to: &Address) -> (r: Result<(Address, Option<Address>), Error>)
        requires
            old(self).wf(),
        ensures
            final(self).wf(),
            final(self).sig_pk@ == old(self).sig_pk@,
            send_check::<F>(old(self).state(), old(self).sig_pk@, link_to.view()) is Ok && (link_to.msgid@.len()
                != MSGID_SIZE || old(self).state().psks.len() > u32::MAX || old(self).state().subscribers.len()
                > u32::MAX) ==> r == Err::<(Address, Option<Address>), Error>(Error::Malformed) && final(self).state()
                == old(self).state(),
            send_outcome::<F>(
                old(self).state(),
                old(self).sig_pk@,
                link_to.view(),
                keyload_state::<F>(
                    old(self).state(),
                    old(self).ke_sk@,
                    link_to.msgid@,
                    content_msgid::<F>(old(self).state(), old(self).sig_pk@),
                ),
                r,
                final(self).state(),
            ),
    {
        let p = self.copy_psks();
        assert(p@.len() == psk_pairs(p@).len());
        let mut k: Vec<Vec<u8>> = Vec::new();
        let mut i: usize = 0;
        while i < self.subscribers.len()
            invariant
                self.wf(),
                i <= self.subscribers@.len(),
                k@.len() == i,
                p@.len() == self.state().psks.len(),
                forall|x: int| 0 <= x < k@.len() ==> (#[trigger] k@[x])@.len() == PK_SIZE,
            decreases self.subscribers@.len() - i,
        {
            k.push(to_vec(self.subscribers[i].1.as_slice()));
            i = i + 1;
        }
        self.send_keyload_to(link_to, p, k)
    }

    /// Publishes a packet attached to `link_to`, signed with the author's key.
    pub fn send_signed_packet(&mut self, link_to: &Address, public_payload: &Vec<u8>, masked_payload: &Vec<u8>) -> (r: Result<(Address, Option<Address>), Error>)
        requires
            old(self).wf(),
            public_payload@.len() <= u32::MAX,
            masked_payload@.len() <= u32::MAX,
        ensures
            final(self).wf(),
            final(self).sig_pk@ == old(self).sig_pk@,
            final(self).ke_pk@ == old(self).ke_pk@,
            final(self).ke_sk@ == old(self).ke_sk@,
            send_outcome::<F>(
                old(self).state(),
                old(self).sig_pk@,
                link_to.view(),
                signed_final(
                    state_of(old(self).state().links, link_to.msgid@),
                    link_to.msgid@,
                    old(self).sig_pk@,
                    public_payload@,
                    masked_payload@,
                ),
                r,
                final(self).state(),
            ),
    {
        let (next, content, prev, seq, mut parent) = match self.prepare_send(link_to) {
            Ok(x) => x,
            Err(e) => {
                return Err(e);
            },
        };
        let addr = Address { appinst: to_vec(link_to.appinst.as_slice()), msgid: to_vec(content.as_slice()) };
        let mut out: Vec<u8> = Vec::new();
        write_header(&mut out, &addr, SIGNED_PACKET);
        wrap_signed(
            &mut parent,
            link_to.msgid.as_slice(),
            self.sig_sk.as_slice(),
            public_payload.as_slice(),
            masked_payload.as_slice(),
            &mut out,
        );
        self.finish_send(link_to, next, content, prev, seq, out, parent)
    }

    /// Processes the signed packet `b` fetched from `link`: checks its header and signature,
    /// reads it from its parent's state and records it.
    pub fn handle_signed_packet(&mut self, link: &Address, b: &[u8]) -> (r: Result<SignedContent, Error>)
        requires
            old(self).wf(),
        ensures
            final(self).wf(),
            final(self).sig_pk@ == old(self).sig_pk@,
            final(self).ke_pk@ == old(self).ke_pk@,
            final(self).ke_sk@ == old(self).ke_sk@,
            match signed_receive::<F>(old(self).state(), link.view(), b@) {
                Ok((signer, public, masked, st)) => r matches Ok(c) && c.signer@ == signer && c.public_payload@ == public
                    && c.masked_payload@ == masked && final(self).state() == st,
                Err(e) => r == Err::<SignedContent, Error>(e) && final(self).state() == old(self).state(),
            },
    {
        let h = match parse_header(b) {
            Ok(h) => h,
            Err(e) => {
                return Err(e);
            },
        };
        if !h.addr.same_as(link) {
            return Err(Error::LinkMismatch);
        }
        if h.msg_type != SIGNED_PACKET {
            return Err(Error::BadType);
        }
        if b.len() < HEADER_SIZE + MSGID_SIZE {
            return Err(Error::Malformed);
        }
        let body = copy_range(b, HEADER_SIZE, b.len() - HEADER_SIZE);
        let parent = copy_range(body.as_slice(), 0, MSGID_SIZE);
        assert(parent@ =~= body@.subrange(0, MSGID_SIZE as int));
        let mut s = match self.links.lookup(parent.as_slice()) {
            Some(s) => s,
            None => {
                return Err(Error::LinkMismatch);
            },
        };
        let c = match unwrap_signed(&mut s, body.as_slice()) {
            Ok(c) => c,
            Err(e) => {
                return Err(e);
            },
        };
        if !self.links.contains(h.addr.msgid.as_slice()) {
            self.links.insert(to_vec(h.addr.msgid.as_slice()), s);
        }
        Ok(c)
    }

    /// Fetches and reads the signed packet at `link`; returns its signer and its public and
    /// masked payloads.
    pub fn receive_signed_packet(&mut self, link: &Address) -> (r: Result<(Vec<u8>, Vec<u8>, Vec<u8>), Error>)
        requires
            old(self).wf(),
        ensures
            final(self).wf(),
            final(self).sig_pk@ == old(self).sig_pk@,
            match r {
                Ok((signer, public, masked)) => exists|b: Seq<u8>|
                    #[trigger] signed_receive::<F>(old(self).state(), link.view(), b) matches Ok((s, p, m, st))
                        && s == signer@ && p == public@ && m == masked@ && final(self).state() == st,
                Err(_) => final(self).state() == old(self).state(),
            },
    {
        let b = match self.transport.recv_message(link) {
            Ok(b) => b,
            Err(e) => {
                return Err(e);
            },
        };
        match self.handle_signed_packet(link, b.as_slice()) {
            Ok(c) => Ok((c.signer, c.public_payload, c.masked_payload)),
            Err(Error::LinkMismatch) => Err(self.parent_error(link, b.as_slice())),
            Err(e) => Err(e),
        }
    }

    /// Processes a tagged or signed packet `b` fetched from `addr`.
    fn handle_packet(&mut self, addr: &Address, b: &[u8]) -> (r: Result<UnwrappedMessage, Error>)
        requires
            old(self).wf(),
        ensures
            final(self).wf(),
            final(self).sig_pk@ == old(self).sig_pk@,
            final(self).ke_pk@ == old(self).ke_pk@,
            final(self).ke_sk@ == old(self).ke_sk@,
            match packet_receive::<F>(old(self).state(), addr.view(), b@) {
                Ok((t, signer, p, q, st)) => r matches Ok(m) && message_is(m, addr.view(), t, signer, p, q)
                    && final(self).state() == st,
                Err(e) => r matches Err(e2) && e2 == e && final(self).state() == old(self).state(),
            },
    {
        let h = match parse_header(b) {
            Ok(h) => h,
            Err(e) => {
                return Err(e);
            },
        };
        if h.msg_type == SIGNED_PACKET {
            match self.handle_signed_packet(addr, b) {
                Ok(c) => {
                    Ok(UnwrappedMessage {
                        link: addr.duplicate(),
                        msg_type: SIGNED_PACKET,
                        signer: Some(c.signer),
                        public_payload: c.public_payload,
                        masked_payload: c.masked_payload,
                    })
                },
                Err(e) => Err(e),
            }
        } else {
            match self.handle_tagged_packet(addr, b) {
                Ok(c) => {
                    Ok(UnwrappedMessage {
                        link: addr.duplicate(),
                        msg_type: TAGGED_PACKET,
                        signer: None,
                        public_payload: c.public_payload,
                        masked_payload: c.masked_payload,
                    })
                },
                Err(e) => Err(e),
            }
        }
    }

    /// Processes the tagged packet `b` fetched from `link`: checks its header, reads it from
    /// its parent's state and records it.
    pub fn handle_tagged_packet(&mut self, link: &Address, b: &[u8]) -> (r: Result<TaggedContent, Error>)
        requires
            old(self).wf(),
        ensures
            final(self).wf(),
            final(self).sig_pk@ == old(self).sig_pk@,
            final(self).ke_pk@ == old(self).ke_pk@,
            final(self).ke_sk@ == old(self).ke_sk@,
            match tagged_receive::<F>(old(self).state(), link.view(), b@) {
                Ok((public, masked, st)) => r matches Ok(c) && c.public_payload@ == public && c.masked_payload@
                    == masked && final(self).state() == st,
                Err(e) => r == Err::<TaggedContent, Error>(e) && final(self).state() == old(self).state(),
            },
    {
        let h = match parse_header(b) {
            Ok(h) => h,
            Err(e) => {
                return Err(e);
            },
        };
        if !h.addr.same_as(link) {
            return Err(Error::LinkMismatch);
        }
        if h.msg_type != TAGGED_PACKET {
            return Err(Error::BadType);
        }
        if b.len() < HEADER_SIZE + MSGID_SIZE {
            return Err(Error::Malformed);
        }
        let body = copy_range(b, HEADER_SIZE, b.len() - HEADER_SIZE);
        let parent = copy_range(body.as_slice(), 0, MSGID_SIZE);
        assert(parent@ =~= body@.subrange(0, MSGID_SIZE as int));
        let mut s = match self.links.lookup(parent.as_slice()) {
            Some(s) => s,
            None => {
                return Err(Error::LinkMismatch);
            },
        };
        let c = match unwrap_tagged(&mut s, body.as_slice()) {
            Ok(c) => c,
            Err(e) => {
                return Err(e);
            },
        };
        if !self.links.contains(h.addr.msgid.as_slice()) {
            self.links.insert(to_vec(h.addr.msgid.as_slice()), s);
        }
        Ok(c)
    }

    /// Fetches and reads the tagged packet at `link`; returns its public and masked payloads.
    pub fn receive_tagged_packet(&mut self, link: &Address) -> (r: Result<(Vec<u8>, Vec<u8>), Error>)
        requires
            old(self).wf(),
        ensures
            final(self).wf(),
            final(self).sig_pk@ == old(self).sig_pk@,
            match r {
                Ok((public, masked)) => exists|b: Seq<u8>|
                    #[trigger] tagged_receive::<F>(old(self).state(), link.view(), b) matches Ok((p, m, st)) && p == public@
                        && m == masked@ && final(self).state() == st,
                Err(_) => final(self).state() == old(self).state(),
            },
    {
        let b = match self.transport.recv_message(link) {
            Ok(b) => b,
            Err(e) => {
                return Err(e);
            },
        };
        match self.handle_tagged_packet(link, b.as_slice()) {
            Ok(c) => Ok((c.public_payload, c.masked_payload)),
            Err(Error::LinkMismatch) => Err(self.parent_error(link, b.as_slice())),
            Err(e) => Err(e),
        }
    }

    /// Fetches and reads the subscription at `link`, attached to the announcement; records the
    /// subscriber and gives it a cursor.
    pub fn receive_subscribe(&mut self, link: &Address) -> (r: Result<(), Error>)
        requires
            old(self).wf(),
        ensures
            final(self).wf(),
            final(self).sig_pk@ == old(self).sig_pk@,
            old(self).announce_link is None ==> r is Err,
            match r {
                Ok(()) => exists|sig_pk: Seq<u8>, ke_pk: Seq<u8>|
                    ke_pk.len() == PK_SIZE && final(self).state() == #[trigger] subscribed(old(self).state(), sig_pk, ke_pk),
                Err(_) => final(self).state() == old(self).state(),
            },
    {
        let b = match self.transport.recv_message(link) {
            Ok(b) => b,
            Err(e) => {
                return Err(e);
            },
        };
        self.handle_subscribe(link, b.as_slice())
    }

    /// Processes the subscription `b` fetched from `link`: records the subscriber and gives it a
    /// cursor at the announcement.
    pub fn handle_subscribe(&mut self, link: &Address, b: &[u8]) -> (r: Result<(), Error>)
        requires
            old(self).wf(),
        ensures
            final(self).wf(),
            final(self).sig_pk@ == old(self).sig_pk@,
            final(self).ke_pk@ == old(self).ke_pk@,
            final(self).ke_sk@ == old(self).ke_sk@,
            match subscribe_receive::<F>(old(self).state(), link.view(), b@) {
                Ok(st) => r == Ok::<(), Error>(()) && final(self).state() == st,
                Err(e) => r == Err::<(), Error>(e) && final(self).state() == old(self).state(),
            },
    {
        let h = match parse_header(b) {
            Ok(h) => h,
            Err(e) => {
                return Err(e);
            },
        };
        if !h.addr.same_as(link) {
            return Err(Error::LinkMismatch);
        }
        if h.msg_type != SUBSCRIBE {
            return Err(Error::BadType);
        }
        let ann = match &self.announce_link {
            Some(a) => to_vec(a.as_slice()),
            None => {
                return Err(Error::StateMismatch);
            },
        };
        let mut s = match self.links.lookup(ann.as_slice()) {
            Some(s) => s,
            None => {
                return Err(Error::LinkMismatch);
            },
        };
        let body = copy_range(b, HEADER_SIZE, b.len() - HEADER_SIZE);
        let c = match unwrap_subscribe(&mut s, body.as_slice()) {
            Ok(c) => c,
            Err(e) => {
                return Err(e);
            },
        };
        if !bytes_eq(c.link.as_slice(), ann.as_slice()) {
            return Err(Error::LinkMismatch);
        }
        let ghost st0 = self.state();
        let ghost sig = c.sig_pk@;
        let ghost ke = c.ke_pk@;
        if self.find_subscriber(c.sig_pk.as_slice()).is_none() {
            let ghost before = pair_views(self.subscribers@);
            self.subscribers.push((to_vec(c.sig_pk.as_slice()), to_vec(c.ke_pk.as_slice())));
            assert(pair_views(self.subscribers@) =~= before.push((sig, ke)));
        } else {
            let i = self.find_subscriber(c.sig_pk.as_slice());
            assert(exists|k: int| 0 <= k < st0.subscribers.len() && st0.subscribers[k].0 == sig) by {
                let k = i.unwrap() as int;
                assert(st0.subscribers[k].0 == sig);
            }
        }
        if self.key_store.find(c.sig_pk.as_slice()).is_none() {
            self.key_store.insert_cursor(c.sig_pk, Cursor { link: ann, seq_num: FIRST_SEQ_NUM, branch_no: 0 });
        }
        assert(self.state() == subscribed(st0, sig, ke));
        Ok(())
    }

    /// Reads the keyload `b` fetched from `link` with this author's keys, without recording it:
    /// returns the entry to add to the link store, if the keyload is new.
    pub fn read_keyload(&self, link: &Address, b: &[u8]) -> (r: Result<Option<(Vec<u8>, F)>, Error>)
        requires
            self.wf(),
        ensures
            match keyload_receive::<F>(self.state(), self.ke_pk@, self.ke_sk@, link.view(), b@) {
                Ok(st) => r matches Ok(x) && match x {
                    Some((id, s)) => id@ == link.msgid@ && !has_link(self.state().links, id@) && st == (UserState {
                        links: self.state().links.push((id@, s.history())),
                        ..self.state()
                    }),
                    None => st == self.state(),
                },
                Err(e) => r matches Err(e2) && e2 == e,
            },
    {
        let h = match parse_header(b) {
            Ok(h) => h,
            Err(e) => {
                return Err(e);
            },
        };
        if !h.addr.same_as(link) {
            return Err(Error::LinkMismatch);
        }
        if h.msg_type != KEYLOAD {
            return Err(Error::BadType);
        }
        if b.len() < HEADER_SIZE + MSGID_SIZE {
            return Err(Error::Malformed);
        }
        let body = copy_range(b, HEADER_SIZE, b.len() - HEADER_SIZE);
        let parent = copy_range(body.as_slice(), 0, MSGID_SIZE);
        assert(parent@ =~= body@.subrange(0, MSGID_SIZE as int));
        let mut s = match self.links.lookup(parent.as_slice()) {
            Some(s) => s,
            None => {
                return Err(Error::LinkMismatch);
            },
        };
        let mut u = ContentUnwrap::new(self.copy_psks(), to_vec(self.ke_pk.as_slice()), to_vec(self.ke_sk.as_slice()));
        match u.unwrap(&mut s, body.as_slice()) {
            Ok(()) => {},
            Err(e) => {
                return Err(e);
            },
        }
        if self.links.contains(h.addr.msgid.as_slice()) {
            Ok(None)
        } else {
            Ok(Some((to_vec(h.addr.msgid.as_slice()), s)))
        }
    }

    /// Processes the keyload `b` fetched from `link` with this author's keys, and records it
    /// if it opens and is new.
    pub fn handle_keyload(&mut self, link: &Address, b: &[u8]) -> (r: Result<(), Error>)
        requires
            old(self).wf(),
        ensures
            final(self).wf(),
            final(self).sig_pk@ == old(self).sig_pk@,
            final(self).ke_pk@ == old(self).ke_pk@,
            final(self).ke_sk@ == old(self).ke_sk@,
            match keyload_receive::<F>(old(self).state(), old(self).ke_pk@, old(self).ke_sk@, link.view(), b@) {
                Ok(st) => r == Ok::<(), Error>(()) && final(self).state() == st,
                Err(e) => r == Err::<(), Error>(e) && final(self).state() == old(self).state(),
            },
    {
        match self.read_keyload(link, b) {
            Ok(Some((id, s))) => {
                self.links.insert(id, s);
                Ok(())
            },
            Ok(None) => Ok(()),
            Err(e) => Err(e),
        }
    }

    /// The error for a packet `b` fetched from `link` whose parent is not in the link store,
    /// given the parent's bytes `pb` as fetched (`None` where the transport had none):
    /// `KeyNotFound` where the parent is a keyload that no key of this author opens,
    /// `LinkMismatch` otherwise.
    pub fn orphan_error(&self, link: &Address, b: &[u8], pb: Option<&[u8]>) -> (r: Error)
        requires
            self.wf(),
        ensures
            r == if b@.len() >= HEADER_SIZE + MSGID_SIZE && (pb matches Some(p) && keyload_receive::<F>(
                self.state(),
                self.ke_pk@,
                self.ke_sk@,
                (link.appinst@, b@.subrange(HEADER_SIZE as int, HEADER_SIZE + MSGID_SIZE)),
                p@,
            ) == Err::<UserState, Error>(Error::KeyNotFound)) {
                Error::KeyNotFound
            } else {
                Error::LinkMismatch
            },
    {
        if b.len() < HEADER_SIZE + MSGID_SIZE {
            return Error::LinkMismatch;
        }
        let p = match pb {
            Some(p) => p,
            None => {
                return Error::LinkMismatch;
            },
        };
        let at = Address { appinst: to_vec(link.appinst.as_slice()), msgid: copy_range(b, HEADER_SIZE, MSGID_SIZE) };
        match self.read_keyload(&at, p) {
            Err(Error::KeyNotFound) => Error::KeyNotFound,
            _ => Error::LinkMismatch,
        }
    }

    /// Fetches the parent of the packet `b` fetched from `link` and gives `orphan_error` for it.
    fn parent_error(&mut self, link: &Address, b: &[u8]) -> (r: Error)
        requires
            old(self).wf(),
        ensures
            final(self).wf(),
            final(self).state() == old(self).state(),
            final(self).sig_pk@ == old(self).sig_pk@,
            final(self).ke_pk@ == old(self).ke_pk@,
            final(self).ke_sk@ == old(self).ke_sk@,
    {
        if b.len() < HEADER_SIZE + MSGID_SIZE {
            return Error::LinkMismatch;
        }
        let at = Address { appinst: to_vec(link.appinst.as_slice()), msgid: copy_range(b, HEADER_SIZE, MSGID_SIZE) };
        match self.transport.recv_message(&at) {
            Ok(pb) => self.orphan_error(link, b, Some(pb.as_slice())),
            Err(_) => self.orphan_error(link, b, None),
        }
    }

    /// A copy of the stored pre-shared keys.
    fn copy_psks(&self) -> (r: Vec<PskEntry>)
        requires
            self.wf(),
        ensures
            psk_pairs(r@) == self.state().psks,
            forall|x: int| 0 <= x < r@.len() ==> (#[trigger] r@[x]).id@.len() == 16,
    {
        let mut p: Vec<PskEntry> = Vec::new();
        let mut i: usize = 0;
        while i < self.psks.len()
            invariant
                self.wf(),
                i <= self.psks@.len(),
                psk_pairs(p@) == psk_pairs(self.psks@).take(i as int),
                forall|x: int| 0 <= x < p@.len() ==> (#[trigger] p@[x]).id@.len() == 16,
            decreases self.psks@.len() - i,
        {
            let ghost before = psk_pairs(p@);
            p.push(PskEntry { id: to_vec(self.psks[i].id.as_slice()), psk: to_vec(self.psks[i].psk.as_slice()) });
            assert(psk_pairs(p@) =~= before.push(psk_pairs(self.psks@)[i as int]));
            assert(psk_pairs(self.psks@).take(i + 1) =~= psk_pairs(self.psks@).take(i as int).push(psk_pairs(self.psks@)[i as int]));
            i = i + 1;
        }
        assert(psk_pairs(self.psks@).take(i as int) =~= psk_pairs(self.psks@));
        p
    }

    /// Processes the message `b` fetched from `link`, whatever its type: a tagged or signed
    /// packet or a keyload is read and recorded, a subscription is recorded, and an
    /// announcement must be one already known.
    pub fn handle_msg(&mut self, link: &Address, b: &[u8]) -> (r: Result<UnwrappedMessage, Error>)
        requires
            old(self).wf(),
        ensures
            final(self).wf(),
            final(self).sig_pk@ == old(self).sig_pk@,
            final(self).ke_pk@ == old(self).ke_pk@,
            final(self).ke_sk@ == old(self).ke_sk@,
            match msg_receive::<F>(old(self).state(), old(self).ke_pk@, old(self).ke_sk@, link.view(), b@) {
                Ok((t, signer, p, q, st)) => r matches Ok(m) && message_is(m, link.view(), t, signer, p, q)
                    && final(self).state() == st,
                Err(e) => r == Err::<UnwrappedMessage, Error>(e) && final(self).state() == old(self).state(),
            },
    {
        let h = match parse_header(b) {
            Ok(h) => h,
            Err(e) => {
                return Err(e);
            },
        };
        let empty1: Vec<u8> = Vec::new();
        let empty2: Vec<u8> = Vec::new();
        if h.msg_type == SIGNED_PACKET {
            match self.handle_signed_packet(link, b) {
                Ok(c) => Ok(UnwrappedMessage {
                    link: link.duplicate(),
                    msg_type: SIGNED_PACKET,
                    signer: Some(c.signer),
                    public_payload: c.public_payload,
                    masked_payload: c.masked_payload,
                }),
                Err(e) => Err(e),
            }
        } else if h.msg_type == TAGGED_PACKET {
            match self.handle_tagged_packet(link, b) {
                Ok(c) => Ok(UnwrappedMessage {
                    link: link.duplicate(),
                    msg_type: TAGGED_PACKET,
                    signer: None,
                    public_payload: c.public_payload,
                    masked_payload: c.masked_payload,
                }),
                Err(e) => Err(e),
            }
        } else if h.msg_type == SUBSCRIBE {
            match self.handle_subscribe(link, b) {
                Ok(()) => Ok(UnwrappedMessage { link: link.duplicate(), msg_type: SUBSCRIBE, signer: None, public_payload: empty1, masked_payload: empty2 }),
                Err(e) => Err(e),
            }
        } else if h.msg_type == KEYLOAD {
            match self.handle_keyload(link, b) {
                Ok(()) => Ok(UnwrappedMessage { link: link.duplicate(), msg_type: KEYLOAD, signer: None, public_payload: empty1, masked_payload: empty2 }),
                Err(e) => Err(e),
            }
        } else if h.msg_type == ANNOUNCE {
            if h.addr.same_as(link) && self.links.contains(h.addr.msgid.as_slice()) {
                Ok(UnwrappedMessage { link: link.duplicate(), msg_type: ANNOUNCE, signer: None, public_payload: empty1, masked_payload: empty2 })
            } else {
                Err(Error::ApplicationInstanceMismatch)
            }
        } else {
            Err(Error::BadType)
        }
    }

    /// Fetches the message at `link`, whatever its type, and processes it as `handle_msg` does.
    /// A packet whose parent keyload this author cannot open is a `KeyNotFound`.
    pub fn receive_msg(&mut self, link: &Address) -> (r: Result<UnwrappedMessage, Error>)
        requires
            old(self).wf(),
        ensures
            final(self).wf(),
            final(self).sig_pk@ == old(self).sig_pk@,
            final(self).ke_pk@ == old(self).ke_pk@,
            final(self).ke_sk@ == old(self).ke_sk@,
            match r {
                Ok(m) => exists|b: Seq<u8>|
                    #[trigger] msg_receive::<F>(old(self).state(), old(self).ke_pk@, old(self).ke_sk@, link.view(), b)
                        matches Ok((t, signer, p, q, st)) && message_is(m, link.view(), t, signer, p, q)
                        && final(self).state() == st,
                Err(_) => final(self).state() == old(self).state(),
            },
    {
        let b = match self.transport.recv_message(link) {
            Ok(b) => b,
            Err(e) => {
                return Err(e);
            },
        };
        match self.handle_msg(link, b.as_slice()) {
            Ok(m) => Ok(m),
            Err(Error::LinkMismatch) => Err(self.parent_error(link, b.as_slice())),
            Err(e) => Err(e),
        }
    }

    /// Address of the message that the message `b`, fetched from `link`, is attached to.
    pub fn prev_address(link: &Address, b: &[u8]) -> (r: Result<Address, Error>)
        ensures
            match prev_of(link.view(), b@) {
                Ok(p) => r matches Ok(a) && a.view() == (link.appinst@, p),
                Err(e) => r matches Err(e2) && e2 == e,
            },
    {
        let h = match parse_header(b) {
            Ok(h) => h,
            Err(e) => {
                return Err(e);
            },
        };
        if !h.addr.same_as(link) || h.msg_type == ANNOUNCE || b.len() < HEADER_SIZE + MSGID_SIZE {
            return Err(Error::LinkMismatch);
        }
        Ok(Address { appinst: to_vec(link.appinst.as_slice()), msgid: copy_range(b, HEADER_SIZE, MSGID_SIZE) })
    }

    /// Address of the content that the sequence message `b`, fetched from `link`, points to,
    /// and the publisher it names.
    pub fn read_sequence(link: &Address, b: &[u8]) -> (r: Result<(Vec<u8>, Address), Error>)
        ensures
            match sequence_receive(link.view(), b@) {
                Ok((publisher, content)) => r matches Ok((pb, a)) && pb@ == publisher && a.view() == (
                    link.appinst@,
                    content,
                ),
                Err(e) => r matches Err(e2) && e2 == e,
            },
    {
        let h = match parse_header(b) {
            Ok(h) => h,
            Err(e) => {
                return Err(e);
            },
        };
        if !h.addr.same_as(link) {
            return Err(Error::LinkMismatch);
        }
        if h.msg_type != SEQUENCE {
            return Err(Error::BadType);
        }
        let body = copy_range(b, HEADER_SIZE, b.len() - HEADER_SIZE);
        let sc = match unwrap_sequence(body.as_slice()) {
            Ok(sc) => sc,
            Err(e) => {
                return Err(e);
            },
        };
        Ok((sc.publisher, Address { appinst: to_vec(link.appinst.as_slice()), msgid: sc.content }))
    }

    /// In a single-depth channel, fetches and processes the author's message with sequence
    /// number `msg_num`, whose identifier follows from the anchor (the announcement) and that
    /// number alone. In another channel: `BranchingFlagMismatch`.
    pub fn receive_msg_by_sequence_number(&mut self, anchor_link: &Address, msg_num: u32) -> (r: Result<UnwrappedMessage, Error>)
        requires
            old(self).wf(),
        ensures
            final(self).wf(),
            final(self).sig_pk@ == old(self).sig_pk@,
            old(self).channel_type != ChannelType::SingleDepth ==> r == Err::<UnwrappedMessage, Error>(
                Error::BranchingFlagMismatch,
            ) && final(self).state() == old(self).state(),
            match r {
                Ok(m) => m.link.view() == (
                    anchor_link.appinst@,
                    msgid_of::<F>(anchor_link.appinst@, anchor_link.msgid@, old(self).sig_pk@, msg_num),
                ),
                Err(_) => final(self).state() == old(self).state(),
            },
    {
        match self.channel_type {
            ChannelType::SingleDepth => {},
            _ => {
                return Err(Error::BranchingFlagMismatch);
            },
        }
        let msgid = gen_msgid::<F>(anchor_link.appinst.as_slice(), anchor_link.msgid.as_slice(), self.sig_pk.as_slice(), msg_num);
        let at = Address { appinst: to_vec(anchor_link.appinst.as_slice()), msgid };
        self.receive_msg(&at)
    }

    /// Fetches the message that the message at `link` is attached to, and processes it as
    /// `receive_msg` does. An announcement has no previous message: `LinkMismatch`.
    pub fn fetch_prev_msg(&mut self, link: &Address) -> (r: Result<UnwrappedMessage, Error>)
        requires
            old(self).wf(),
        ensures
            final(self).wf(),
            final(self).sig_pk@ == old(self).sig_pk@,
            final(self).ke_pk@ == old(self).ke_pk@,
            final(self).ke_sk@ == old(self).ke_sk@,
            match r {
                Ok(m) => exists|b: Seq<u8>| #[trigger] prev_of(link.view(), b) == Ok::<Seq<u8>, Error>(m.link.msgid@)
                    && m.link.appinst@ == link.appinst@,
                Err(_) => final(self).state() == old(self).state(),
            },
    {
        let b = match self.transport.recv_message(link) {
            Ok(b) => b,
            Err(e) => {
                return Err(e);
            },
        };
        let prev = match Self::prev_address(link, b.as_slice()) {
            Ok(a) => a,
            Err(e) => {
                return Err(e);
            },
        };
        self.receive_msg(&prev)
    }

    /// Walks back `max` messages from `link`, nearest first: each is the one the previous is
    /// attached to.
    pub fn fetch_prev_msgs(&mut self, link: &Address, max: usize) -> (r: Result<Vec<UnwrappedMessage>, Error>)
        requires
            old(self).wf(),
        ensures
            final(self).wf(),
            final(self).sig_pk@ == old(self).sig_pk@,
            r matches Ok(v) ==> v@.len() == max && forall|i: int|
                0 <= i < v@.len() ==> (#[trigger] v@[i]).link.appinst@ == link.appinst@ && exists|b: Seq<u8>|
                    #[trigger] prev_of(walk_from(link.view(), v@, i), b) == Ok::<Seq<u8>, Error>(v@[i].link.msgid@),
    {
        let mut v: Vec<UnwrappedMessage> = Vec::new();
        let mut cur = link.duplicate();
        let mut i: usize = 0;
        while i < max
            invariant
                self.wf(),
                self.sig_pk@ == old(self).sig_pk@,
                i <= max,
                v@.len() == i,
                cur.appinst@ == link.appinst@,
                cur.view() == walk_from(link.view(), v@, i as int),
                forall|k: int|
                    0 <= k < v@.len() ==> (#[trigger] v@[k]).link.appinst@ == link.appinst@ && exists|b: Seq<u8>|
                        #[trigger] prev_of(walk_from(link.view(), v@, k), b) == Ok::<Seq<u8>, Error>(v@[k].link.msgid@),
            decreases max - i,
        {
            let ghost cv = cur.view();
            let m = match self.fetch_prev_msg(&cur) {
                Ok(m) => m,
                Err(e) => {
                    return Err(e);
                },
            };
            cur = m.link.duplicate();
            let ghost vold = v@;
            v.push(m);
            assert forall|k: int|
                0 <= k < v@.len() implies (#[trigger] v@[k]).link.appinst@ == link.appinst@ && exists|b: Seq<u8>|
                    #[trigger] prev_of(walk_from(link.view(), v@, k), b) == Ok::<Seq<u8>, Error>(v@[k].link.msgid@) by {
                if k < i {
                    assert(v@[k] == vold[k]);
                    if k > 0 {
                        assert(v@[k - 1] == vold[k - 1]);
                    }
                    assert(walk_from(link.view(), v@, k) == walk_from(link.view(), vold, k));
                } else {
                    assert(walk_from(link.view(), v@, k) == cv);
                }
            }
            i = i + 1;
        }
        Ok(v)
    }

    /// Takes the packet `b` fetched from `addr`, the next address of a publisher whose cursor
    /// has sequence number `seq`, in a channel that is not multi-branching: on success the
    /// packet is recorded and every cursor moves to it; otherwise nothing changes.
    pub fn accept_packet(&mut self, addr: &Address, seq: u32, b: &[u8]) -> (r: Option<UnwrappedMessage>)
        requires
            old(self).wf(),
            !has_link(old(self).state().links, addr.msgid@),
            seq < u32::MAX,
        ensures
            final(self).wf(),
            final(self).sig_pk@ == old(self).sig_pk@,
            final(self).ke_pk@ == old(self).ke_pk@,
            final(self).ke_sk@ == old(self).ke_sk@,
            match packet_receive::<F>(old(self).state(), addr.view(), b@) {
                Ok((t, signer, p, q, st)) => r matches Some(m) && message_is(m, addr.view(), t, signer, p, q)
                    && final(self).state() == (UserState {
                        cursors: stored_state_for_all(old(self).state().cursors, addr.msgid@, (seq + 1) as u32),
                        ..st
                    }),
                Err(_) => r is None && final(self).state() == old(self).state(),
            },
    {
        match self.handle_packet(addr, b) {
            Ok(m) => {
                self.key_store.store_state_for_all(addr.msgid.as_slice(), seq + 1);
                Some(m)
            },
            Err(_) => None,
        }
    }

    /// Takes the packet `cb` fetched from `content`, pointed to by the sequence message at
    /// `seq_addr` of publisher `id`, in a multi-branching channel: on success the content and
    /// the sequence message are recorded and `id`'s cursor moves to the content; otherwise
    /// nothing changes.
    pub fn accept_sequenced(&mut self, seq_addr: &Address, id: &[u8], content: &Address, cb: &[u8]) -> (r: Option<UnwrappedMessage>)
        requires
            old(self).wf(),
            !has_link(old(self).state().links, content.msgid@),
            !has_link(old(self).state().links, seq_addr.msgid@),
        ensures
            final(self).wf(),
            final(self).sig_pk@ == old(self).sig_pk@,
            final(self).ke_pk@ == old(self).ke_pk@,
            final(self).ke_sk@ == old(self).ke_sk@,
            match packet_receive::<F>(old(self).state(), content.view(), cb@) {
                Ok((t, signer, p, q, st)) => r matches Some(m) && message_is(m, content.view(), t, signer, p, q)
                    && final(self).state() == (UserState {
                        cursors: advanced(old(self).state().cursors, id@, content.msgid@),
                        links: if seq_addr.msgid@ == content.msgid@ {
                            st.links
                        } else {
                            st.links.push((seq_addr.msgid@, Seq::empty()))
                        },
                        ..st
                    }),
                Err(_) => r is None && final(self).state() == old(self).state(),
            },
    {
        let ghost st0 = self.state();
        let m = match self.handle_packet(content, cb) {
            Ok(m) => m,
            Err(_) => {
                return None;
            },
        };
        proof {
            lemma_receive_grows::<F>(st0, content.view(), cb@);
            let l1 = self.state().links;
            if has_link(l1, seq_addr.msgid@) {
                let k = choose|k: int| 0 <= k < l1.len() && l1[k].0 == seq_addr.msgid@;
                if k < st0.links.len() {
                    assert(l1.take(st0.links.len() as int)[k] == l1[k]);
                    assert(st0.links[k].0 == seq_addr.msgid@);
                }
            }
            if seq_addr.msgid@ == content.msgid@ {
                assert(l1[st0.links.len() as int].0 == seq_addr.msgid@);
            }
        }
        if !self.links.contains(seq_addr.msgid.as_slice()) {
            let l1 = to_vec(seq_addr.msgid.as_slice());
            self.links.insert(l1, F::fresh());
        }
        let _ = self.key_store.store_state(id, content.msgid.as_slice());
        Some(m)
    }

    /// Follows the sequence message at `seq_addr`, published by `id`, to its content and takes
    /// that as `accept_sequenced` does.
    fn fetch_sequenced(&mut self, seq_addr: &Address, id: &[u8]) -> (r: Option<UnwrappedMessage>)
        requires
            old(self).wf(),
            !has_link(old(self).state().links, seq_addr.msgid@),
        ensures
            final(self).wf(),
            final(self).sig_pk@ == old(self).sig_pk@,
            final(self).ke_pk@ == old(self).ke_pk@,
            final(self).ke_sk@ == old(self).ke_sk@,
            grows(old(self).state(), final(self).state()),
            r is None ==> final(self).state() == old(self).state(),
            r matches Some(m) ==> has_link(final(self).state().links, m.link.msgid@),
            r is Some ==> final(self).state().links.len() > old(self).state().links.len(),
    {
        let ghost st0 = self.state();
        assert(st0.links.take(st0.links.len() as int) =~= st0.links);
        let b = match self.transport.recv_message(seq_addr) {
            Ok(b) => b,
            Err(_) => {
                return None;
            },
        };
        let (publisher, at) = match Self::read_sequence(seq_addr, b.as_slice()) {
            Ok(x) => x,
            Err(_) => {
                return None;
            },
        };
        if !bytes_eq(publisher.as_slice(), id) || self.links.contains(at.msgid.as_slice()) {
            return None;
        }
        let cb = match self.transport.recv_message(&at) {
            Ok(cb) => cb,
            Err(_) => {
                return None;
            },
        };
        let r = self.accept_sequenced(seq_addr, id, &at, cb.as_slice());
        proof {
            if r is Some {
                lemma_receive_grows::<F>(st0, at.view(), cb@);
                let st1 = self.state();
                assert(st1.links.take(st0.links.len() as int) =~= st0.links);
                assert(st1.links[st0.links.len() as int].0 == at.msgid@);
            }
        }
        r
    }

    /// One pass: for each known publisher, fetches the message at its next address, if not
    /// known yet. In a multi-branching channel that is a sequence message, followed to the
    /// content it points to (`accept_sequenced`); otherwise it is the content itself
    /// (`accept_packet`). Messages that fail to be fetched or read are passed over. A pass that
    /// returns nothing leaves the state as it was; every message returned is in the link store.
    pub fn fetch_next_msgs(&mut self) -> (r: Vec<UnwrappedMessage>)
        requires
            old(self).wf(),
        ensures
            final(self).wf(),
            final(self).sig_pk@ == old(self).sig_pk@,
            final(self).ke_pk@ == old(self).ke_pk@,
            final(self).ke_sk@ == old(self).ke_sk@,
            grows(old(self).state(), final(self).state()),
            final(self).state().links.len() >= old(self).state().links.len() + r@.len(),
            r@.len() == 0 ==> final(self).state() == old(self).state(),
            forall|k: int| 0 <= k < r@.len() ==> has_link(final(self).state().links, (#[trigger] r@[k]).link.msgid@),
    {
        let ghost st0 = self.state();
        let mut r: Vec<UnwrappedMessage> = Vec::new();
        let appinst = match &self.appinst {
            Some(a) => to_vec(a.as_slice()),
            None => {
                assert(self.state().links.take(st0.links.len() as int) =~= st0.links);
                return r;
            },
        };
        assert(self.state().links.take(st0.links.len() as int) =~= st0.links);
        let mut i: usize = 0;
        while i < self.key_store.entries.len()
            invariant
                self.wf(),
                self.sig_pk@ == old(self).sig_pk@,
                self.ke_pk@ == old(self).ke_pk@,
                self.ke_sk@ == old(self).ke_sk@,
                i <= st0.cursors.len(),
                self.key_store.entries@.len() == st0.cursors.len(),
                grows(st0, self.state()),
                self.state().links.len() >= st0.links.len() + r@.len(),
                r@.len() == 0 ==> self.state() == st0,
                forall|k: int| 0 <= k < r@.len() ==> has_link(self.state().links, (#[trigger] r@[k]).link.msgid@),
            decreases st0.cursors.len() - i,
        {
            let id = to_vec(self.key_store.entries[i].0.as_slice());
            let seq = self.key_store.entries[i].1.seq_num;
            let base = match self.channel_type {
                ChannelType::SingleDepth => match &self.announce_link {
                    Some(a) => to_vec(a.as_slice()),
                    None => to_vec(self.key_store.entries[i].1.link.as_slice()),
                },
                _ => to_vec(self.key_store.entries[i].1.link.as_slice()),
            };
            let msgid = gen_msgid::<F>(appinst.as_slice(), base.as_slice(), id.as_slice(), seq);
            let addr = Address { appinst: to_vec(appinst.as_slice()), msgid };
            if !self.links.contains(addr.msgid.as_slice()) && seq < u32::MAX {
                let ghost st1 = self.state();
                let found = match self.channel_type {
                    ChannelType::MultiBranch => self.fetch_sequenced(&addr, id.as_slice()),
                    _ => match self.transport.recv_message(&addr) {
                        Ok(b) => {
                            let ghost sta = self.state();
                            let f = self.accept_packet(&addr, seq, b.as_slice());
                            proof {
                                if f is Some {
                                    lemma_receive_grows::<F>(sta, addr.view(), b@);
                                    assert(self.state().links.take(sta.links.len() as int) =~= sta.links);
                                    assert(self.state().links[sta.links.len() as int].0 == addr.msgid@);
                                } else {
                                    assert(self.state().links.take(sta.links.len() as int) =~= sta.links);
                                }
                            }
                            f
                        },
                        Err(_) => None,
                    },
                };
                proof {
                    assert(self.state().links.take(st1.links.len() as int) == st1.links);
                    assert(self.state().links.take(st0.links.len() as int) =~= st0.links) by {
                        assert(st1.links.take(st0.links.len() as int) == st0.links);
                    }
                    assert forall|k: int| 0 <= k < r@.len() implies has_link(self.state().links, (#[trigger] r@[k]).link.msgid@) by {
                        lemma_has_link_grows(st1.links, self.state().links, r@[k].link.msgid@);
                    }
                }
                match found {
                    Some(m) => {
                        r.push(m);
                    },
                    None => {},
                }
            }
            i = i + 1;
        }
        r
    }

    /// Fetches until a pass finds nothing new.
    pub fn sync_state(&mut self)
        requires
            old(self).wf(),
        ensures
            final(self).wf(),
            final(self).sig_pk@ == old(self).sig_pk@,
            final(self).ke_pk@ == old(self).ke_pk@,
            final(self).ke_sk@ == old(self).ke_sk@,
            grows(old(self).state(), final(self).state()),
            final(self).state().links.len() == old(self).state().links.len() ==> final(self).state() == old(self).state(),
    {
        let _ = self.fetch_all_next_msgs();
    }

    /// Fetches until a pass finds nothing new, and returns every message found.
    pub fn fetch_all_next_msgs(&mut self) -> (r: Vec<UnwrappedMessage>)
        requires
            old(self).wf(),
        ensures
            final(self).wf(),
            final(self).sig_pk@ == old(self).sig_pk@,
            final(self).ke_pk@ == old(self).ke_pk@,
            final(self).ke_sk@ == old(self).ke_sk@,
            grows(old(self).state(), final(self).state()),
            final(self).state().links.len() >= old(self).state().links.len() + r@.len(),
            r@.len() == 0 ==> final(self).state() == old(self).state(),
            forall|k: int| 0 <= k < r@.len() ==> has_link(final(self).state().links, (#[trigger] r@[k]).link.msgid@),
    {
        let ghost st0 = self.state();
        let mut msgs: Vec<UnwrappedMessage> = Vec::new();
        assert(self.state().links.take(st0.links.len() as int) =~= st0.links);
        loop
            invariant
                self.wf(),
                self.sig_pk@ == old(self).sig_pk@,
                self.ke_pk@ == old(self).ke_pk@,
                self.ke_sk@ == old(self).ke_sk@,
                grows(st0, self.state()),
                self.state().links.len() >= st0.links.len() + msgs@.len(),
                msgs@.len() == 0 ==> self.state() == st0,
                forall|k: int| 0 <= k < msgs@.len() ==> has_link(self.state().links, (#[trigger] msgs@[k]).link.msgid@),
            decreases usize::MAX - self.state().links.len(),
        {
            let ghost st1 = self.state();
            let mut next = self.fetch_next_msgs();
            assert(self.state().links.take(st0.links.len() as int) =~= st0.links) by {
                assert(self.state().links.take(st1.links.len() as int) == st1.links);
                assert(st1.links.take(st0.links.len() as int) == st0.links);
            }
            assert forall|k: int| 0 <= k < msgs@.len() implies has_link(self.state().links, (#[trigger] msgs@[k]).link.msgid@) by {
                lemma_has_link_grows(st1.links, self.state().links, msgs@[k].link.msgid@);
            }
            if next.len() == 0 {
                break;
            }
            let ghost m0 = msgs@;
            let ghost n0 = next@;
            msgs.append(&mut next);
            assert forall|k: int| 0 <= k < msgs@.len() implies has_link(self.state().links, (#[trigger] msgs@[k]).link.msgid@) by {
                if k < m0.len() {
                    assert(msgs@[k] == m0[k]);
                } else {
                    assert(msgs@[k] == n0[k - m0.len()]);
                }
            }
            // The link store's length is a `usize`: it cannot grow for ever.
            let n = self.links.len();
        }
        msgs
    }

    /// Fetches the sequence message at `link` and returns the address of the content it points
    /// to, as `read_sequence` reads it. The state is left as it is.
    pub fn receive_sequence(&mut self, link: &Address) -> (r: Result<Address, Error>)
        requires
            old(self).wf(),
        ensures
            final(self).wf(),
            final(self).sig_pk@ == old(self).sig_pk@,
            final(self).state() == old(self).state(),
            r matches Ok(a) ==> exists|b: Seq<u8>|
                #[trigger] sequence_receive(link.view(), b) matches Ok((_, c)) && a.view() == (link.appinst@, c),
    {
        let b = match self.transport.recv_message(link) {
            Ok(b) => b,
            Err(e) => {
                return Err(e);
            },
        };
        match Self::read_sequence(link, b.as_slice()) {
            Ok((_, a)) => Ok(a),
            Err(e) => Err(e),
        }
    }

    /// Rewinds the sequencing state to just after the announcement: every cursor back to it,
    /// and the link store holding it alone. Keys, pre-shared keys and subscribers are kept.
    /// Before the announcement nothing changes.
    pub fn reset_state(&mut self)
        requires
            old(self).wf(),
        ensures
            final(self).wf(),
            final(self).sig_pk@ == old(self).sig_pk@,
            final(self).ke_pk@ == old(self).ke_pk@,
            final(self).ke_sk@ == old(self).ke_sk@,
            match old(self).state().announce_link {
                Some(ann) => if has_link(old(self).state().links, ann) {
                    final(self).state() == (UserState {
                        cursors: rewound(old(self).state().cursors, ann, FIRST_SEQ_NUM),
                        links: seq![(ann, state_of(old(self).state().links, ann))],
                        ..old(self).state()
                    })
                } else {
                    final(self).state() == old(self).state()
                },
                None => final(self).state() == old(self).state(),
            },
    {
        let ann = match &self.announce_link {
            Some(a) => to_vec(a.as_slice()),
            None => {
                return;
            },
        };
        let s = match self.links.lookup(ann.as_slice()) {
            Some(s) => s,
            None => {
                return;
            },
        };
        let mut links: LinkStore<F> = LinkStore::new();
        links.insert(to_vec(ann.as_slice()), s);
        self.links = links;
        self.key_store.rewind(ann.as_slice(), FIRST_SEQ_NUM);
        assert(self.state().links =~= seq![(ann@, state_of(old(self).state().links, ann@))]);
    }

    /// The author as text: its public key, then one line per known publisher.
    pub fn describe(&self) -> (r: String)
        ensures
            r@ == describe_text(self.sig_pk@, self.state().cursors),
    {
        let mut r = String::new();
        r.append("<");
        r.append(to_hex(self.sig_pk.as_slice()).as_str());
        r.append(">\n");
        proof {
            reveal_strlit("<");
            reveal_strlit(">\n");
        }
        assert(r@ =~= seq!['<'] + hex_of(self.sig_pk@) + seq!['>', '\n']);
        let ghost head = r@;
        let ghost v = self.state().cursors;
        let mut i: usize = 0;
        assert(cursor_lines(v.take(0)) =~= Seq::<char>::empty());
        while i < self.key_store.entries.len()
            invariant
                i <= v.len(),
                v == self.state().cursors,
                self.key_store.entries@.len() == v.len(),
                r@ == head + cursor_lines(v.take(i as int)),
            decreases v.len() - i,
        {
            let ghost before = r@;
            r.append(to_hex(self.key_store.entries[i].0.as_slice()).as_str());
            r.append(" => ");
            r.append(to_hex(self.key_store.entries[i].1.link.as_slice()).as_str());
            r.append("\n");
            proof {
                reveal_strlit(" => ");
                reveal_strlit("\n");
                let t = v.take(i + 1);
                assert(t.drop_last() =~= v.take(i as int));
                assert(t.last() == v[i as int]);
                assert(r@ =~= before + hex_of(v[i as int].0) + seq![' ', '=', '>', ' '] + hex_of(v[i as int].1.link)
                    + seq!['\n']);
            }
            i = i + 1;
        }
        assert(v.take(i as int) =~= v);
        r
    }

    /// Rebuilds an author from its keys: its announcement, rebuilt, must be the message stored
    /// at `announcement`, else `PublicPayloadMismatch`. The author then catches up with the
    /// channel.
    pub fn recover(
        sig_sk: Vec<u8>,
        ke_pk: Vec<u8>,
        ke_sk: Vec<u8>,
        announcement: &Address,
        channel_type: ChannelType,
        transport: Trans,
    ) -> (r: Result<Self, Error>)
        requires
            sig_sk@.len() == 32,
            ke_pk@.len() == PK_SIZE,
            ke_sk@.len() == PK_SIZE,
        ensures
            r matches Ok(a) ==> a.wf() && a.sig_pk@ == ed_public_of(sig_sk@) && a.ke_pk@
                == ke_pk@ && a.ke_sk@ == ke_sk@ && grows(
                announced::<F>(fresh_state(channel_type, ed_public_of(sig_sk@)), ed_public_of(sig_sk@), ke_pk@),
                a.state(),
            ),
    {
        let mut author = Author::new(sig_sk, ke_pk, ke_sk, channel_type, transport);
        let retrieved = match author.transport.recv_message(announcement) {
            Ok(b) => b,
            Err(e) => {
                return Err(e);
            },
        };
        match author.adopt_announcement(retrieved.as_slice()) {
            Ok(()) => {},
            Err(e) => {
                return Err(e);
            },
        }
        author.sync_state();
        Ok(author)
    }

    /// For each known publisher, where its next message will be: a cursor whose link is the
    /// identifier of that message. The identifier follows from the publisher's own cursor in
    /// either sequencing mode.
    pub fn gen_next_msg_ids(&self, branching: bool) -> (r: Vec<(Vec<u8>, Cursor)>)
        requires
            self.wf(),
        ensures
            r@.len() == self.state().cursors.len(),
            forall|i: int|
                0 <= i < r@.len() ==> (#[trigger] r@[i]).0@ == self.state().cursors[i].0 && r@[i].1.view() == (
                CursorView {
                    link: msgid_of::<F>(
                        appinst_of(self.sig_pk@, 0),
                        chain_link(self.state(), self.state().cursors[i].1),
                        self.state().cursors[i].0,
                        self.state().cursors[i].1.seq_num,
                    ),
                    ..self.state().cursors[i].1
                }),
    {
        let appinst = match &self.appinst {
            Some(a) => a,
            None => {
                return Vec::new();
            },
        };
        let mut r: Vec<(Vec<u8>, Cursor)> = Vec::new();
        let mut i: usize = 0;
        while i < self.key_store.entries.len()
            invariant
                self.wf(),
                appinst@ == appinst_of(self.sig_pk@, 0),
                i <= self.key_store.entries@.len(),
                r@.len() == i,
                forall|k: int|
                    0 <= k < i ==> (#[trigger] r@[k]).0@ == self.state().cursors[k].0 && r@[k].1.view() == (
                    CursorView {
                        link: msgid_of::<F>(
                            appinst_of(self.sig_pk@, 0),
                            chain_link(self.state(), self.state().cursors[k].1),
                            self.state().cursors[k].0,
                            self.state().cursors[k].1.seq_num,
                        ),
                        ..self.state().cursors[k].1
                    }),
            decreases self.key_store.entries@.len() - i,
        {
            let id = self.key_store.entries[i].0.as_slice();
            let c = &self.key_store.entries[i].1;
            let base = match self.channel_type {
                ChannelType::SingleDepth => match &self.announce_link {
                    Some(a) => a.as_slice(),
                    None => {
                        return r;
                    },
                },
                _ => c.link.as_slice(),
            };
            let next = gen_msgid::<F>(appinst.as_slice(), base, id, c.seq_num);
            r.push((to_vec(id), Cursor { link: next, seq_num: c.seq_num, branch_no: c.branch_no }));
            i = i + 1;
        }
        r
    }
}

/// The channel gives each publisher a branch of its own.
pub open spec fn is_multi(st: UserState) -> bool {
    st.channel_type == ChannelType::MultiBranch
}

/// Checks made before the author publishes a message attached to `link_to`, in order.
pub open spec fn send_check<F: Spongos>(st: UserState, sig_pk: Seq<u8>, link_to: (Seq<u8>, Seq<u8>)) -> Result<(), Error> {
    if st.appinst != Some(link_to.0) {
        Err(Error::ApplicationInstanceMismatch)
    } else if !has_link(st.links, link_to.1) {
        Err(Error::LinkMismatch)
    } else {
        match cursor_of(st.cursors, sig_pk) {
            None => Err(Error::StateMismatch),
            Some(c) => if c.seq_num == u32::MAX || st.announce_link is None {
                Err(Error::StateMismatch)
            } else if has_link(st.links, next_msgid::<F>(st, sig_pk)) {
                Err(Error::StateMismatch)
            } else if is_multi(st) && (has_link(st.links, content_msgid::<F>(st, sig_pk)) || content_msgid::<F>(
                st,
                sig_pk,
            ) == next_msgid::<F>(st, sig_pk)) {
                Err(Error::StateMismatch)
            } else {
                Ok(())
            },
        }
    }
}

/// The message from which a publisher's next identifier is derived: the announcement in a
/// single-depth channel, so that a message can be found from its sequence number alone; the
/// publisher's latest message otherwise.
pub open spec fn chain_link(st: UserState, c: CursorView) -> Seq<u8> {
    if st.channel_type == ChannelType::SingleDepth {
        st.announce_link.unwrap()
    } else {
        c.link
    }
}

/// Identifier of the author's next message, where its readers look for it: it follows from the
/// author's own cursor. In a multi-branching channel the sequence message stands there.
pub open spec fn next_msgid<F: Spongos>(st: UserState, sig_pk: Seq<u8>) -> Seq<u8> {
    let c = cursor_of(st.cursors, sig_pk).unwrap();
    msgid_of::<F>(st.appinst.unwrap(), chain_link(st, c), sig_pk, c.seq_num)
}

/// Identifier of the author's next content message: in a multi-branching channel it follows
/// from the sequence message's identifier; otherwise it is that identifier.
pub open spec fn content_msgid<F: Spongos>(st: UserState, sig_pk: Seq<u8>) -> Seq<u8> {
    let next = next_msgid::<F>(st, sig_pk);
    if is_multi(st) {
        msgid_of::<F>(st.appinst.unwrap(), next, sig_pk, cursor_of(st.cursors, sig_pk).unwrap().seq_num)
    } else {
        next
    }
}

/// State after the author publishes a content message whose committed sponge state is `h`.
/// In a multi-branching channel the content and the sequence message are recorded and the
/// author's own cursor moves to the content; otherwise every cursor moves to it.
pub open spec fn published<F: Spongos>(st: UserState, sig_pk: Seq<u8>, h: Seq<Op>) -> UserState {
    let next = next_msgid::<F>(st, sig_pk);
    let content = content_msgid::<F>(st, sig_pk);
    if is_multi(st) {
        UserState {
            cursors: stored_state(st.cursors, sig_pk, content),
            links: st.links.push((content, h)).push((next, Seq::empty())),
            ..st
        }
    } else {
        UserState {
            cursors: stored_state_for_all(st.cursors, next, (cursor_of(st.cursors, sig_pk).unwrap().seq_num + 1) as u32),
            links: st.links.push((next, h)),
            ..st
        }
    }
}

/// What a send returns and leaves, for a content message whose committed state is `h`.
pub open spec fn send_outcome<F: Spongos>(
    st: UserState,
    sig_pk: Seq<u8>,
    link_to: (Seq<u8>, Seq<u8>),
    h: Seq<Op>,
    r: Result<(Address, Option<Address>), Error>,
    st1: UserState,
) -> bool {
    match send_check::<F>(st, sig_pk, link_to) {
        Err(e) => r == Err::<(Address, Option<Address>), Error>(e) && st1 == st,
        Ok(()) => match r {
            Ok((a, seq)) => {
                &&& a.view() == (link_to.0, content_msgid::<F>(st, sig_pk))
                &&& if is_multi(st) {
                    seq matches Some(sa) && sa.view() == (link_to.0, next_msgid::<F>(st, sig_pk))
                } else {
                    seq is None
                }
                &&& st1 == published::<F>(st, sig_pk, h)
            },
            Err(_) => st1 == st,
        },
    }
}

/// `b` extends `a` by received messages: links are only added, cursors keep their publishers
/// and their sequence numbers never go down, the rest is unchanged.
pub open spec fn grows(a: UserState, b: UserState) -> bool {
    &&& b.links.len() >= a.links.len()
    &&& b.links.take(a.links.len() as int) == a.links
    &&& b.cursors.len() == a.cursors.len()
    &&& forall|i: int|
        0 <= i < a.cursors.len() ==> (#[trigger] b.cursors[i]).0 == a.cursors[i].0 && b.cursors[i].1.seq_num
            >= a.cursors[i].1.seq_num
    &&& b.channel_type == a.channel_type
    &&& b.appinst == a.appinst
    &&& b.announce_link == a.announce_link
    &&& b.psks == a.psks
    &&& b.subscribers == a.subscribers
}

/// Identifier of the announcement.
pub open spec fn announce_msgid<F: Spongos>(sig_pk: Seq<u8>) -> Seq<u8> {
    msgid_of::<F>(appinst_of(sig_pk, 0), Seq::empty(), sig_pk, 0)
}

/// State after the announcement.
pub open spec fn announced<F: Spongos>(st: UserState, sig_pk: Seq<u8>, ke_pk: Seq<u8>) -> UserState {
    let msgid = announce_msgid::<F>(sig_pk);
    UserState {
        announce_link: Some(msgid),
        cursors: inserted(st.cursors, sig_pk, CursorView { link: msgid, seq_num: FIRST_SEQ_NUM, branch_no: 0 }),
        links: st.links.push((msgid, announce_final(Seq::empty(), sig_pk, ke_pk, st.channel_type))),
        ..st
    }
}

/// Sponge operations from which the nonce and the session key of keyload `msgid` are drawn.
pub open spec fn session_history(ke_sk: Seq<u8>, msgid: Seq<u8>) -> Seq<Op> {
    seq![Op::Absorb(ke_sk), Op::Absorb(msgid), Op::Commit]
}

pub open spec fn session_nonce<F: Spongos>(ke_sk: Seq<u8>, msgid: Seq<u8>) -> Seq<u8> {
    F::squeezed(session_history(ke_sk, msgid), 16)
}

pub open spec fn session_key<F: Spongos>(ke_sk: Seq<u8>, msgid: Seq<u8>) -> Seq<u8> {
    F::squeezed(session_history(ke_sk, msgid).push(Op::Squeeze(16)), 32)
}

/// Committed state of the author's keyload `msgid` attached to `link_to`.
pub open spec fn keyload_state<F: Spongos>(st: UserState, ke_sk: Seq<u8>, link_to: Seq<u8>, msgid: Seq<u8>) -> Seq<Op> {
    keyload_final(state_of(st.links, link_to), link_to, session_nonce::<F>(ke_sk, msgid), session_key::<F>(ke_sk, msgid))
}

/// `id` names a stored pre-shared key or a subscriber.
pub open spec fn known_id(st: UserState, id: Seq<u8>) -> bool {
    lookup_known(st.psks, id) || exists|i: int| 0 <= i < st.subscribers.len() && st.subscribers[i].0 == id
}

/// State after a subscription by `sig_pk` with X25519 key `ke_pk`: a new subscriber is
/// recorded, and gets a cursor at the announcement.
pub open spec fn subscribed(st: UserState, sig_pk: Seq<u8>, ke_pk: Seq<u8>) -> UserState {
    UserState {
        subscribers: if exists|i: int| 0 <= i < st.subscribers.len() && st.subscribers[i].0 == sig_pk {
            st.subscribers
        } else {
            st.subscribers.push((sig_pk, ke_pk))
        },
        cursors: if has_id(st.cursors, sig_pk) {
            st.cursors
        } else {
            st.cursors.push(
                (sig_pk, CursorView { link: st.announce_link.unwrap(), seq_num: FIRST_SEQ_NUM, branch_no: 0 }),
            )
        },
        ..st
    }
}

/// What receiving the tagged packet `b`, fetched from address `addr`, yields: the public and
/// masked payloads, and the state after it. A message already known is read again and leaves
/// the state as it is.
pub open spec fn tagged_receive<F: Spongos>(st: UserState, addr: (Seq<u8>, Seq<u8>), b: Seq<u8>) -> Result<(Seq<u8>, Seq<u8>, UserState), Error> {
    match header_parse(b) {
        Err(e) => Err(e),
        Ok((appinst, msgid, t)) => if (appinst, msgid) != addr {
            Err(Error::LinkMismatch)
        } else if t != TAGGED_PACKET {
            Err(Error::BadType)
        } else if b.len() < HEADER_SIZE + MSGID_SIZE {
            Err(Error::Malformed)
        } else {
            let body = b.subrange(HEADER_SIZE as int, b.len() as int);
            let parent = body.subrange(0, MSGID_SIZE as int);
            if !has_link(st.links, parent) {
                Err(Error::LinkMismatch)
            } else {
                let h0 = state_of(st.links, parent);
                match tagged_unwrap::<F>(h0, body) {
                    Err(e) => Err(e),
                    Ok((link, public, masked)) => Ok((public, masked, if has_link(st.links, msgid) {
                        st
                    } else {
                        UserState { links: st.links.push((msgid, tagged_final(h0, link, public, masked))), ..st }
                    })),
                }
            }
        },
    }
}

/// What receiving the signed packet `b`, fetched from address `addr`, yields: signer, public
/// and masked payloads, and the state after it; `SignatureVerificationFailed` where the
/// signature does not verify. A message already known leaves the state as it is.
pub open spec fn signed_receive<F: Spongos>(st: UserState, addr: (Seq<u8>, Seq<u8>), b: Seq<u8>) -> Result<(Seq<u8>, Seq<u8>, Seq<u8>, UserState), Error> {
    match header_parse(b) {
        Err(e) => Err(e),
        Ok((appinst, msgid, t)) => if (appinst, msgid) != addr {
            Err(Error::LinkMismatch)
        } else if t != SIGNED_PACKET {
            Err(Error::BadType)
        } else if b.len() < HEADER_SIZE + MSGID_SIZE {
            Err(Error::Malformed)
        } else {
            let body = b.subrange(HEADER_SIZE as int, b.len() as int);
            let parent = body.subrange(0, MSGID_SIZE as int);
            if !has_link(st.links, parent) {
                Err(Error::LinkMismatch)
            } else {
                let h0 = state_of(st.links, parent);
                match signed_parse::<F>(h0, body) {
                    Err(e) => Err(e),
                    Ok((link, signer, public, masked, sig)) => if !ed_verifies(
                        signer,
                        signed_digest::<F>(h0, link, signer, public, masked),
                        sig,
                    ) {
                        Err(Error::SignatureVerificationFailed)
                    } else {
                        Ok((
                        signer,
                        public,
                        masked,
                        if has_link(st.links, msgid) {
                            st
                        } else {
                            UserState { links: st.links.push((msgid, signed_final(h0, link, signer, public, masked))), ..st }
                        },
                    ))
                    },
                }
            }
        },
    }
}

/// What receiving the keyload `b`, fetched from `addr`, yields for a reader with pre-shared
/// keys in `st` and X25519 key pair (`ke_pk`, `ke_sk`): the state after it, in which the
/// keyload is recorded if it was opened and new. `KeyNotFound` where no key of the reader
/// opens it.
pub open spec fn keyload_receive<F: Spongos>(st: UserState, ke_pk: Seq<u8>, ke_sk: Seq<u8>, addr: (Seq<u8>, Seq<u8>), b: Seq<u8>) -> Result<UserState, Error> {
    match header_parse(b) {
        Err(e) => Err(e),
        Ok((appinst, msgid, t)) => if (appinst, msgid) != addr {
            Err(Error::LinkMismatch)
        } else if t != KEYLOAD {
            Err(Error::BadType)
        } else if b.len() < HEADER_SIZE + MSGID_SIZE {
            Err(Error::Malformed)
        } else {
            let body = b.subrange(HEADER_SIZE as int, b.len() as int);
            let parent = body.subrange(0, MSGID_SIZE as int);
            if !has_link(st.links, parent) {
                Err(Error::LinkMismatch)
            } else {
                let h0 = state_of(st.links, parent);
                match keyload_unwrap::<F>(h0, body, st.psks, ke_pk, ke_sk) {
                    Err(e) => Err(e),
                    Ok((link, nonce, key)) => Ok(if has_link(st.links, msgid) {
                        st
                    } else {
                        UserState { links: st.links.push((msgid, keyload_final(h0, link, nonce, key))), ..st }
                    }),
                }
            }
        },
    }
}

/// What receiving the subscription `b`, fetched from `addr`, yields: the state after it.
pub open spec fn subscribe_receive<F: Spongos>(st: UserState, addr: (Seq<u8>, Seq<u8>), b: Seq<u8>) -> Result<UserState, Error> {
    match header_parse(b) {
        Err(e) => Err(e),
        Ok((appinst, msgid, t)) => if (appinst, msgid) != addr {
            Err(Error::LinkMismatch)
        } else if t != SUBSCRIBE {
            Err(Error::BadType)
        } else {
            match st.announce_link {
                None => Err(Error::StateMismatch),
                Some(ann) => if !has_link(st.links, ann) {
                    Err(Error::LinkMismatch)
                } else {
                    match subscribe_unwrap::<F>(state_of(st.links, ann), b.subrange(HEADER_SIZE as int, b.len() as int)) {
                        Err(e) => Err(e),
                        Ok((link, ke_pk, sig_pk)) => if link != ann {
                            Err(Error::LinkMismatch)
                        } else {
                            Ok(subscribed(st, sig_pk, ke_pk))
                        },
                    }
                },
            }
        },
    }
}

/// Identifier of the content that the sequence message `b`, fetched from `addr`, points to.
pub open spec fn sequence_receive(addr: (Seq<u8>, Seq<u8>), b: Seq<u8>) -> Result<(Seq<u8>, Seq<u8>), Error> {
    match header_parse(b) {
        Err(e) => Err(e),
        Ok((appinst, msgid, t)) => if (appinst, msgid) != addr {
            Err(Error::LinkMismatch)
        } else if t != SEQUENCE {
            Err(Error::BadType)
        } else {
            match sequence_parse(b.subrange(HEADER_SIZE as int, b.len() as int)) {
                Err(e) => Err(e),
                Ok((prev, publisher, seq, content)) => Ok((publisher, content)),
            }
        },
    }
}

/// Identifier of the message that the message `b`, fetched from `addr`, is attached to. An
/// announcement is attached to none.
pub open spec fn prev_of(addr: (Seq<u8>, Seq<u8>), b: Seq<u8>) -> Result<Seq<u8>, Error> {
    match header_parse(b) {
        Err(e) => Err(e),
        Ok((appinst, msgid, t)) => if (appinst, msgid) != addr || t == ANNOUNCE || b.len() < HEADER_SIZE
            + MSGID_SIZE {
            Err(Error::LinkMismatch)
        } else {
            Ok(b.subrange(HEADER_SIZE as int, HEADER_SIZE + MSGID_SIZE))
        },
    }
}

/// What receiving `b`, fetched from `addr`, yields whatever its type: type, signer (signed
/// packets), public and masked payloads (packets), and the state after it.
pub open spec fn msg_receive<F: Spongos>(st: UserState, ke_pk: Seq<u8>, ke_sk: Seq<u8>, addr: (Seq<u8>, Seq<u8>), b: Seq<u8>) -> Result<(u8, Option<Seq<u8>>, Seq<u8>, Seq<u8>, UserState), Error> {
    match header_parse(b) {
        Err(e) => Err(e),
        Ok((appinst, msgid, t)) => if t == SIGNED_PACKET {
            match signed_receive::<F>(st, addr, b) {
                Ok((signer, p, m, st1)) => Ok((t, Some(signer), p, m, st1)),
                Err(e) => Err(e),
            }
        } else if t == TAGGED_PACKET {
            match tagged_receive::<F>(st, addr, b) {
                Ok((p, m, st1)) => Ok((t, None, p, m, st1)),
                Err(e) => Err(e),
            }
        } else if t == SUBSCRIBE {
            match subscribe_receive::<F>(st, addr, b) {
                Ok(st1) => Ok((t, None, Seq::empty(), Seq::empty(), st1)),
                Err(e) => Err(e),
            }
        } else if t == KEYLOAD {
            match keyload_receive::<F>(st, ke_pk, ke_sk, addr, b) {
                Ok(st1) => Ok((t, None, Seq::empty(), Seq::empty(), st1)),
                Err(e) => Err(e),
            }
        } else if t == ANNOUNCE {
            if (appinst, msgid) == addr && has_link(st.links, msgid) {
                Ok((t, None, Seq::empty(), Seq::empty(), st))
            } else {
                Err(Error::ApplicationInstanceMismatch)
            }
        } else {
            Err(Error::BadType)
        }
    }
}

/// What receiving a tagged or signed packet `b` fetched from `addr` yields.
pub open spec fn packet_receive<F: Spongos>(st: UserState, addr: (Seq<u8>, Seq<u8>), b: Seq<u8>) -> Result<(u8, Option<Seq<u8>>, Seq<u8>, Seq<u8>, UserState), Error> {
    match header_parse(b) {
        Err(e) => Err(e),
        Ok((appinst, msgid, t)) => if t == SIGNED_PACKET {
            match signed_receive::<F>(st, addr, b) {
                Ok((signer, p, m, st1)) => Ok((t, Some(signer), p, m, st1)),
                Err(e) => Err(e),
            }
        } else {
            match tagged_receive::<F>(st, addr, b) {
                Ok((p, m, st1)) => Ok((TAGGED_PACKET, None, p, m, st1)),
                Err(e) => Err(e),
            }
        },
    }
}

/// Where the `i`-th step of a walk back from `start` over messages `v` starts.
pub open spec fn walk_from(start: (Seq<u8>, Seq<u8>), v: Seq<UnwrappedMessage>, i: int) -> (Seq<u8>, Seq<u8>) {
    if i == 0 {
        start
    } else {
        v[i - 1].link.view()
    }
}

/// An unwrapped message carries what `msg_receive` yields.
pub open spec fn message_is(m: UnwrappedMessage, addr: (Seq<u8>, Seq<u8>), t: u8, signer: Option<Seq<u8>>, p: Seq<u8>, q: Seq<u8>) -> bool {
    &&& m.link.view() == addr
    &&& m.msg_type == t
    &&& opt_bytes(m.signer) == signer
    &&& m.public_payload@ == p
    &&& m.masked_payload@ == q
}

/// State of a new author with public key `sig_pk`.
pub open spec fn fresh_state(channel_type: ChannelType, sig_pk: Seq<u8>) -> UserState {
    UserState {
        channel_type,
        appinst: Some(appinst_of(sig_pk, 0)),
        announce_link: None,
        cursors: Seq::empty(),
        links: Seq::empty(),
        psks: Seq::empty(),
        subscribers: Seq::empty(),
    }
}

/// The announcement message, header included, of the author with Ed25519 secret key `sk`.
pub open spec fn announce_message<F: Spongos>(sk: Seq<u8>, ke_pk: Seq<u8>, t: ChannelType) -> Seq<u8> {
    let pk = ed_public_of(sk);
    header_bytes(appinst_of(pk, 0), announce_msgid::<F>(pk), ANNOUNCE) + announce_bytes(
        pk,
        ke_pk,
        t,
        ed_signature_of(sk, announce_digest::<F>(Seq::empty(), pk, ke_pk, t)),
    )
}

/// Cursors after publisher `id` advances to `link`, unless its sequence number is exhausted.
pub open spec fn advanced(v: Seq<(Seq<u8>, CursorView)>, id: Seq<u8>, link: Seq<u8>) -> Seq<(Seq<u8>, CursorView)> {
    if cursor_of(v, id) matches Some(c) && c.seq_num == u32::MAX {
        v
    } else {
        stored_state(v, id, link)
    }
}

/// A link store that only grew keeps every identifier it had.
pub proof fn lemma_has_link_grows(a: Seq<(Seq<u8>, Seq<Op>)>, b: Seq<(Seq<u8>, Seq<Op>)>, x: Seq<u8>)
    requires
        b.len() >= a.len(),
        b.take(a.len() as int) == a,
        has_link(a, x),
    ensures
        has_link(b, x),
{
    let i = choose|i: int| 0 <= i < a.len() && a[i].0 == x;
    assert(b.take(a.len() as int)[i] == b[i]);
}

/// A packet received at a new address is recorded at the end of the link store, which
/// otherwise keeps what it had.
pub proof fn lemma_receive_grows<F: Spongos>(st: UserState, addr: (Seq<u8>, Seq<u8>), b: Seq<u8>)
    requires
        !has_link(st.links, addr.1),
        packet_receive::<F>(st, addr, b) is Ok,
    ensures
        packet_receive::<F>(st, addr, b) matches Ok((_, _, _, _, st1)) && st1.links.len() == st.links.len() + 1
            && st1.links.take(st.links.len() as int) == st.links && st1.links[st.links.len() as int].0 == addr.1
            && st1.cursors == st.cursors && grows(st, st1),
{
    let (_, _, _, _, st1) = packet_receive::<F>(st, addr, b).unwrap();
    assert(st1.links.take(st.links.len() as int) =~= st.links);
}

/// X25519 key of the first subscriber with signature public key `id`.
pub open spec fn subscriber_ke(subs: Seq<(Seq<u8>, Seq<u8>)>, id: Seq<u8>) -> Option<Seq<u8>>
    decreases subs.len(),
{
    if subs.len() == 0 {
        None
    } else if subs[0].0 == id {
        Some(subs[0].1)
    } else {
        subscriber_ke(subs.drop_first(), id)
    }
}

/// Pre-shared keys named by `ids`, in order, each under its identifier.
pub open spec fn resolved_psks(st: UserState, ids: Seq<Seq<u8>>) -> Seq<(Seq<u8>, Seq<u8>)>
    decreases ids.len(),
{
    if ids.len() == 0 {
        Seq::empty()
    } else {
        let r = resolved_psks(st, ids.drop_last());
        match crate::keyload::lookup_psk(st.psks, ids.last()) {
            Some(p) => r.push((ids.last(), p)),
            None => r,
        }
    }
}

/// X25519 keys of the subscribers named by `ids` (those that name no pre-shared key), in order.
pub open spec fn resolved_kes(st: UserState, ids: Seq<Seq<u8>>) -> Seq<Seq<u8>>
    decreases ids.len(),
{
    if ids.len() == 0 {
        Seq::empty()
    } else {
        let r = resolved_kes(st, ids.drop_last());
        if crate::keyload::lookup_psk(st.psks, ids.last()) is Some {
            r
        } else {
            match subscriber_ke(st.subscribers, ids.last()) {
                Some(k) => r.push(k),
                None => r,
            }
        }
    }
}

/// Receiving the same subscription a second time leaves the state as the first reception
/// left it.
pub proof fn lemma_subscribe_twice<F: Spongos>(st: UserState, addr: (Seq<u8>, Seq<u8>), b: Seq<u8>)
    requires
        subscribe_receive::<F>(st, addr, b) is Ok,
    ensures
        subscribe_receive::<F>(st, addr, b) matches Ok(st1) && subscribe_receive::<F>(st1, addr, b) == Ok::<
            UserState,
            Error,
        >(st1),
{
    let st1 = subscribe_receive::<F>(st, addr, b).unwrap();
    let ann = st.announce_link.unwrap();
    let (link, ke_pk, sig_pk) = subscribe_unwrap::<F>(
        state_of(st.links, ann),
        b.subrange(HEADER_SIZE as int, b.len() as int),
    ).unwrap();
    assert(st1 == subscribed(st, sig_pk, ke_pk));
    let st2 = subscribed(st1, sig_pk, ke_pk);
    if !(exists|i: int| 0 <= i < st.subscribers.len() && st.subscribers[i].0 == sig_pk) {
        assert(st1.subscribers[st.subscribers.len() as int].0 == sig_pk);
    }
    if !has_id(st.cursors, sig_pk) {
        assert(st1.cursors[st.cursors.len() as int].0 == sig_pk);
    }
    assert(st2 == st1);
}

/// One line per known publisher: its identifier and the link of its cursor, in hexadecimal.
pub open spec fn cursor_lines(v: Seq<(Seq<u8>, CursorView)>) -> Seq<char>
    decreases v.len(),
{
    if v.len() == 0 {
        Seq::empty()
    } else {
        cursor_lines(v.drop_last()) + hex_of(v.last().0) + seq![' ', '=', '>', ' '] + hex_of(v.last().1.link)
            + seq!['\n']
    }
}

/// Text of an author: its public key in hexadecimal between angle brackets, then its cursors.
pub open spec fn describe_text(sig_pk: Seq<u8>, cursors: Seq<(Seq<u8>, CursorView)>) -> Seq<char> {
    seq!['<'] + hex_of(sig_pk) + seq!['>', '\n'] + cursor_lines(cursors)
}

/// Some entry of `table` is stored under `id`.
pub open spec fn lookup_known(table: Seq<(Seq<u8>, Seq<u8>)>, id: Seq<u8>) -> bool {
    crate::keyload::lookup_psk(table, id) is Some
}

} // verus!
