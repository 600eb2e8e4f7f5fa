use streams_channels::author::{Author, Transport};
use streams_channels::error::Error;
use streams_channels::key_store::{Cursor, KeyStore};
use streams_channels::keyload::{ContentUnwrap, ContentWrap, PskEntry};
use streams_channels::message::{
    parse_header, unwrap_announce, unwrap_sequence, wrap_announce, wrap_sequence, write_header, Address, ChannelType,
    ANNOUNCE, KEYLOAD, SEQUENCE, SUBSCRIBE, TAGGED_PACKET,
};
use streams_channels::sponge::Spongos;
use streams_channels::subscribe::{unwrap_subscribe, wrap_subscribe};
use streams_channels::signed_packet::{unwrap_signed, wrap_signed};
use streams_channels::tagged_packet::{unwrap_tagged, wrap_tagged};

/// A small deterministic sponge, enough to exercise the protocol.
#[derive(Clone)]
struct Toy {
    st: [u8; 32],
}

impl Toy {
    fn mix(&mut self, tag: u8, data: &[u8]) {
        for (i, b) in data.iter().enumerate() {
            let k = i % 32;
            self.st[k] = self.st[k].wrapping_mul(31).wrapping_add(*b ^ tag).rotate_left(3);
        }
        for _ in 0..2 {
            for r in 0..32 {
                let n = self.st[(r + 1) % 32];
                self.st[r] ^= n.wrapping_add(r as u8).wrapping_add(tag).rotate_left(1);
            }
        }
    }

    fn stream(&self, tag: u8, n: usize) -> Vec<u8> {
        let mut t = self.clone();
        let mut out = Vec::new();
        while out.len() < n {
            t.mix(tag, &[out.len() as u8]);
            out.extend_from_slice(&t.st);
        }
        out.truncate(n);
        out
    }
}

/// X25519 public key of a secret key.
fn public_of(sk: &[u8]) -> Vec<u8> {
    let k: [u8; 32] = sk.try_into().unwrap();
    x25519_dalek::PublicKey::from(&x25519_dalek::StaticSecret::from(k)).to_bytes().to_vec()
}

impl Spongos for Toy {
    fn history(&self) -> vstd::seq::Seq<streams_channels::sponge::Op> {
        panic!("specification only")
    }
    fn masked(_h: vstd::seq::Seq<streams_channels::sponge::Op>, _x: vstd::seq::Seq<u8>) -> vstd::seq::Seq<u8> {
        panic!("specification only")
    }
    fn unmasked(_h: vstd::seq::Seq<streams_channels::sponge::Op>, _x: vstd::seq::Seq<u8>) -> vstd::seq::Seq<u8> {
        panic!("specification only")
    }
    fn squeezed(_h: vstd::seq::Seq<streams_channels::sponge::Op>, _n: usize) -> vstd::seq::Seq<u8> {
        panic!("specification only")
    }
    fn lemma_unmask_masked(_h: vstd::seq::Seq<streams_channels::sponge::Op>, _x: vstd::seq::Seq<u8>) {}
    fn lemma_squeezed_len(_h: vstd::seq::Seq<streams_channels::sponge::Op>, _n: usize) {}
    fn fresh() -> Self {
        Toy { st: [7u8; 32] }
    }
    fn fork(&self) -> Self {
        self.clone()
    }
    fn absorb(&mut self, x: &[u8]) {
        self.mix(1, x);
    }
    fn commit(&mut self) {
        self.mix(2, &[0]);
    }
    fn squeeze(&mut self, n: usize) -> Vec<u8> {
        let r = self.stream(3, n);
        self.mix(3, &[n as u8]);
        r
    }
    fn encrypt(&mut self, x: &[u8]) -> Vec<u8> {
        let ks = self.stream(4, x.len());
        let r = x.iter().zip(ks.iter()).map(|(a, b)| a ^ b).collect();
        self.mix(4, x);
        r
    }
    fn decrypt(&mut self, y: &[u8]) -> Vec<u8> {
        let ks = self.stream(4, y.len());
        let r: Vec<u8> = y.iter().zip(ks.iter()).map(|(a, b)| a ^ b).collect();
        self.mix(4, &r);
        r
    }
}

/// Messages kept in memory by address.
#[derive(Default)]
struct Mem {
    msgs: Vec<(Vec<u8>, Vec<u8>, Vec<u8>)>,
}

impl Transport for Mem {
    fn send_message(&mut self, addr: &Address, msg: &[u8]) -> Result<(), Error> {
        self.msgs.push((addr.appinst.clone(), addr.msgid.clone(), msg.to_vec()));
        Ok(())
    }
    fn recv_message(&mut self, addr: &Address) -> Result<Vec<u8>, Error> {
        for (a, m, b) in self.msgs.iter() {
            if *a == addr.appinst && *m == addr.msgid {
                return Ok(b.clone());
            }
        }
        Err(Error::MessageNotFound)
    }
}

fn key(seed: u8) -> Vec<u8> {
    (0..32u8).map(|i| i.wrapping_mul(seed).wrapping_add(seed)).collect()
}

/// Ed25519 public key of a secret key.
fn pk_of(sk: &[u8]) -> Vec<u8> {
    let k: [u8; 32] = sk.try_into().unwrap();
    ed25519_dalek::SigningKey::from_bytes(&k).verifying_key().to_bytes().to_vec()
}

fn author(t: ChannelType) -> Author<Mem, Toy> {
    let sk = key(3);
    Author::new(key(1), public_of(&sk), sk, t, Mem::default())
}

fn addr(a: &Address) -> Address {
    Address { appinst: a.appinst.clone(), msgid: a.msgid.clone() }
}

fn psk_entry() -> PskEntry {
    PskEntry { id: vec![9u8; 16], psk: b"A pre shared key A pre shared ke".to_vec() }
}

fn content(psks: Vec<PskEntry>, ke_pks: Vec<Vec<u8>>) -> ContentWrap {
    let eph_sks = (0..ke_pks.len()).map(|i| key(90 + i as u8)).collect();
    ContentWrap { link: vec![1u8; 12], nonce: vec![2u8; 16], key: vec![3u8; 32], psks, ke_pks, eph_sks }
}

#[test]
fn keyload_round_trip_by_psk() {
    let c = content(vec![psk_entry()], vec![key(11)]);
    let mut out = Vec::new();
    let mut s = Toy::fresh();
    c.wrap(&mut s, &mut out);
    let mut u = ContentUnwrap::new(vec![psk_entry()], key(20), key(21));
    let mut r = Toy::fresh();
    assert_eq!(u.unwrap(&mut r, &out), Ok(()));
    assert_eq!(u.key, vec![3u8; 32]);
    assert_eq!(u.nonce, vec![2u8; 16]);
    assert_eq!(u.link, vec![1u8; 12]);
    assert_eq!(r.st, s.st);
}

#[test]
fn keyload_round_trip_by_key_exchange() {
    let sk = key(5);
    let c = content(vec![], vec![key(11), public_of(&sk)]);
    let mut out = Vec::new();
    let mut s = Toy::fresh();
    c.wrap(&mut s, &mut out);
    let mut u = ContentUnwrap::new(vec![], public_of(&sk), sk);
    let mut r = Toy::fresh();
    assert_eq!(u.unwrap(&mut r, &out), Ok(()));
    assert_eq!(u.key, vec![3u8; 32]);
    assert_eq!(r.st, s.st);
}

#[test]
fn keyload_without_key_is_key_not_found() {
    let c = content(vec![psk_entry()], vec![key(11)]);
    let mut out = Vec::new();
    c.wrap(&mut Toy::fresh(), &mut out);
    let mut u = ContentUnwrap::new(vec![], key(20), key(21));
    assert_eq!(u.unwrap(&mut Toy::fresh(), &out), Err(Error::KeyNotFound));
    assert_eq!(u.key, vec![0u8; 32]);
    assert_eq!(u.link, vec![0u8; 12]);
}

#[test]
fn keyload_size_matches_wrap() {
    let c = content(vec![psk_entry(), psk_entry()], vec![key(11)]);
    let mut out = Vec::new();
    c.wrap(&mut Toy::fresh(), &mut out);
    assert_eq!(c.sizeof(), 32 + 48 * 2 + 4 + 96);
    assert_eq!(out.len() as u64, c.sizeof());
}

#[test]
fn keyload_truncated_is_malformed() {
    let c = content(vec![psk_entry()], vec![]);
    let mut out = Vec::new();
    c.wrap(&mut Toy::fresh(), &mut out);
    out.pop();
    let mut u = ContentUnwrap::new(vec![psk_entry()], key(20), key(21));
    assert_eq!(u.unwrap(&mut Toy::fresh(), &out), Err(Error::Malformed));
}

#[test]
fn tagged_round_trip() {
    let mut out = Vec::new();
    let mut s = Toy::fresh();
    wrap_tagged(&mut s, &[4u8; 12], b"PUBLICPAYLOAD", b"MASKEDPAYLOAD", &mut out);
    assert_ne!(&out[33..46], b"MASKEDPAYLOAD");
    let c = unwrap_tagged(&mut Toy::fresh(), &out).ok().unwrap();
    assert_eq!(c.public_payload, b"PUBLICPAYLOAD".to_vec());
    assert_eq!(c.masked_payload, b"MASKEDPAYLOAD".to_vec());
    assert_eq!(c.link, vec![4u8; 12]);
}

#[test]
fn tagged_from_other_state_is_value_mismatch() {
    let mut out = Vec::new();
    wrap_tagged(&mut Toy::fresh(), &[4u8; 12], b"PUBLICPAYLOAD", b"MASKEDPAYLOAD", &mut out);
    let mut other = Toy::fresh();
    other.absorb(b"elsewhere");
    assert_eq!(unwrap_tagged(&mut other, &out).err(), Some(Error::ValueMismatch));
}

#[test]
fn announce_keeps_channel_type() {
    for t in [ChannelType::SingleBranch, ChannelType::MultiBranch, ChannelType::SingleDepth] {
        let mut out = Vec::new();
        wrap_announce(&mut Toy::fresh(), &key(1), &key(2), t, &mut out);
        let c = unwrap_announce(&mut Toy::fresh(), &out).ok().unwrap();
        assert_eq!(c.channel_type, t);
        assert_eq!(c.sig_pk, pk_of(&key(1)));
    }
}

#[test]
fn announce_bad_flag() {
    let mut out = Vec::new();
    wrap_announce(&mut Toy::fresh(), &key(1), &key(2), ChannelType::MultiBranch, &mut out);
    let mut forged = out.clone();
    forged[100] ^= 1;
    assert_eq!(unwrap_announce(&mut Toy::fresh(), &forged).err(), Some(Error::SignatureVerificationFailed));
    out[64] = 7;
    assert_eq!(unwrap_announce(&mut Toy::fresh(), &out).err(), Some(Error::BranchingFlagMismatch));
    assert_eq!(unwrap_announce(&mut Toy::fresh(), &out[1..]).err(), Some(Error::Malformed));
}

#[test]
fn header_checks() {
    let a = Address { appinst: vec![1u8; 40], msgid: vec![2u8; 12] };
    let mut out = Vec::new();
    write_header(&mut out, &a, TAGGED_PACKET);
    let h = parse_header(&out).ok().unwrap();
    assert_eq!(h.msg_type, TAGGED_PACKET);
    assert_eq!(h.addr.msgid, vec![2u8; 12]);
    out[52] = 9;
    assert_eq!(parse_header(&out).err(), Some(Error::VersionMismatch));
    assert_eq!(parse_header(&out[..53]).err(), Some(Error::Malformed));
}

#[test]
fn channel_address_from_key() {
    let a = author(ChannelType::SingleBranch);
    let b = author(ChannelType::SingleBranch);
    let mut expected = pk_of(&key(1));
    expected.extend_from_slice(&[0u8; 8]);
    assert_eq!(a.channel_address(), Some(&expected));
    assert_eq!(a.channel_address(), b.channel_address());
    assert!(!a.is_multi_branching());
    assert!(!a.is_single_depth());
    assert!(author(ChannelType::MultiBranch).is_multi_branching());
    assert!(author(ChannelType::SingleDepth).is_single_depth());
    assert_eq!(a.get_public_key(), &pk_of(&key(1)));
    assert_ne!(a.get_public_key(), &key(1));
    assert_eq!(a.get_transport().msgs.len(), 0);
}

#[test]
fn announce_once() {
    let mut a = author(ChannelType::SingleBranch);
    let ann = a.send_announce().ok().unwrap();
    assert_eq!(a.get_transport().msgs.len(), 1);
    assert_eq!(a.send_announce().err(), Some(Error::StateMismatch));
    let st = a.fetch_state().ok().unwrap();
    assert_eq!(st.len(), 1);
    assert_eq!(st[0].0, hex::encode(pk_of(&key(1))));
    assert_eq!(st[0].1.link, ann.msgid);
    assert_eq!(st[0].1.seq_num, 2);
}

#[test]
fn fetch_state_names_in_hex() {
    let mut ks = KeyStore::new();
    ks.insert_cursor(vec![0x01, 0xab, 0xff], Cursor::new(vec![5u8; 12], 1, 0));
    let st = ks.fetch_state();
    assert_eq!(st[0].0, "01abff");
}

#[test]
fn store_psk_twice() {
    let mut a = author(ChannelType::SingleBranch);
    let p = psk_entry();
    assert_eq!(a.store_psk(p.id.clone(), p.psk.clone()), Ok(()));
    assert_eq!(a.store_psk(p.id.clone(), p.psk.clone()), Err(Error::StateMismatch));
}

#[test]
fn store_state_for_all_never_lowers() {
    let mut ks = KeyStore::new();
    ks.insert_cursor(vec![1], Cursor::new(vec![5u8; 12], 9, 0));
    ks.insert_cursor(vec![2], Cursor::new(vec![5u8; 12], 3, 0));
    ks.store_state_for_all(&[6u8; 12], 5);
    assert_eq!(ks.entries[0].1.seq_num, 9);
    assert_eq!(ks.entries[1].1.seq_num, 5);
    assert_eq!(ks.entries[1].1.link, vec![6u8; 12]);
    assert_eq!(ks.store_state(&[2], &[7u8; 12]), Ok(()));
    assert_eq!(ks.entries[1].1.seq_num, 6);
    assert_eq!(ks.entries[1].1.link, vec![7u8; 12]);
    assert_eq!(ks.store_state(&[3], &[7u8; 12]), Ok(()));
    assert_eq!(ks.entries.len(), 2);
}

#[test]
fn send_before_announce_fails() {
    let mut a = author(ChannelType::SingleBranch);
    let link = Address { appinst: a.channel_address().unwrap().clone(), msgid: vec![0u8; 12] };
    assert_eq!(a.send_tagged_packet(&link, &b"P".to_vec(), &b"M".to_vec()).err(), Some(Error::LinkMismatch));
    let other = Address { appinst: vec![0u8; 40], msgid: vec![0u8; 12] };
    assert_eq!(
        a.send_tagged_packet(&other, &b"P".to_vec(), &b"M".to_vec()).err(),
        Some(Error::ApplicationInstanceMismatch)
    );
}

#[test]
fn tagged_packet_send_and_receive() {
    let mut a = author(ChannelType::SingleBranch);
    let ann = a.send_announce().ok().unwrap();
    let next = a.gen_next_msg_ids(false);
    let (link, seq) = a.send_tagged_packet(&ann, &b"PUBLICPAYLOAD".to_vec(), &b"MASKEDPAYLOAD".to_vec()).ok().unwrap();
    assert!(seq.is_none());
    assert_eq!(next[0].1.link, link.msgid);
    let st = a.fetch_state().ok().unwrap();
    assert_eq!(st[0].1.link, link.msgid);
    assert_eq!(st[0].1.seq_num, 3);
    let (p, m) = a.receive_tagged_packet(&link).ok().unwrap();
    assert_eq!(p, b"PUBLICPAYLOAD".to_vec());
    assert_eq!(m, b"MASKEDPAYLOAD".to_vec());
    // A second reception changes nothing.
    let n = a.links.len();
    let (public_again, masked_again) = a.receive_tagged_packet(&link).ok().unwrap();
    assert_eq!((public_again, masked_again), (p, m));
    assert_eq!(a.links.len(), n);
    assert_eq!(a.fetch_state().ok().unwrap()[0].1.seq_num, 3);
}

#[test]
fn receive_missing_message() {
    let mut a = author(ChannelType::SingleBranch);
    let ann = a.send_announce().ok().unwrap();
    let missing = Address { appinst: ann.appinst.clone(), msgid: vec![8u8; 12] };
    assert_eq!(a.receive_tagged_packet(&missing).err(), Some(Error::MessageNotFound));
    assert_eq!(a.receive_subscribe(&missing).err(), Some(Error::MessageNotFound));
}

/// Publishes a subscription by a subscriber with keys (`key(sig)`, secret `key(ke)`).
fn subscribe(a: &mut Author<Mem, Toy>, ann: &Address, sig: u8, ke: u8) -> Address {
    let sub = Address { appinst: ann.appinst.clone(), msgid: vec![sig; 12] };
    let mut s = a.links.lookup(&ann.msgid).unwrap();
    let mut out = Vec::new();
    write_header(&mut out, &sub, SUBSCRIBE);
    wrap_subscribe(&mut s, &ann.msgid, &public_of(&key(ke)), &key(sig), &mut out);
    a.transport.msgs.push((sub.appinst.clone(), sub.msgid.clone(), out));
    sub
}

#[test]
fn keyload_for_everyone_reaches_subscribers() {
    let mut a = author(ChannelType::SingleBranch);
    let ann = a.send_announce().ok().unwrap();
    let p = psk_entry();
    a.store_psk(p.id.clone(), p.psk.clone()).unwrap();
    let sa = subscribe(&mut a, &ann, 40, 41);
    let sb = subscribe(&mut a, &ann, 50, 51);
    assert_eq!(a.receive_subscribe(&sa), Ok(()));
    assert_eq!(a.receive_subscribe(&sb), Ok(()));
    assert_eq!(a.subscribers.len(), 2);
    assert_eq!(a.fetch_state().ok().unwrap().len(), 3);
    let (kl, _) = a.send_keyload_for_everyone(&ann).ok().unwrap();
    let bytes = a.get_transport().recv_message_ref(&kl);
    let body = &bytes[54..];
    // Subscriber B opens it with its X25519 key.
    let mut u = ContentUnwrap::new(vec![], public_of(&key(51)), key(51));
    let mut s = a.links.lookup(&ann.msgid).unwrap();
    assert_eq!(u.unwrap(&mut s, body), Ok(()));
    // A holder of the pre-shared key opens it as well, with the same key.
    let mut v = ContentUnwrap::new(vec![psk_entry()], key(60), key(61));
    let mut s2 = a.links.lookup(&ann.msgid).unwrap();
    assert_eq!(v.unwrap(&mut s2, body), Ok(()));
    assert_eq!(u.key, v.key);
    assert_eq!(s.st, a.links.lookup(&kl.msgid).unwrap().st);
}

#[test]
fn keyload_to_excluded_subscriber() {
    let mut a = author(ChannelType::SingleBranch);
    let ann = a.send_announce().ok().unwrap();
    let sa = subscribe(&mut a, &ann, 40, 41);
    let sb = subscribe(&mut a, &ann, 50, 51);
    a.receive_subscribe(&sa).unwrap();
    a.receive_subscribe(&sb).unwrap();
    assert_eq!(a.send_keyload(&ann, &vec![vec![77u8; 32]]).err(), Some(Error::KeyNotFound));
    let (kl, _) = a.send_keyload(&ann, &vec![key(40)]).ok().unwrap();
    let bytes = a.get_transport().recv_message_ref(&kl);
    let mut ub = ContentUnwrap::new(vec![], public_of(&key(51)), key(51));
    let mut s = a.links.lookup(&ann.msgid).unwrap();
    assert_eq!(ub.unwrap(&mut s, &bytes[54..]), Err(Error::KeyNotFound));
    let mut ua = ContentUnwrap::new(vec![], public_of(&key(41)), key(41));
    let mut s = a.links.lookup(&ann.msgid).unwrap();
    assert_eq!(ua.unwrap(&mut s, &bytes[54..]), Ok(()));
}

#[test]
fn subscription_round_trip() {
    let mut out = Vec::new();
    wrap_subscribe(&mut Toy::fresh(), &[1u8; 12], &key(2), &key(3), &mut out);
    let c = unwrap_subscribe(&mut Toy::fresh(), &out).ok().unwrap();
    assert_eq!(c.sig_pk, key(3));
    assert_eq!(c.ke_pk, key(2));
    assert_eq!(unwrap_subscribe(&mut Toy::fresh(), &out[1..]).err(), Some(Error::Malformed));
}

#[test]
fn fetch_finds_subscriber_packets() {
    let mut a = author(ChannelType::MultiBranch);
    let ann = a.send_announce().ok().unwrap();
    let sa = subscribe(&mut a, &ann, 40, 41);
    a.receive_subscribe(&sa).unwrap();
    assert_eq!(a.fetch_next_msgs().len(), 0);
    // The subscriber publishes a sequence message at its next address, pointing to the content.
    let next = a.gen_next_msg_ids(true);
    let (_, cur) = next.iter().find(|(id, _)| *id == key(40)).unwrap();
    let seq_at = Address { appinst: ann.appinst.clone(), msgid: cur.link.clone() };
    let at = Address { appinst: ann.appinst.clone(), msgid: vec![99u8; 12] };
    let mut out = Vec::new();
    write_header(&mut out, &seq_at, SEQUENCE);
    wrap_sequence(&ann.msgid, &key(40), cur.seq_num, &at.msgid, &mut out);
    a.transport.msgs.push((seq_at.appinst.clone(), seq_at.msgid.clone(), out));
    let mut s = a.links.lookup(&ann.msgid).unwrap();
    let mut out = Vec::new();
    write_header(&mut out, &at, TAGGED_PACKET);
    wrap_tagged(&mut s, &ann.msgid, b"PUBLICPAYLOAD", b"MASKEDPAYLOAD", &mut out);
    a.transport.msgs.push((at.appinst.clone(), at.msgid.clone(), out));
    assert_eq!(a.receive_sequence(&seq_at).ok().unwrap().msgid, at.msgid);
    let found = a.fetch_all_next_msgs();
    assert_eq!(found.len(), 1);
    assert_eq!(found[0].masked_payload, b"MASKEDPAYLOAD".to_vec());
    assert_eq!(found[0].link.msgid, at.msgid);
    let st = a.fetch_state().ok().unwrap();
    assert_eq!(st[1].1.link, at.msgid);
    assert_eq!(st[1].1.seq_num, 3);
    // The author's own cursor has not moved.
    assert_eq!(st[0].1.link, ann.msgid);
    a.sync_state();
    assert_eq!(a.fetch_next_msgs().len(), 0);
}

#[test]
fn fetch_single_branch_moves_every_cursor() {
    let mut a = author(ChannelType::SingleBranch);
    let ann = a.send_announce().ok().unwrap();
    let sa = subscribe(&mut a, &ann, 40, 41);
    a.receive_subscribe(&sa).unwrap();
    let next = a.gen_next_msg_ids(false);
    let at = Address { appinst: ann.appinst.clone(), msgid: next[1].1.link.clone() };
    let mut s = a.links.lookup(&ann.msgid).unwrap();
    let mut out = Vec::new();
    write_header(&mut out, &at, TAGGED_PACKET);
    wrap_tagged(&mut s, &ann.msgid, b"PUBLICPAYLOAD", b"MASKEDPAYLOAD", &mut out);
    a.transport.msgs.push((at.appinst.clone(), at.msgid.clone(), out));
    let found = a.fetch_next_msgs();
    assert_eq!(found.len(), 1);
    let st = a.fetch_state().ok().unwrap();
    assert_eq!(st[0].1.link, at.msgid);
    assert_eq!(st[1].1.link, at.msgid);
    assert_eq!(st[0].1.seq_num, 3);
}

#[test]
fn multi_branch_send_uses_sequence_message() {
    let mut a = author(ChannelType::MultiBranch);
    let ann = a.send_announce().ok().unwrap();
    let next = a.gen_next_msg_ids(true);
    let (content, seq) = a.send_tagged_packet(&ann, &b"PUBLICPAYLOAD".to_vec(), &b"MASKEDPAYLOAD".to_vec()).ok().unwrap();
    let seq = seq.unwrap();
    assert_eq!(seq.msgid, next[0].1.link);
    assert_ne!(seq.msgid, content.msgid);
    assert_eq!(a.receive_sequence(&seq).ok().unwrap().msgid, content.msgid);
    assert_eq!(a.get_transport().msgs.len(), 3);
    let st = a.fetch_state().ok().unwrap();
    assert_eq!(st[0].1.link, content.msgid);
    assert_eq!(st[0].1.seq_num, 3);
    let bytes = a.get_transport().recv_message_ref(&seq);
    let h = parse_header(&bytes).ok().unwrap();
    assert_eq!(h.msg_type, SEQUENCE);
    let sc = unwrap_sequence(&bytes[54..]).ok().unwrap();
    assert_eq!(sc.publisher, pk_of(&key(1)));
    assert_eq!(sc.seq_num, 2);
}

#[test]
fn receive_msg_by_type() {
    let mut a = author(ChannelType::SingleBranch);
    let ann = a.send_announce().ok().unwrap();
    let p = psk_entry();
    a.store_psk(p.id.clone(), p.psk.clone()).unwrap();
    let (kl, _) = a.send_keyload_for_everyone(&ann).ok().unwrap();
    let (tp, _) = a.send_tagged_packet(&kl, &b"PUBLICPAYLOAD".to_vec(), &b"MASKEDPAYLOAD".to_vec()).ok().unwrap();
    assert_eq!(a.receive_msg(&ann).ok().unwrap().msg_type, ANNOUNCE);
    assert_eq!(a.receive_msg(&kl).ok().unwrap().msg_type, KEYLOAD);
    let m = a.receive_msg(&tp).ok().unwrap();
    assert_eq!(m.msg_type, TAGGED_PACKET);
    assert_eq!(m.public_payload, b"PUBLICPAYLOAD".to_vec());
    let sa = subscribe(&mut a, &ann, 40, 41);
    assert_eq!(a.receive_msg(&sa).ok().unwrap().msg_type, SUBSCRIBE);
    assert_eq!(a.subscribers.len(), 1);
}

#[test]
fn fetch_prev_walks_back() {
    let mut a = author(ChannelType::SingleBranch);
    let ann = a.send_announce().ok().unwrap();
    let mut chain = vec![addr(&ann)];
    for _ in 0..5 {
        let last = addr(chain.last().unwrap());
        let (next, _) = a.send_tagged_packet(&last, &b"PUBLICPAYLOAD".to_vec(), &b"MASKEDPAYLOAD".to_vec()).ok().unwrap();
        chain.push(next);
    }
    let last = addr(chain.last().unwrap());
    let prev = a.fetch_prev_msgs(&last, 5).ok().unwrap();
    assert_eq!(prev.len(), 5);
    for (n, m) in prev.iter().enumerate() {
        assert_eq!(m.link.msgid, chain[4 - n].msgid);
    }
    assert_eq!(a.fetch_prev_msg(&ann).err(), Some(Error::LinkMismatch));
}

#[test]
fn recover_checks_announcement() {
    let mut a = author(ChannelType::SingleBranch);
    let ann = a.send_announce().ok().unwrap();
    let msgs = std::mem::take(&mut a.transport.msgs);
    let sk = key(3);
    let r: Result<Author<Mem, Toy>, Error> =
        Author::recover(key(1), public_of(&sk), sk.clone(), &addr(&ann), ChannelType::SingleBranch, Mem { msgs: msgs.clone() });
    let r = r.ok().unwrap();
    assert_eq!(r.announce_link, Some(ann.msgid.clone()));
    let wrong: Result<Author<Mem, Toy>, Error> =
        Author::recover(key(1), public_of(&sk), sk, &addr(&ann), ChannelType::MultiBranch, Mem { msgs });
    assert_eq!(wrong.err(), Some(Error::PublicPayloadMismatch));
}

trait RecvRef {
    fn recv_message_ref(&self, addr: &Address) -> Vec<u8>;
}

impl RecvRef for Mem {
    fn recv_message_ref(&self, addr: &Address) -> Vec<u8> {
        self.msgs.iter().find(|(a, m, _)| *a == addr.appinst && *m == addr.msgid).unwrap().2.clone()
    }
}

#[test]
fn reset_then_sync_restores_state() {
    let mut a = author(ChannelType::SingleBranch);
    let ann = a.send_announce().ok().unwrap();
    let sa = subscribe(&mut a, &ann, 40, 41);
    a.receive_subscribe(&sa).unwrap();
    let mut last = addr(&ann);
    for _ in 0..3 {
        let (next, _) = a.send_tagged_packet(&last, &b"PUBLICPAYLOAD".to_vec(), &b"MASKEDPAYLOAD".to_vec()).ok().unwrap();
        last = next;
    }
    let before: Vec<(String, Vec<u8>, u32)> =
        a.fetch_state().ok().unwrap().into_iter().map(|(n, c)| (n, c.link, c.seq_num)).collect();
    a.reset_state();
    assert_eq!(a.links.len(), 1);
    assert_eq!(a.fetch_state().ok().unwrap()[0].1.link, ann.msgid);
    a.sync_state();
    let after: Vec<(String, Vec<u8>, u32)> =
        a.fetch_state().ok().unwrap().into_iter().map(|(n, c)| (n, c.link, c.seq_num)).collect();
    assert_eq!(before, after);
    assert_eq!(after[0].1, last.msgid);
}

#[test]
fn signed_round_trip() {
    let mut out = Vec::new();
    let mut s = Toy::fresh();
    wrap_signed(&mut s, &[4u8; 12], &key(8), b"PUBLICPAYLOAD", b"MASKEDPAYLOAD", &mut out);
    let mut r = Toy::fresh();
    let c = unwrap_signed(&mut r, &out).ok().unwrap();
    assert_eq!(c.signer, pk_of(&key(8)));
    assert_eq!(c.public_payload, b"PUBLICPAYLOAD".to_vec());
    assert_eq!(c.masked_payload, b"MASKEDPAYLOAD".to_vec());
    assert_eq!(r.st, s.st);
    let n = out.len();
    out[n - 1] ^= 1;
    assert_eq!(unwrap_signed(&mut Toy::fresh(), &out).err(), Some(Error::SignatureVerificationFailed));
}

#[test]
fn signed_packet_send_and_receive() {
    let mut a = author(ChannelType::SingleBranch);
    let ann = a.send_announce().ok().unwrap();
    let (link, seq) = a.send_signed_packet(&ann, &b"PUBLICPAYLOAD".to_vec(), &b"MASKEDPAYLOAD".to_vec()).ok().unwrap();
    assert!(seq.is_none());
    let (signer, p, m) = a.receive_signed_packet(&link).ok().unwrap();
    assert_eq!(signer, pk_of(&key(1)));
    assert_eq!(p, b"PUBLICPAYLOAD".to_vec());
    assert_eq!(m, b"MASKEDPAYLOAD".to_vec());
    let msg = a.receive_msg(&link).ok().unwrap();
    assert_eq!(msg.signer, Some(pk_of(&key(1))));
    // A forged signature is refused.
    let at = Address { appinst: ann.appinst.clone(), msgid: vec![5u8; 12] };
    let mut bytes = a.get_transport().recv_message_ref(&link);
    bytes[40..52].copy_from_slice(&at.msgid);
    let n = bytes.len();
    bytes[n - 3] ^= 0x10;
    a.transport.msgs.push((at.appinst.clone(), at.msgid.clone(), bytes));
    let before = a.links.len();
    assert_eq!(a.receive_signed_packet(&at).err(), Some(Error::SignatureVerificationFailed));
    assert_eq!(a.links.len(), before);
}

#[test]
fn peers_applying_same_messages_agree() {
    // Two peers know the author and a subscriber, in another order and with another own entry.
    let mut a = KeyStore::new();
    a.insert_cursor(vec![1], Cursor::new(vec![5u8; 12], 2, 0));
    a.insert_cursor(vec![2], Cursor::new(vec![5u8; 12], 2, 0));
    let mut b = KeyStore::new();
    b.insert_cursor(vec![3], Cursor::new(vec![6u8; 12], 7, 0));
    b.insert_cursor(vec![2], Cursor::new(vec![5u8; 12], 2, 0));
    b.insert_cursor(vec![1], Cursor::new(vec![5u8; 12], 2, 0));
    for ks in [&mut a, &mut b] {
        ks.store_state(&[1], &[8u8; 12]).unwrap();
        ks.store_state(&[2], &[9u8; 12]).unwrap();
        ks.store_state(&[1], &[10u8; 12]).unwrap();
    }
    let sa = a.fetch_state();
    let sb = b.fetch_state();
    for (name, c) in sa.iter() {
        let (_, d) = sb.iter().find(|(n, _)| n == name).unwrap();
        assert_eq!(c.link, d.link);
        assert_eq!(c.seq_num, d.seq_num);
    }
    assert_eq!(sa[0].1.link, vec![10u8; 12]);
    assert_eq!(sa[0].1.seq_num, 4);
}

#[test]
fn describe_lists_cursors() {
    let mut a = author(ChannelType::SingleBranch);
    let pk = hex::encode(pk_of(&key(1)));
    assert_eq!(a.describe(), format!("<{}>\n", pk));
    let ann = a.send_announce().ok().unwrap();
    assert_eq!(a.describe(), format!("<{}>\n{} => {}\n", pk, pk, hex::encode(&ann.msgid)));
}

#[test]
fn single_depth_messages_by_number() {
    let mut a = author(ChannelType::SingleDepth);
    let ann = a.send_announce().ok().unwrap();
    let (first, _) = a.send_tagged_packet(&ann, &b"ONE".to_vec(), &b"1".to_vec()).ok().unwrap();
    let (second, _) = a.send_tagged_packet(&first, &b"TWO".to_vec(), &b"2".to_vec()).ok().unwrap();
    let m = a.receive_msg_by_sequence_number(&ann, 3).ok().unwrap();
    assert_eq!(m.link.msgid, second.msgid);
    assert_eq!(m.public_payload, b"TWO".to_vec());
    let m = a.receive_msg_by_sequence_number(&ann, 2).ok().unwrap();
    assert_eq!(m.link.msgid, first.msgid);
    let mut b = author(ChannelType::SingleBranch);
    let ann_b = b.send_announce().ok().unwrap();
    assert_eq!(b.receive_msg_by_sequence_number(&ann_b, 2).err(), Some(Error::BranchingFlagMismatch));
}

#[test]
fn packet_under_unopened_keyload_is_key_not_found() {
    let mut a = author(ChannelType::SingleBranch);
    let ann = a.send_announce().ok().unwrap();
    // A keyload for someone else, attached to the announcement, that the author never read.
    let kl = Address { appinst: ann.appinst.clone(), msgid: vec![71u8; 12] };
    let c = ContentWrap { link: ann.msgid.clone(), nonce: vec![2u8; 16], key: vec![3u8; 32], psks: vec![], ke_pks: vec![key(11)], eph_sks: vec![key(90)] };
    let mut s = a.links.lookup(&ann.msgid).unwrap();
    let mut out = Vec::new();
    write_header(&mut out, &kl, KEYLOAD);
    c.wrap(&mut s, &mut out);
    a.transport.msgs.push((kl.appinst.clone(), kl.msgid.clone(), out));
    let tp = Address { appinst: ann.appinst.clone(), msgid: vec![72u8; 12] };
    let mut out = Vec::new();
    write_header(&mut out, &tp, TAGGED_PACKET);
    wrap_tagged(&mut s, &kl.msgid, b"PUBLICPAYLOAD", b"MASKEDPAYLOAD", &mut out);
    a.transport.msgs.push((tp.appinst.clone(), tp.msgid.clone(), out));
    let before = a.describe();
    let n = a.links.len();
    assert_eq!(a.receive_tagged_packet(&tp).err(), Some(Error::KeyNotFound));
    assert_eq!(a.receive_msg(&tp).err(), Some(Error::KeyNotFound));
    assert_eq!(a.receive_msg(&kl).err(), Some(Error::KeyNotFound));
    assert_eq!(a.links.len(), n);
    assert_eq!(a.describe(), before);
    // A packet whose parent is nowhere is a missing link.
    let lost = Address { appinst: ann.appinst.clone(), msgid: vec![73u8; 12] };
    let mut out = Vec::new();
    write_header(&mut out, &lost, TAGGED_PACKET);
    wrap_tagged(&mut Toy::fresh(), &[74u8; 12], b"P", b"M", &mut out);
    a.transport.msgs.push((lost.appinst.clone(), lost.msgid.clone(), out));
    assert_eq!(a.receive_tagged_packet(&lost).err(), Some(Error::LinkMismatch));
}

#[test]
fn keyload_records_recipient_keys() {
    let sk = key(5);
    let c = content(vec![psk_entry()], vec![key(11), public_of(&sk), key(12)]);
    let mut out = Vec::new();
    c.wrap(&mut Toy::fresh(), &mut out);
    let mut u = ContentUnwrap::new(vec![psk_entry()], public_of(&sk), sk);
    assert_eq!(u.unwrap(&mut Toy::fresh(), &out), Ok(()));
    assert_eq!(u.ke_pks, vec![key(11), public_of(&key(5)), key(12)]);
    assert_eq!(u.key, vec![3u8; 32]);
}

#[test]
fn handle_msg_errors() {
    let mut a = author(ChannelType::SingleBranch);
    let ann = a.send_announce().ok().unwrap();
    let mut bytes = a.get_transport().recv_message_ref(&ann);
    let m = a.handle_msg(&ann, &bytes).ok().unwrap();
    assert_eq!(m.msg_type, ANNOUNCE);
    bytes[53] = 9;
    assert_eq!(a.handle_msg(&ann, &bytes).err(), Some(Error::BadType));
    bytes[52] = 0;
    assert_eq!(a.handle_msg(&ann, &bytes).err(), Some(Error::VersionMismatch));
    let (tp, _) = a.send_tagged_packet(&ann, &b"P".to_vec(), &b"M".to_vec()).ok().unwrap();
    let tb = a.get_transport().recv_message_ref(&tp);
    assert_eq!(Author::<Mem, Toy>::prev_address(&tp, &tb).ok().unwrap().msgid, ann.msgid);
    let ab = a.get_transport().recv_message_ref(&ann);
    assert_eq!(Author::<Mem, Toy>::prev_address(&ann, &ab).err(), Some(Error::LinkMismatch));
    assert_eq!(Author::<Mem, Toy>::read_sequence(&tp, &tb).err(), Some(Error::BadType));
}

#[test]
fn adopt_announcement_needs_exact_bytes() {
    let mut a = author(ChannelType::SingleBranch);
    let ann = a.send_announce().ok().unwrap();
    let bytes = a.get_transport().recv_message_ref(&ann);
    let mut b = author(ChannelType::SingleBranch);
    let mut wrong = bytes.clone();
    wrong[60] ^= 1;
    assert_eq!(b.adopt_announcement(&wrong), Err(Error::PublicPayloadMismatch));
    assert!(b.announce_link.is_none());
    assert_eq!(b.adopt_announcement(&bytes), Ok(()));
    assert_eq!(b.announce_link, Some(ann.msgid));
}
