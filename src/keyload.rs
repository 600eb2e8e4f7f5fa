//! `Keyload` message content: a session key delivered to a set of recipients, each named
//! either by a pre-shared key identifier or by an X25519 public key.
//!
//! ```ddml
//! message Keyload {
//!     join link msgid;
//!     absorb u8 nonce[16];
//!     skip u32 n_psks;
//!     repeated n_psks { fork; mask u8 id[16]; absorb external u8 psk[32]; commit; mask u8 key[32]; }
//!     skip u32 n_ke_pks;
//!     repeated n_ke_pks { fork; absorb u8 xpk[32]; x25519(xpk) u8 eph[32]; commit; mask u8 key[32]; }
//!     absorb external u8 key[32];
//!     commit;
//! }
//! ```
use vstd::prelude::*;
use crate::bytes::{append, be4, be4_value, copy_range, push_be4, read_be4, bytes_eq};
use crate::error::Error;
use crate::key_exchange::{x25519_public, x25519_public_of, x25519_shared, x25519_shared_of};
use crate::sponge::{Op, Spongos};

verus! {

/// Type byte of a keyload message.
pub const TYPE: u8 = 1;

pub const MSGID_SIZE: usize = 12;
pub const NONCE_SIZE: usize = 16;
pub const KEY_SIZE: usize = 32;
pub const PSKID_SIZE: usize = 16;
pub const PSK_SIZE: usize = 32;
pub const X25519_SIZE: usize = 32;
/// Link, nonce and the first count: the bytes before the first fork.
pub const PREFIX_SIZE: u64 = 32;
/// Masked identifier and masked session key.
pub const PSK_FORK_SIZE: u64 = 48;
/// Recipient public key, ephemeral public key and masked session key.
pub const KE_FORK_SIZE: u64 = 96;

/// A pre-shared key under its identifier.
pub struct PskEntry {
    pub id: Vec<u8>,
    pub psk: Vec<u8>,
}

pub open spec fn psk_pairs(v: Seq<PskEntry>) -> Seq<(Seq<u8>, Seq<u8>)> {
    v.map_values(|e: PskEntry| (e.id@, e.psk@))
}

pub open spec fn byte_views(v: Seq<Vec<u8>>) -> Seq<Seq<u8>> {
    v.map_values(|e: Vec<u8>| e@)
}

/// The pre-shared key stored first under `id`.
pub open spec fn lookup_psk(table: Seq<(Seq<u8>, Seq<u8>)>, id: Seq<u8>) -> Option<Seq<u8>>
    decreases table.len(),
{
    if table.len() == 0 {
        None
    } else if table[0].0 == id {
        Some(table[0].1)
    } else {
        lookup_psk(table.drop_first(), id)
    }
}

/// State from which every fork starts.
pub open spec fn fork_base(h0: Seq<Op>, link: Seq<u8>, nonce: Seq<u8>) -> Seq<Op> {
    h0.push(Op::Absorb(link)).push(Op::Absorb(nonce))
}

/// State under which a pre-shared-key fork masks the session key.
pub open spec fn psk_key_state(h1: Seq<Op>, id: Seq<u8>, psk: Seq<u8>) -> Seq<Op> {
    h1.push(Op::Mask(id)).push(Op::Absorb(psk)).push(Op::Commit)
}

/// State under which a key-exchange fork masks the session key: the recipient key `pk`, the
/// ephemeral public key `eph` and the shared secret absorbed.
pub open spec fn ke_key_state(h1: Seq<Op>, pk: Seq<u8>, eph: Seq<u8>, shared: Seq<u8>) -> Seq<Op> {
    h1.push(Op::Absorb(pk)).push(Op::Absorb(eph)).push(Op::Absorb(shared)).push(Op::Commit)
}

/// State after a whole keyload.
pub open spec fn keyload_final(h0: Seq<Op>, link: Seq<u8>, nonce: Seq<u8>, key: Seq<u8>) -> Seq<Op> {
    fork_base(h0, link, nonce).push(Op::Absorb(key)).push(Op::Commit)
}

pub open spec fn psk_fork_bytes<F: Spongos>(h1: Seq<Op>, id: Seq<u8>, psk: Seq<u8>, key: Seq<u8>) -> Seq<u8> {
    F::masked(h1, id) + F::masked(psk_key_state(h1, id, psk), key)
}

pub open spec fn psk_forks_bytes<F: Spongos>(h1: Seq<Op>, psks: Seq<(Seq<u8>, Seq<u8>)>, key: Seq<u8>) -> Seq<u8>
    decreases psks.len(),
{
    if psks.len() == 0 {
        Seq::empty()
    } else {
        psk_forks_bytes::<F>(h1, psks.drop_last(), key) + psk_fork_bytes::<F>(
            h1,
            psks.last().0,
            psks.last().1,
            key,
        )
    }
}

/// Key-exchange fork for recipient `pk` with ephemeral secret key `eph_sk`.
pub open spec fn ke_fork_bytes<F: Spongos>(h1: Seq<Op>, pk: Seq<u8>, eph_sk: Seq<u8>, key: Seq<u8>) -> Seq<u8> {
    pk + x25519_public_of(eph_sk) + F::masked(
        ke_key_state(h1, pk, x25519_public_of(eph_sk), x25519_shared_of(eph_sk, pk)),
        key,
    )
}

/// Key-exchange forks for the first `pks.len()` recipients, the `j`-th with ephemeral secret
/// key `ephs[j]`.
pub open spec fn ke_forks_bytes<F: Spongos>(h1: Seq<Op>, pks: Seq<Seq<u8>>, ephs: Seq<Seq<u8>>, key: Seq<u8>) -> Seq<u8>
    decreases pks.len(),
{
    if pks.len() == 0 {
        Seq::empty()
    } else {
        ke_forks_bytes::<F>(h1, pks.drop_last(), ephs, key) + ke_fork_bytes::<F>(
            h1,
            pks.last(),
            ephs[pks.len() - 1],
            key,
        )
    }
}

/// The bytes of a keyload, starting from sponge state `h0`.
pub open spec fn keyload_bytes<F: Spongos>(
    h0: Seq<Op>,
    link: Seq<u8>,
    nonce: Seq<u8>,
    key: Seq<u8>,
    psks: Seq<(Seq<u8>, Seq<u8>)>,
    pks: Seq<Seq<u8>>,
    ephs: Seq<Seq<u8>>,
) -> Seq<u8> {
    let h1 = fork_base(h0, link, nonce);
    link + nonce + be4(psks.len() as u32) + psk_forks_bytes::<F>(h1, psks, key) + be4(
        pks.len() as u32,
    ) + ke_forks_bytes::<F>(h1, pks, ephs, key)
}

/// Length of a keyload with `n_psks` and `n_ke_pks` recipients.
pub open spec fn keyload_size(n_psks: nat, n_ke_pks: nat) -> nat {
    (PREFIX_SIZE + PSK_FORK_SIZE * n_psks + 4 + KE_FORK_SIZE * n_ke_pks) as nat
}

/// Session key opened by the `j`-th pre-shared-key fork, if its identifier is in `table`.
pub open spec fn psk_fork_key<F: Spongos>(h1: Seq<Op>, b: Seq<u8>, j: int, table: Seq<(Seq<u8>, Seq<u8>)>) -> Option<Seq<u8>> {
    let off = PREFIX_SIZE + PSK_FORK_SIZE * j;
    let id = F::unmasked(h1, b.subrange(off, off + 16));
    match lookup_psk(table, id) {
        Some(psk) => Some(F::unmasked(psk_key_state(h1, id, psk), b.subrange(off + 16, off + 48))),
        None => None,
    }
}

/// Key opened by the first of the first `n` pre-shared-key forks that opens one.
pub open spec fn psk_scan<F: Spongos>(h1: Seq<Op>, b: Seq<u8>, n: nat, table: Seq<(Seq<u8>, Seq<u8>)>) -> Option<Seq<u8>>
    decreases n,
{
    if n == 0 {
        None
    } else {
        match psk_scan::<F>(h1, b, (n - 1) as nat, table) {
            Some(k) => Some(k),
            None => psk_fork_key::<F>(h1, b, n - 1, table),
        }
    }
}

/// Session key opened by the `j`-th key-exchange fork (forks start at `base`), if it names
/// `my_pk`; the agreement is made with `my_sk`.
pub open spec fn ke_fork_key<F: Spongos>(h1: Seq<Op>, b: Seq<u8>, base: int, j: int, my_pk: Seq<u8>, my_sk: Seq<u8>) -> Option<Seq<u8>> {
    let off = base + KE_FORK_SIZE * j;
    let pk = b.subrange(off, off + 32);
    if pk == my_pk {
        let eph = b.subrange(off + 32, off + 64);
        Some(F::unmasked(ke_key_state(h1, pk, eph, x25519_shared_of(my_sk, eph)), b.subrange(off + 64, off + 96)))
    } else {
        None
    }
}

/// Key opened by the first of the first `n` key-exchange forks that names `my_pk`.
pub open spec fn ke_scan<F: Spongos>(h1: Seq<Op>, b: Seq<u8>, base: int, n: nat, my_pk: Seq<u8>, my_sk: Seq<u8>) -> Option<Seq<u8>>
    decreases n,
{
    if n == 0 {
        None
    } else {
        match ke_scan::<F>(h1, b, base, (n - 1) as nat, my_pk, my_sk) {
            Some(k) => Some(k),
            None => ke_fork_key::<F>(h1, b, base, n - 1, my_pk, my_sk),
        }
    }
}

/// Recipient X25519 public keys named by the `n` key-exchange forks starting at `base`.
pub open spec fn ke_pks_of(b: Seq<u8>, base: int, n: nat) -> Seq<Seq<u8>> {
    Seq::new(n, |j: int| b.subrange(base + KE_FORK_SIZE * j, base + KE_FORK_SIZE * j + 32))
}

/// Where the key-exchange forks start and how many there are (meaningful where
/// `keyload_unwrap` is not `Malformed`).
pub open spec fn ke_section(b: Seq<u8>) -> (int, nat) {
    let base = PREFIX_SIZE + PSK_FORK_SIZE * (be4_value(b.subrange(28, 32)) as nat) + 4;
    (base, be4_value(b.subrange(base - 4, base)) as nat)
}

/// What unwrapping `b` from sponge state `h0` yields for a recipient holding the pre-shared
/// keys `table` and the X25519 key pair (`my_pk`, `my_sk`): link, nonce and session key. The
/// first fork that opens the key wins; the pre-shared-key forks come first.
pub open spec fn keyload_unwrap<F: Spongos>(
    h0: Seq<Op>,
    b: Seq<u8>,
    table: Seq<(Seq<u8>, Seq<u8>)>,
    my_pk: Seq<u8>,
    my_sk: Seq<u8>,
) -> Result<(Seq<u8>, Seq<u8>, Seq<u8>), Error> {
    if b.len() < PREFIX_SIZE {
        Err(Error::Malformed)
    } else {
        let link = b.subrange(0, 12);
        let nonce = b.subrange(12, 28);
        let n_psks = be4_value(b.subrange(28, 32)) as nat;
        let base = PREFIX_SIZE + PSK_FORK_SIZE * n_psks + 4;
        if b.len() < base {
            Err(Error::Malformed)
        } else {
            let n_ke = be4_value(b.subrange(base - 4, base)) as nat;
            if b.len() != base + KE_FORK_SIZE * n_ke {
                Err(Error::Malformed)
            } else {
                let h1 = fork_base(h0, link, nonce);
                match psk_scan::<F>(h1, b, n_psks, table) {
                    Some(k) => Ok((link, nonce, k)),
                    None => match ke_scan::<F>(h1, b, base, n_ke, my_pk, my_sk) {
                        Some(k) => Ok((link, nonce, k)),
                        None => Err(Error::KeyNotFound),
                    },
                }
            }
        }
    }
}

pub open spec fn opt_view(o: Option<Vec<u8>>) -> Option<Seq<u8>> {
    match o {
        Some(v) => Some(v@),
        None => None,
    }
}

/// Index of the first entry of `table` stored under `id`.
pub fn find_psk(table: &Vec<PskEntry>, id: &[u8]) -> (r: Option<usize>)
    ensures
        match r {
            Some(i) => i < table@.len() && lookup_psk(psk_pairs(table@), id@) == Some(table@[i as int].psk@)
                && table@[i as int].id@ == id@,
            None => lookup_psk(psk_pairs(table@), id@) is None,
        },
{
    let ghost pairs = psk_pairs(table@);
    let mut i: usize = 0;
    assert(pairs.subrange(0, pairs.len() as int) =~= pairs);
    while i < table.len()
        invariant
            i <= table@.len(),
            pairs == psk_pairs(table@),
            lookup_psk(pairs, id@) == lookup_psk(pairs.subrange(i as int, pairs.len() as int), id@),
        decreases table@.len() - i,
    {
        let ghost rest = pairs.subrange(i as int, pairs.len() as int);
        assert(rest[0] == pairs[i as int]);
        if bytes_eq(table[i].id.as_slice(), id) {
            return Some(i);
        }
        assert(rest.drop_first() =~= pairs.subrange(i + 1, pairs.len() as int));
        i = i + 1;
    }
    assert(pairs.subrange(i as int, pairs.len() as int).len() == 0);
    None
}

/// Content of a keyload as its sender builds it.
pub struct ContentWrap {
    /// Identifier of the message the keyload is attached to.
    pub link: Vec<u8>,
    pub nonce: Vec<u8>,
    /// Session key.
    pub key: Vec<u8>,
    /// Recipients by pre-shared key.
    pub psks: Vec<PskEntry>,
    /// Recipients by X25519 public key.
    pub ke_pks: Vec<Vec<u8>>,
    /// Ephemeral X25519 secret key for each recipient by public key.
    pub eph_sks: Vec<Vec<u8>>,
}

impl ContentWrap {
    /// Field sizes as the wire format fixes them.
    pub open spec fn wf(&self) -> bool {
        &&& self.link@.len() == MSGID_SIZE
        &&& self.nonce@.len() == NONCE_SIZE
        &&& self.key@.len() == KEY_SIZE
        &&& self.psks@.len() <= u32::MAX
        &&& self.ke_pks@.len() <= u32::MAX
        &&& forall|i: int| 0 <= i < self.psks@.len() ==> (#[trigger] self.psks@[i]).id@.len() == PSKID_SIZE
        &&& forall|j: int| 0 <= j < self.ke_pks@.len() ==> (#[trigger] self.ke_pks@[j])@.len() == X25519_SIZE
        &&& self.eph_sks@.len() == self.ke_pks@.len()
        &&& forall|j: int| 0 <= j < self.eph_sks@.len() ==> (#[trigger] self.eph_sks@[j])@.len() == X25519_SIZE
    }

    /// Number of bytes that `wrap` writes.
    pub fn sizeof(&self) -> (r: u64)
        requires
            self.psks@.len() <= u32::MAX,
            self.ke_pks@.len() <= u32::MAX,
        ensures
            r == keyload_size(self.psks@.len(), self.ke_pks@.len()),
    {
        let n_psks = self.psks.len() as u64;
        let n_ke = self.ke_pks.len() as u64;
        PREFIX_SIZE + PSK_FORK_SIZE * n_psks + 4 + KE_FORK_SIZE * n_ke
    }

    /// Writes the keyload to `out`, starting from the (already joined) sponge `s`. Returns the
    /// ephemeral public keys that the key-exchange forks drew.
    pub fn wrap<F: Spongos>(&self, s: &mut F, out: &mut Vec<u8>) -> (ephs: Ghost<Seq<Seq<u8>>>)
        requires
            self.wf(),
        ensures
            ephs@ == byte_views(self.eph_sks@),
            ephs@.len() == self.ke_pks@.len(),
            forall|j: int| 0 <= j < ephs@.len() ==> (#[trigger] ephs@[j]).len() == X25519_SIZE,
            final(out)@ == old(out)@ + keyload_bytes::<F>(
                old(s).history(),
                self.link@,
                self.nonce@,
                self.key@,
                psk_pairs(self.psks@),
                byte_views(self.ke_pks@),
                ephs@,
            ),
            final(s).history() == keyload_final(old(s).history(), self.link@, self.nonce@, self.key@),
    {
        let ghost h0 = s.history();
        let ghost out0 = out@;
        let ghost pairs = psk_pairs(self.psks@);
        let ghost pks = byte_views(self.ke_pks@);
        append(out, self.link.as_slice());
        s.absorb(self.link.as_slice());
        append(out, self.nonce.as_slice());
        s.absorb(self.nonce.as_slice());
        let ghost h1 = s.history();
        push_be4(out, self.psks.len() as u32);
        let ghost out1 = out@;
        let mut i: usize = 0;
        while i < self.psks.len()
            invariant
                self.wf(),
                i <= self.psks@.len(),
                pairs == psk_pairs(self.psks@),
                s.history() == h1,
                out@ == out1 + psk_forks_bytes::<F>(h1, pairs.take(i as int), self.key@),
            decreases self.psks@.len() - i,
        {
            let mut t = s.fork();
            let c = t.encrypt(self.psks[i].id.as_slice());
            append(out, c.as_slice());
            t.absorb(self.psks[i].psk.as_slice());
            t.commit();
            let c2 = t.encrypt(self.key.as_slice());
            append(out, c2.as_slice());
            proof {
                let p = pairs.take(i + 1);
                assert(p.drop_last() =~= pairs.take(i as int));
                assert(p.last() == pairs[i as int]);
            }
            i = i + 1;
        }
        assert(pairs.take(i as int) =~= pairs);
        push_be4(out, self.ke_pks.len() as u32);
        let ghost out2 = out@;
        let ghost mut ephs: Seq<Seq<u8>> = Seq::empty();
        let mut j: usize = 0;
        while j < self.ke_pks.len()
            invariant
                self.wf(),
                j <= self.ke_pks@.len(),
                pks == byte_views(self.ke_pks@),
                s.history() == h1,
                ephs.len() == j,
                ephs == byte_views(self.eph_sks@).take(j as int),
                forall|k: int| 0 <= k < ephs.len() ==> (#[trigger] ephs[k]).len() == X25519_SIZE,
                out@ == out2 + ke_forks_bytes::<F>(h1, pks.take(j as int), ephs, self.key@),
            decreases self.ke_pks@.len() - j,
        {
            let mut t = s.fork();
            let pk = self.ke_pks[j].as_slice();
            assert(pk@.len() == X25519_SIZE);
            let eph_sk = self.eph_sks[j].as_slice();
            assert(eph_sk@.len() == X25519_SIZE);
            append(out, pk);
            t.absorb(pk);
            let eph = x25519_public(eph_sk);
            append(out, eph.as_slice());
            t.absorb(eph.as_slice());
            let shared = x25519_shared(eph_sk, pk);
            t.absorb(shared.as_slice());
            t.commit();
            let c = t.encrypt(self.key.as_slice());
            append(out, c.as_slice());
            proof {
                let e2 = ephs.push(eph_sk@);
                assert(e2 =~= byte_views(self.eph_sks@).take(j + 1));
                lemma_ke_forks_ephs::<F>(h1, pks.take(j as int), ephs, e2, self.key@);
                let p = pks.take(j + 1);
                assert(p.drop_last() =~= pks.take(j as int));
                assert(p.last() == pks[j as int]);
                assert(e2[j as int] == eph_sk@);
                ephs = e2;
            }
            j = j + 1;
        }
        assert(pks.take(j as int) =~= pks);
        assert(byte_views(self.eph_sks@).take(j as int) =~= byte_views(self.eph_sks@));
        s.absorb(self.key.as_slice());
        s.commit();
        assert(out@ =~= out0 + keyload_bytes::<F>(h0, self.link@, self.nonce@, self.key@, pairs, pks, ephs));
        Ghost(ephs)
    }
}

/// Key-exchange forks depend on the ephemeral keys of their own recipients only.
pub proof fn lemma_ke_forks_ephs<F: Spongos>(
    h1: Seq<Op>,
    pks: Seq<Seq<u8>>,
    ephs: Seq<Seq<u8>>,
    ephs2: Seq<Seq<u8>>,
    key: Seq<u8>,
)
    requires
        pks.len() <= ephs.len(),
        pks.len() <= ephs2.len(),
        forall|k: int| 0 <= k < pks.len() ==> ephs[k] == ephs2[k],
    ensures
        ke_forks_bytes::<F>(h1, pks, ephs, key) == ke_forks_bytes::<F>(h1, pks, ephs2, key),
    decreases pks.len(),
{
    if pks.len() > 0 {
        lemma_ke_forks_ephs::<F>(h1, pks.drop_last(), ephs, ephs2, key);
    }
}

/// Content of a keyload as a recipient reads it.
pub struct ContentUnwrap {
    pub link: Vec<u8>,
    pub nonce: Vec<u8>,
    /// Session key, once opened.
    pub key: Vec<u8>,
    /// Pre-shared keys that this recipient holds.
    pub psks: Vec<PskEntry>,
    /// This recipient's X25519 key pair.
    pub ke_pk: Vec<u8>,
    pub ke_sk: Vec<u8>,
    /// Recipient X25519 public keys of the keyloads read.
    pub ke_pks: Vec<Vec<u8>>,
}

fn zeros(n: usize) -> (r: Vec<u8>)
    ensures
        r@ == Seq::new(n as nat, |i: int| 0u8),
{
    let mut r: Vec<u8> = Vec::new();
    let mut i: usize = 0;
    while i < n
        invariant
            i <= n,
            r@ == Seq::new(i as nat, |k: int| 0u8),
        decreases n - i,
    {
        r.push(0u8);
        i = i + 1;
        assert(r@ =~= Seq::new(i as nat, |k: int| 0u8));
    }
    r
}

impl ContentUnwrap {
    /// A recipient with the given keys; link, nonce and session key start zeroed.
    pub fn new(psks: Vec<PskEntry>, ke_pk: Vec<u8>, ke_sk: Vec<u8>) -> (r: Self)
        ensures
            r.link@ == Seq::new(MSGID_SIZE as nat, |i: int| 0u8),
            r.nonce@ == Seq::new(NONCE_SIZE as nat, |i: int| 0u8),
            r.key@ == Seq::new(KEY_SIZE as nat, |i: int| 0u8),
            r.psks@ == psks@,
            r.ke_pk@ == ke_pk@,
            r.ke_sk@ == ke_sk@,
            r.ke_pks@.len() == 0,
    {
        ContentUnwrap {
            link: zeros(MSGID_SIZE),
            nonce: zeros(NONCE_SIZE),
            key: zeros(KEY_SIZE),
            psks,
            ke_pk,
            ke_sk,
            ke_pks: Vec::new(),
        }
    }

    /// Reads a keyload from `b`, starting from the (already joined) sponge `s`, and opens the
    /// session key with this recipient's keys. On error the content is left as it was.
    pub fn unwrap<F: Spongos>(&mut self, s: &mut F, b: &[u8]) -> (r: Result<(), Error>)
        requires
            old(self).ke_sk@.len() == X25519_SIZE,
        ensures
            final(self).psks@ == old(self).psks@,
            final(self).ke_pk@ == old(self).ke_pk@,
            final(self).ke_sk@ == old(self).ke_sk@,
            match keyload_unwrap::<F>(
                old(s).history(),
                b@,
                psk_pairs(old(self).psks@),
                old(self).ke_pk@,
                old(self).ke_sk@,
            ) {
                Ok((link, nonce, key)) => {
                    &&& r == Ok::<(), Error>(())
                    &&& byte_views(final(self).ke_pks@) == byte_views(old(self).ke_pks@) + ke_pks_of(
                        b@,
                        ke_section(b@).0,
                        ke_section(b@).1,
                    )
                    &&& final(self).link@ == link
                    &&& final(self).nonce@ == nonce
                    &&& final(self).key@ == key
                    &&& final(s).history() == keyload_final(old(s).history(), link, nonce, key)
                },
                Err(e) => {
                    &&& r == Err::<(), Error>(e)
                    &&& final(self).link@ == old(self).link@
                    &&& final(self).nonce@ == old(self).nonce@
                    &&& final(self).key@ == old(self).key@
                    &&& final(self).ke_pks@ == old(self).ke_pks@
                },
            },
    {
        let ghost h0 = s.history();
        let ghost table = psk_pairs(self.psks@);
        let bl: usize = b.len();
        let blen = bl as u64;
        if blen < PREFIX_SIZE {
            return Err(Error::Malformed);
        }
        let link = copy_range(b, 0, MSGID_SIZE);
        let nonce = copy_range(b, MSGID_SIZE, NONCE_SIZE);
        let n_psks = read_be4(b, 28) as u64;
        let base: u64 = PREFIX_SIZE + PSK_FORK_SIZE * n_psks + 4;
        if blen < base {
            return Err(Error::Malformed);
        }
        let n_ke = read_be4(b, (base - 4) as usize) as u64;
        if blen != base + KE_FORK_SIZE * n_ke {
            return Err(Error::Malformed);
        }
        s.absorb(link.as_slice());
        s.absorb(nonce.as_slice());
        let ghost h1 = s.history();
        assert(h1 == fork_base(h0, link@, nonce@));

        let mut psk_key: Option<Vec<u8>> = None;
        let mut j: u64 = 0;
        let mut off: u64 = PREFIX_SIZE;
        while j < n_psks
            invariant
                j <= n_psks,
                off == PREFIX_SIZE + PSK_FORK_SIZE * j,
                base == PREFIX_SIZE + PSK_FORK_SIZE * n_psks + 4,
                blen == b@.len(),
                blen == bl as u64,
                bl == b@.len(),
                blen >= base,
                s.history() == h1,
                table == psk_pairs(self.psks@),
                opt_view(psk_key) == psk_scan::<F>(h1, b@, j as nat, table),
            decreases n_psks - j,
        {
            if psk_key.is_none() {
                let mut t = s.fork();
                let idc = copy_range(b, off as usize, PSKID_SIZE);
                let id = t.decrypt(idc.as_slice());
                match find_psk(&self.psks, id.as_slice()) {
                    Some(i) => {
                        t.absorb(self.psks[i].psk.as_slice());
                        t.commit();
                        let kc = copy_range(b, off as usize + PSKID_SIZE, KEY_SIZE);
                        let k = t.decrypt(kc.as_slice());
                        psk_key = Some(k);
                    },
                    None => {},
                }
            }
            j = j + 1;
            off = off + PSK_FORK_SIZE;
        }

        let mut ke_key: Option<Vec<u8>> = None;
        let mut seen: Vec<Vec<u8>> = Vec::new();
        let mut j: u64 = 0;
        let mut off: u64 = base;
        assert(ke_section(b@) == (base as int, n_ke as nat));
        while j < n_ke
            invariant
                j <= n_ke,
                off == base + KE_FORK_SIZE * j,
                blen == b@.len(),
                blen == bl as u64,
                bl == b@.len(),
                blen == base + KE_FORK_SIZE * n_ke,
                s.history() == h1,
                self.ke_sk@.len() == X25519_SIZE,
                psk_key is Some ==> ke_key is None,
                psk_key is None ==> opt_view(ke_key) == ke_scan::<F>(h1, b@, base as int, j as nat, self.ke_pk@, self.ke_sk@),
                byte_views(seen@) == ke_pks_of(b@, base as int, j as nat),
            decreases n_ke - j,
        {
            let pk = copy_range(b, off as usize, X25519_SIZE);
            if psk_key.is_none() && ke_key.is_none() && bytes_eq(pk.as_slice(), self.ke_pk.as_slice()) {
                let mut t = s.fork();
                t.absorb(pk.as_slice());
                let eph = copy_range(b, off as usize + 32, X25519_SIZE);
                t.absorb(eph.as_slice());
                let shared = x25519_shared(self.ke_sk.as_slice(), eph.as_slice());
                t.absorb(shared.as_slice());
                t.commit();
                let kc = copy_range(b, off as usize + 64, KEY_SIZE);
                let k = t.decrypt(kc.as_slice());
                ke_key = Some(k);
            }
            let ghost before = byte_views(seen@);
            seen.push(pk);
            assert(byte_views(seen@) =~= ke_pks_of(b@, base as int, (j + 1) as nat)) by {
                assert(byte_views(seen@) =~= before.push(b@.subrange(off as int, off + 32)));
            }
            j = j + 1;
            off = off + KE_FORK_SIZE;
        }

        let key = match psk_key {
            Some(k) => k,
            None => match ke_key {
                Some(k) => k,
                None => {
                    return Err(Error::KeyNotFound);
                },
            },
        };
        let ghost old_pks = byte_views(self.ke_pks@);
        let ghost seen_v = byte_views(seen@);
        self.ke_pks.append(&mut seen);
        assert(byte_views(self.ke_pks@) =~= old_pks + seen_v);
        s.absorb(key.as_slice());
        s.commit();
        self.link = link;
        self.nonce = nonce;
        self.key = key;
        Ok(())
    }
}

} // verus!
