//! Laws of the keyload format: what a recipient reads back from what a sender wrote.
use vstd::prelude::*;
use crate::bytes::{be4, lemma_be4_value_be4};
use crate::error::Error;
use crate::keyload::{
    fork_base, ke_fork_bytes, ke_fork_key, ke_forks_bytes, ke_key_state, ke_scan, keyload_bytes, keyload_unwrap,
    lookup_psk, psk_fork_bytes, psk_fork_key, psk_forks_bytes, psk_key_state, psk_scan, PREFIX_SIZE, KEY_SIZE,
    KE_FORK_SIZE, MSGID_SIZE, NONCE_SIZE, PSKID_SIZE, PSK_FORK_SIZE, X25519_SIZE,
};
use crate::key_exchange::{x25519_public_of, x25519_shared_of};
use crate::sponge::{Op, Spongos};

verus! {

/// The recipient holds a key for one of the forks: a pre-shared key under one of the
/// identifiers, or the X25519 key named by one of the public keys.
pub open spec fn holds_key(
    table: Seq<(Seq<u8>, Seq<u8>)>,
    psks: Seq<(Seq<u8>, Seq<u8>)>,
    pks: Seq<Seq<u8>>,
    my_pk: Seq<u8>,
) -> bool {
    (exists|j: int| 0 <= j < psks.len() && (#[trigger] lookup_psk(table, psks[j].0)) is Some)
        || pks.contains(my_pk)
}

/// The recipient's table agrees with the sender on every identifier that it knows.
pub open spec fn psks_agree(table: Seq<(Seq<u8>, Seq<u8>)>, psks: Seq<(Seq<u8>, Seq<u8>)>) -> bool {
    forall|j: int|
        0 <= j < psks.len() ==> match #[trigger] lookup_psk(table, psks[j].0) {
            Some(p) => p == psks[j].1,
            None => true,
        }
}

proof fn lemma_psk_forks_len<F: Spongos>(h1: Seq<Op>, psks: Seq<(Seq<u8>, Seq<u8>)>, key: Seq<u8>)
    requires
        key.len() == KEY_SIZE,
        forall|j: int| 0 <= j < psks.len() ==> (#[trigger] psks[j]).0.len() == PSKID_SIZE,
    ensures
        psk_forks_bytes::<F>(h1, psks, key).len() == PSK_FORK_SIZE * psks.len(),
    decreases psks.len(),
{
    if psks.len() > 0 {
        let l = psks.last();
        assert(l == psks[psks.len() - 1]);
        lemma_psk_forks_len::<F>(h1, psks.drop_last(), key);
        F::lemma_unmask_masked(h1, l.0);
        F::lemma_unmask_masked(psk_key_state(h1, l.0, l.1), key);
    }
}

proof fn lemma_psk_fork_at<F: Spongos>(h1: Seq<Op>, psks: Seq<(Seq<u8>, Seq<u8>)>, key: Seq<u8>, j: int)
    requires
        key.len() == KEY_SIZE,
        forall|k: int| 0 <= k < psks.len() ==> (#[trigger] psks[k]).0.len() == PSKID_SIZE,
        0 <= j < psks.len(),
    ensures
        psk_forks_bytes::<F>(h1, psks, key).subrange(PSK_FORK_SIZE * j, PSK_FORK_SIZE * j + 16)
            == F::masked(h1, psks[j].0),
        psk_forks_bytes::<F>(h1, psks, key).subrange(PSK_FORK_SIZE * j + 16, PSK_FORK_SIZE * j + 48)
            == F::masked(psk_key_state(h1, psks[j].0, psks[j].1), key),
    decreases psks.len(),
{
    let init = psks.drop_last();
    let l = psks.last();
    let a = psk_forks_bytes::<F>(h1, init, key);
    let c = psk_fork_bytes::<F>(h1, l.0, l.1, key);
    lemma_psk_forks_len::<F>(h1, init, key);
    F::lemma_unmask_masked(h1, l.0);
    F::lemma_unmask_masked(psk_key_state(h1, l.0, l.1), key);
    if j == psks.len() - 1 {
        assert((a + c).subrange(PSK_FORK_SIZE * j, PSK_FORK_SIZE * j + 16) =~= F::masked(h1, l.0));
        assert((a + c).subrange(PSK_FORK_SIZE * j + 16, PSK_FORK_SIZE * j + 48) =~= F::masked(
            psk_key_state(h1, l.0, l.1),
            key,
        ));
    } else {
        assert(init[j] == psks[j]);
        lemma_psk_fork_at::<F>(h1, init, key, j);
        assert((a + c).subrange(PSK_FORK_SIZE * j, PSK_FORK_SIZE * j + 16) =~= a.subrange(
            PSK_FORK_SIZE * j,
            PSK_FORK_SIZE * j + 16,
        ));
        assert((a + c).subrange(PSK_FORK_SIZE * j + 16, PSK_FORK_SIZE * j + 48) =~= a.subrange(
            PSK_FORK_SIZE * j + 16,
            PSK_FORK_SIZE * j + 48,
        ));
    }
}

proof fn lemma_ke_forks_len<F: Spongos>(h1: Seq<Op>, pks: Seq<Seq<u8>>, ephs: Seq<Seq<u8>>, key: Seq<u8>)
    requires
        key.len() == KEY_SIZE,
        pks.len() <= ephs.len(),
        forall|j: int| 0 <= j < pks.len() ==> (#[trigger] pks[j]).len() == X25519_SIZE,
        forall|j: int| 0 <= j < ephs.len() ==> (#[trigger] x25519_public_of(ephs[j])).len() == X25519_SIZE,
    ensures
        ke_forks_bytes::<F>(h1, pks, ephs, key).len() == KE_FORK_SIZE * pks.len(),
    decreases pks.len(),
{
    if pks.len() > 0 {
        let n = pks.len() - 1;
        assert(pks.last() == pks[n]);
        lemma_ke_forks_len::<F>(h1, pks.drop_last(), ephs, key);
        F::lemma_unmask_masked(ke_key_state(h1, pks[n], x25519_public_of(ephs[n]), x25519_shared_of(ephs[n], pks[n])), key);
        assert(x25519_public_of(ephs[n]).len() == X25519_SIZE);
    }
}

proof fn lemma_ke_fork_at<F: Spongos>(h1: Seq<Op>, pks: Seq<Seq<u8>>, ephs: Seq<Seq<u8>>, key: Seq<u8>, j: int)
    requires
        key.len() == KEY_SIZE,
        pks.len() <= ephs.len(),
        forall|k: int| 0 <= k < pks.len() ==> (#[trigger] pks[k]).len() == X25519_SIZE,
        forall|k: int| 0 <= k < ephs.len() ==> (#[trigger] x25519_public_of(ephs[k])).len() == X25519_SIZE,
        0 <= j < pks.len(),
    ensures
        ke_forks_bytes::<F>(h1, pks, ephs, key).subrange(KE_FORK_SIZE * j, KE_FORK_SIZE * j + 32) == pks[j],
        ke_forks_bytes::<F>(h1, pks, ephs, key).subrange(KE_FORK_SIZE * j + 32, KE_FORK_SIZE * j + 64)
            == x25519_public_of(ephs[j]),
        ke_forks_bytes::<F>(h1, pks, ephs, key).subrange(KE_FORK_SIZE * j + 64, KE_FORK_SIZE * j + 96)
            == F::masked(ke_key_state(h1, pks[j], x25519_public_of(ephs[j]), x25519_shared_of(ephs[j], pks[j])), key),
    decreases pks.len(),
{
    let n = pks.len() - 1;
    let init = pks.drop_last();
    let a = ke_forks_bytes::<F>(h1, init, ephs, key);
    let c = ke_fork_bytes::<F>(h1, pks[n], ephs[n], key);
    let e = x25519_public_of(ephs[n]);
    let st = ke_key_state(h1, pks[n], e, x25519_shared_of(ephs[n], pks[n]));
    assert(pks.last() == pks[n]);
    lemma_ke_forks_len::<F>(h1, init, ephs, key);
    F::lemma_unmask_masked(st, key);
    assert(e.len() == X25519_SIZE);
    assert(ke_forks_bytes::<F>(h1, pks, ephs, key) == a + c);
    if j == n {
        assert((a + c).subrange(KE_FORK_SIZE * j, KE_FORK_SIZE * j + 32) =~= pks[n]);
        assert((a + c).subrange(KE_FORK_SIZE * j + 32, KE_FORK_SIZE * j + 64) =~= e);
        assert((a + c).subrange(KE_FORK_SIZE * j + 64, KE_FORK_SIZE * j + 96) =~= F::masked(st, key));
    } else {
        assert(init[j] == pks[j]);
        lemma_ke_fork_at::<F>(h1, init, ephs, key, j);
        assert((a + c).subrange(KE_FORK_SIZE * j, KE_FORK_SIZE * j + 32) =~= a.subrange(
            KE_FORK_SIZE * j,
            KE_FORK_SIZE * j + 32,
        ));
        assert((a + c).subrange(KE_FORK_SIZE * j + 32, KE_FORK_SIZE * j + 64) =~= a.subrange(
            KE_FORK_SIZE * j + 32,
            KE_FORK_SIZE * j + 64,
        ));
        assert((a + c).subrange(KE_FORK_SIZE * j + 64, KE_FORK_SIZE * j + 96) =~= a.subrange(
            KE_FORK_SIZE * j + 64,
            KE_FORK_SIZE * j + 96,
        ));
    }
}

proof fn lemma_psk_scan<F: Spongos>(
    h1: Seq<Op>,
    b: Seq<u8>,
    n: nat,
    table: Seq<(Seq<u8>, Seq<u8>)>,
    psks: Seq<(Seq<u8>, Seq<u8>)>,
    key: Seq<u8>,
)
    requires
        n <= psks.len(),
        forall|j: int|
            0 <= j < n ==> #[trigger] psk_fork_key::<F>(h1, b, j, table) == if lookup_psk(
                table,
                psks[j].0,
            ) is Some {
                Some(key)
            } else {
                None::<Seq<u8>>
            },
    ensures
        psk_scan::<F>(h1, b, n, table) == if exists|j: int|
            0 <= j < n && (#[trigger] lookup_psk(table, psks[j].0)) is Some {
            Some(key)
        } else {
            None::<Seq<u8>>
        },
    decreases n,
{
    if n > 0 {
        lemma_psk_scan::<F>(h1, b, (n - 1) as nat, table, psks, key);
        let _ = psk_fork_key::<F>(h1, b, n - 1, table);
        if exists|j: int| 0 <= j < n && (#[trigger] lookup_psk(table, psks[j].0)) is Some {
            let j = choose|j: int| 0 <= j < n && (#[trigger] lookup_psk(table, psks[j].0)) is Some;
            if j < n - 1 {
                assert(exists|i: int| 0 <= i < n - 1 && (#[trigger] lookup_psk(table, psks[i].0)) is Some);
            }
        }
    }
}

proof fn lemma_ke_scan<F: Spongos>(
    h1: Seq<Op>,
    b: Seq<u8>,
    base: int,
    n: nat,
    pks: Seq<Seq<u8>>,
    my_pk: Seq<u8>,
    my_sk: Seq<u8>,
    key: Seq<u8>,
)
    requires
        n <= pks.len(),
        forall|j: int|
            0 <= j < n ==> #[trigger] ke_fork_key::<F>(h1, b, base, j, my_pk, my_sk) == if pks[j] == my_pk {
                Some(key)
            } else {
                None::<Seq<u8>>
            },
    ensures
        ke_scan::<F>(h1, b, base, n, my_pk, my_sk) == if pks.take(n as int).contains(my_pk) {
            Some(key)
        } else {
            None::<Seq<u8>>
        },
    decreases n,
{
    if n > 0 {
        lemma_ke_scan::<F>(h1, b, base, (n - 1) as nat, pks, my_pk, my_sk, key);
        let _ = ke_fork_key::<F>(h1, b, base, n - 1, my_pk, my_sk);
        let t = pks.take(n as int);
        let t1 = pks.take(n - 1);
        assert(t1 =~= t.drop_last());
        if t.contains(my_pk) {
            let i = choose|i: int| 0 <= i < t.len() && t[i] == my_pk;
            if i < n - 1 {
                assert(t1[i] == my_pk);
            }
        }
        if t1.contains(my_pk) {
            let i = choose|i: int| 0 <= i < t1.len() && t1[i] == my_pk;
            assert(t[i] == my_pk);
        }
        if pks[n - 1] == my_pk {
            assert(t[n - 1] == my_pk);
        }
    }
}

/// Round trip: a recipient that holds a key for one of the forks, and whose pre-shared keys
/// agree with the sender's, reads back the link, the nonce and the session key that were
/// wrapped. A recipient that holds none gets `KeyNotFound`.
pub proof fn lemma_keyload_round_trip<F: Spongos>(
    h0: Seq<Op>,
    link: Seq<u8>,
    nonce: Seq<u8>,
    key: Seq<u8>,
    psks: Seq<(Seq<u8>, Seq<u8>)>,
    pks: Seq<Seq<u8>>,
    ephs: Seq<Seq<u8>>,
    table: Seq<(Seq<u8>, Seq<u8>)>,
    my_pk: Seq<u8>,
    my_sk: Seq<u8>,
)
    requires
        link.len() == MSGID_SIZE,
        nonce.len() == NONCE_SIZE,
        key.len() == KEY_SIZE,
        psks.len() <= u32::MAX,
        pks.len() <= u32::MAX,
        ephs.len() == pks.len(),
        forall|j: int| 0 <= j < psks.len() ==> (#[trigger] psks[j]).0.len() == PSKID_SIZE,
        forall|j: int| 0 <= j < pks.len() ==> (#[trigger] pks[j]).len() == X25519_SIZE,
        forall|j: int| 0 <= j < ephs.len() ==> (#[trigger] ephs[j]).len() == X25519_SIZE,
        forall|j: int| 0 <= j < ephs.len() ==> (#[trigger] x25519_public_of(ephs[j])).len() == X25519_SIZE,
        forall|j: int|
            0 <= j < pks.len() && pks[j] == my_pk ==> x25519_shared_of(my_sk, #[trigger] x25519_public_of(ephs[j]))
                == x25519_shared_of(ephs[j], pks[j]),
        psks_agree(table, psks),
    ensures
        keyload_unwrap::<F>(h0, keyload_bytes::<F>(h0, link, nonce, key, psks, pks, ephs), table, my_pk, my_sk)
            == if holds_key(table, psks, pks, my_pk) {
            Ok((link, nonce, key))
        } else {
            Err::<(Seq<u8>, Seq<u8>, Seq<u8>), Error>(Error::KeyNotFound)
        },
{
    let h1 = fork_base(h0, link, nonce);
    let np = psks.len();
    let nk = pks.len();
    let pf = psk_forks_bytes::<F>(h1, psks, key);
    let kf = ke_forks_bytes::<F>(h1, pks, ephs, key);
    let b = keyload_bytes::<F>(h0, link, nonce, key, psks, pks, ephs);
    lemma_be4_value_be4(np as u32);
    lemma_be4_value_be4(nk as u32);
    lemma_psk_forks_len::<F>(h1, psks, key);
    lemma_ke_forks_len::<F>(h1, pks, ephs, key);
    let base = PREFIX_SIZE + PSK_FORK_SIZE * np + 4;
    assert(b.len() == base + KE_FORK_SIZE * nk);
    assert(b.subrange(0, 12) =~= link);
    assert(b.subrange(12, 28) =~= nonce);
    assert(b.subrange(28, 32) =~= be4(np as u32));
    assert(b.subrange(base - 4, base) =~= be4(nk as u32));

    assert forall|j: int| 0 <= j < np implies #[trigger] psk_fork_key::<F>(h1, b, j, table) == if lookup_psk(
        table,
        psks[j].0,
    ) is Some {
        Some(key)
    } else {
        None::<Seq<u8>>
    } by {
        let off = PREFIX_SIZE + PSK_FORK_SIZE * j;
        lemma_psk_fork_at::<F>(h1, psks, key, j);
        assert(b.subrange(off, off + 16) =~= pf.subrange(PSK_FORK_SIZE * j, PSK_FORK_SIZE * j + 16));
        assert(b.subrange(off + 16, off + 48) =~= pf.subrange(PSK_FORK_SIZE * j + 16, PSK_FORK_SIZE * j + 48));
        F::lemma_unmask_masked(h1, psks[j].0);
        F::lemma_unmask_masked(psk_key_state(h1, psks[j].0, psks[j].1), key);
    }
    lemma_psk_scan::<F>(h1, b, np, table, psks, key);

    assert forall|j: int| 0 <= j < nk implies #[trigger] ke_fork_key::<F>(h1, b, base, j, my_pk, my_sk) == if pks[j] == my_pk {
        Some(key)
    } else {
        None::<Seq<u8>>
    } by {
        let off = base + KE_FORK_SIZE * j;
        lemma_ke_fork_at::<F>(h1, pks, ephs, key, j);
        if pks[j] == my_pk {
            assert(pks.contains(my_pk));
        }
        assert(b.subrange(off, off + 32) =~= kf.subrange(KE_FORK_SIZE * j, KE_FORK_SIZE * j + 32));
        assert(b.subrange(off + 32, off + 64) =~= kf.subrange(KE_FORK_SIZE * j + 32, KE_FORK_SIZE * j + 64));
        assert(b.subrange(off + 64, off + 96) =~= kf.subrange(KE_FORK_SIZE * j + 64, KE_FORK_SIZE * j + 96));
        F::lemma_unmask_masked(ke_key_state(h1, pks[j], x25519_public_of(ephs[j]), x25519_shared_of(ephs[j], pks[j])), key);
    }
    lemma_ke_scan::<F>(h1, b, base, nk, pks, my_pk, my_sk, key);
    assert(pks.take(nk as int) =~= pks);
}

} // verus!
