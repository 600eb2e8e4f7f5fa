//! Laws of the sequencing state: receiving is idempotent, and peers that apply the same
//! messages agree on where each common publisher stands.
use vstd::prelude::*;
use crate::author::{advanced, signed_receive, tagged_receive, UserState};
use crate::error::Error;
use crate::key_store::{cursor_of, has_id, ids_unique, index_of, stored_state_for_all, CursorView};
use crate::link_store::{has_link, state_of};
use crate::sponge::{Op, Spongos};

verus! {

/// Message identifiers appear once in a link store.
pub open spec fn links_unique(v: Seq<(Seq<u8>, Seq<Op>)>) -> bool {
    forall|i: int, j: int| 0 <= i < v.len() && 0 <= j < v.len() && v[i].0 == v[j].0 ==> i == j
}

proof fn lemma_state_of_push(v: Seq<(Seq<u8>, Seq<Op>)>, x: (Seq<u8>, Seq<Op>), msgid: Seq<u8>)
    requires
        links_unique(v),
        !has_link(v, x.0),
        has_link(v, msgid),
    ensures
        has_link(v.push(x), msgid),
        state_of(v.push(x), msgid) == state_of(v, msgid),
{
    let w = v.push(x);
    let i = choose|i: int| 0 <= i < v.len() && v[i].0 == msgid;
    assert(w[i].0 == msgid);
    let k = choose|k: int| 0 <= k < w.len() && w[k].0 == msgid;
    if k == v.len() {
        assert(x.0 == msgid);
    }
    assert(w[k] == v[k]);
    assert(v[k].0 == msgid);
}

/// Receiving the same tagged packet a second time gives the same payloads and leaves the
/// state as the first reception left it.
pub proof fn lemma_receive_twice<F: Spongos>(st: UserState, addr: (Seq<u8>, Seq<u8>), b: Seq<u8>)
    requires
        links_unique(st.links),
        tagged_receive::<F>(st, addr, b) is Ok,
    ensures
        tagged_receive::<F>(st, addr, b) matches Ok((p, m, st1)) && tagged_receive::<F>(st1, addr, b) == Ok::<
            (Seq<u8>, Seq<u8>, UserState),
            Error,
        >((p, m, st1)),
{
    let (p, m, st1) = tagged_receive::<F>(st, addr, b).unwrap();
    let msgid = addr.1;
    let body = b.subrange(54, b.len() as int);
    let parent = body.subrange(0, 12);
    if !has_link(st.links, msgid) {
        let h0 = state_of(st.links, parent);
        let (link, public, masked) = crate::tagged_packet::tagged_unwrap::<F>(h0, body).unwrap();
        let x = (msgid, crate::tagged_packet::tagged_final(h0, link, public, masked));
        lemma_state_of_push(st.links, x, parent);
        assert(st1.links == st.links.push(x));
        assert(st1.links[st.links.len() as int].0 == msgid);
    }
}

/// Receiving the same signed packet a second time gives the same signer and payloads, and
/// leaves the state as the first reception left it.
pub proof fn lemma_receive_signed_twice<F: Spongos>(st: UserState, addr: (Seq<u8>, Seq<u8>), b: Seq<u8>)
    requires
        links_unique(st.links),
        signed_receive::<F>(st, addr, b) is Ok,
    ensures
        signed_receive::<F>(st, addr, b) matches Ok((s, p, m, st1)) && signed_receive::<F>(st1, addr, b)
            == Ok::<(Seq<u8>, Seq<u8>, Seq<u8>, UserState), Error>((s, p, m, st1)),
{
    let (s, p, m, st1) = signed_receive::<F>(st, addr, b).unwrap();
    let msgid = addr.1;
    let body = b.subrange(54, b.len() as int);
    let parent = body.subrange(0, 12);
    if !has_link(st.links, msgid) {
        let h0 = state_of(st.links, parent);
        let (link, signer, public, masked, sig) = crate::signed_packet::signed_parse::<F>(h0, body).unwrap();
        let x = (msgid, crate::signed_packet::signed_final(h0, link, signer, public, masked));
        lemma_state_of_push(st.links, x, parent);
        assert(st1.links == st.links.push(x));
        assert(st1.links[st.links.len() as int].0 == msgid);
    }
}

/// Two sequencing states agree on every publisher that both know: same link, same
/// sequence number.
pub open spec fn cursors_agree(a: Seq<(Seq<u8>, CursorView)>, b: Seq<(Seq<u8>, CursorView)>) -> bool {
    forall|id: Seq<u8>|
        has_id(a, id) && has_id(b, id) ==> (#[trigger] cursor_of(a, id)).unwrap().link == cursor_of(b, id).unwrap().link
            && cursor_of(a, id).unwrap().seq_num == cursor_of(b, id).unwrap().seq_num
}

/// A received message, as far as sequencing is concerned: its publisher, its identifier, and
/// the sequence number that follows it.
pub struct Received {
    pub publisher: Seq<u8>,
    pub msgid: Seq<u8>,
    pub next_seq: u32,
}

/// Sequencing state after a received message, as `Author::accept_sequenced` (multi-branching)
/// and `Author::accept_packet` (otherwise) move the cursors.
pub open spec fn apply_received(v: Seq<(Seq<u8>, CursorView)>, multi: bool, e: Received) -> Seq<(Seq<u8>, CursorView)> {
    if multi {
        advanced(v, e.publisher, e.msgid)
    } else {
        stored_state_for_all(v, e.msgid, e.next_seq)
    }
}

pub open spec fn apply_all(v: Seq<(Seq<u8>, CursorView)>, multi: bool, es: Seq<Received>) -> Seq<(Seq<u8>, CursorView)>
    decreases es.len(),
{
    if es.len() == 0 {
        v
    } else {
        apply_received(apply_all(v, multi, es.drop_last()), multi, es.last())
    }
}

proof fn lemma_has_id_index(v: Seq<(Seq<u8>, CursorView)>, id: Seq<u8>, i: int)
    requires
        ids_unique(v),
        0 <= i < v.len(),
        v[i].0 == id,
    ensures
        has_id(v, id),
        index_of(v, id) == i,
        cursor_of(v, id) == Some(v[i].1),
{
    let k = index_of(v, id);
    assert(v[k].0 == id);
}

proof fn lemma_apply_one(v: Seq<(Seq<u8>, CursorView)>, multi: bool, e: Received)
    requires
        ids_unique(v),
    ensures
        ids_unique(apply_received(v, multi, e)),
        apply_received(v, multi, e).len() == v.len(),
        forall|i: int| 0 <= i < v.len() ==> (#[trigger] apply_received(v, multi, e)[i]).0 == v[i].0,
        forall|i: int|
            0 <= i < v.len() ==> (#[trigger] apply_received(v, multi, e)[i]).1 == if multi {
                if v[i].0 == e.publisher && v[i].1.seq_num != u32::MAX {
                    CursorView { link: e.msgid, seq_num: (v[i].1.seq_num + 1) as u32, branch_no: v[i].1.branch_no }
                } else {
                    v[i].1
                }
            } else {
                CursorView {
                    link: e.msgid,
                    seq_num: if v[i].1.seq_num < e.next_seq { e.next_seq } else { v[i].1.seq_num },
                    branch_no: v[i].1.branch_no,
                }
            },
{
    let w = apply_received(v, multi, e);
    if multi && has_id(v, e.publisher) {
        let k = index_of(v, e.publisher);
        assert(v[k].0 == e.publisher);
        assert forall|i: int| 0 <= i < v.len() && v[i].0 == e.publisher implies i == k by {}
    }
}

proof fn lemma_agree_one(a: Seq<(Seq<u8>, CursorView)>, b: Seq<(Seq<u8>, CursorView)>, multi: bool, e: Received)
    requires
        ids_unique(a),
        ids_unique(b),
        cursors_agree(a, b),
    ensures
        cursors_agree(apply_received(a, multi, e), apply_received(b, multi, e)),
{
    let a1 = apply_received(a, multi, e);
    let b1 = apply_received(b, multi, e);
    lemma_apply_one(a, multi, e);
    lemma_apply_one(b, multi, e);
    assert forall|id: Seq<u8>| has_id(a1, id) && has_id(b1, id) implies (#[trigger] cursor_of(a1, id)).unwrap().link
        == cursor_of(b1, id).unwrap().link && cursor_of(a1, id).unwrap().seq_num == cursor_of(b1, id).unwrap().seq_num by {
        let i = index_of(a1, id);
        let j = index_of(b1, id);
        assert(a1[i].0 == id && b1[j].0 == id);
        lemma_has_id_index(a, id, i);
        lemma_has_id_index(b, id, j);
        lemma_has_id_index(a1, id, i);
        lemma_has_id_index(b1, id, j);
        assert(cursor_of(a, id).unwrap().link == cursor_of(b, id).unwrap().link);
    }
}

/// Two peers whose sequencing states agree on their common publishers, and that apply the
/// same received messages in the same order, still agree on them.
pub proof fn lemma_same_messages_agree(
    a: Seq<(Seq<u8>, CursorView)>,
    b: Seq<(Seq<u8>, CursorView)>,
    multi: bool,
    es: Seq<Received>,
)
    requires
        ids_unique(a),
        ids_unique(b),
        cursors_agree(a, b),
    ensures
        cursors_agree(apply_all(a, multi, es), apply_all(b, multi, es)),
        ids_unique(apply_all(a, multi, es)),
        ids_unique(apply_all(b, multi, es)),
    decreases es.len(),
{
    if es.len() > 0 {
        lemma_same_messages_agree(a, b, multi, es.drop_last());
        let a0 = apply_all(a, multi, es.drop_last());
        let b0 = apply_all(b, multi, es.drop_last());
        lemma_agree_one(a0, b0, multi, es.last());
        lemma_apply_one(a0, multi, es.last());
        lemma_apply_one(b0, multi, es.last());
    }
}

} // verus!
