//! Per-participant sequencing state: for each known publisher, the latest message seen from
//! it and its sequence number.
use vstd::prelude::*;
use crate::bytes::{append, bytes_eq, to_vec};
use crate::error::Error;

verus! {

/// Where a publisher stands: its latest message, its next sequence number and its branch.
pub struct Cursor {
    /// Message identifier of the latest message.
    pub link: Vec<u8>,
    pub seq_num: u32,
    pub branch_no: u32,
}

/// Mathematical value of a cursor.
pub struct CursorView {
    pub link: Seq<u8>,
    pub seq_num: u32,
    pub branch_no: u32,
}

impl Cursor {
    pub open spec fn view(&self) -> CursorView {
        CursorView { link: self.link@, seq_num: self.seq_num, branch_no: self.branch_no }
    }

    pub fn new(link: Vec<u8>, seq_num: u32, branch_no: u32) -> (r: Cursor)
        ensures
            r.view() == (CursorView { link: link@, seq_num, branch_no }),
    {
        Cursor { link, seq_num, branch_no }
    }

    /// A copy with the same value.
    pub fn duplicate(&self) -> (r: Cursor)
        ensures
            r.view() == self.view(),
    {
        let mut link: Vec<u8> = Vec::new();
        append(&mut link, self.link.as_slice());
        Cursor { link, seq_num: self.seq_num, branch_no: self.branch_no }
    }
}

/// Digit `n` (below 16) in lower-case hexadecimal.
pub open spec fn hex_digit(n: u8) -> char {
    if n < 10 {
        ((n + 48) as u8) as char
    } else {
        ((n + 87) as u8) as char
    }
}

/// Lower-case hexadecimal text of `b`: two digits per byte, high half first.
pub open spec fn hex_of(b: Seq<u8>) -> Seq<char>
    decreases b.len(),
{
    if b.len() == 0 {
        Seq::empty()
    } else {
        hex_of(b.drop_last()) + seq![hex_digit(b.last() / 16), hex_digit(b.last() % 16)]
    }
}

/// Relies on hex::encode: lower-case digits, two per byte, high half first.
#[verifier::external_body]
pub(crate) fn to_hex(b: &[u8]) -> (r: String)
    ensures
        r@ == hex_of(b@),
{
    hex::encode(b)
}

pub open spec fn entry_views(v: Seq<(Vec<u8>, Cursor)>) -> Seq<(Seq<u8>, CursorView)> {
    v.map_values(|e: (Vec<u8>, Cursor)| (e.0@, e.1.view()))
}

/// Identifiers appear at most once.
pub open spec fn ids_unique(v: Seq<(Seq<u8>, CursorView)>) -> bool {
    forall|i: int, j: int| 0 <= i < v.len() && 0 <= j < v.len() && v[i].0 == v[j].0 ==> i == j
}

pub open spec fn has_id(v: Seq<(Seq<u8>, CursorView)>, id: Seq<u8>) -> bool {
    exists|i: int| 0 <= i < v.len() && v[i].0 == id
}

/// Position of `id` (meaningful where `has_id` holds).
pub open spec fn index_of(v: Seq<(Seq<u8>, CursorView)>, id: Seq<u8>) -> int {
    choose|i: int| 0 <= i < v.len() && v[i].0 == id
}

/// Cursor stored under `id`, if any.
pub open spec fn cursor_of(v: Seq<(Seq<u8>, CursorView)>, id: Seq<u8>) -> Option<CursorView> {
    if has_id(v, id) {
        Some(v[index_of(v, id)].1)
    } else {
        None
    }
}

/// `c` stored under `id`, in place of the cursor stored there before, if any.
pub open spec fn inserted(v: Seq<(Seq<u8>, CursorView)>, id: Seq<u8>, c: CursorView) -> Seq<(Seq<u8>, CursorView)> {
    if has_id(v, id) {
        v.update(index_of(v, id), (id, c))
    } else {
        v.push((id, c))
    }
}

/// Sequencing state after a message `link` from publisher `id` (multi-branching): that
/// publisher's cursor moves to the message and its sequence number goes up by one.
pub open spec fn stored_state(v: Seq<(Seq<u8>, CursorView)>, id: Seq<u8>, link: Seq<u8>) -> Seq<(Seq<u8>, CursorView)> {
    if has_id(v, id) {
        let i = index_of(v, id);
        v.update(i, (id, CursorView { link, seq_num: (v[i].1.seq_num + 1) as u32, branch_no: v[i].1.branch_no }))
    } else {
        v
    }
}

/// Sequencing state after a message `link` with sequence number `seq_num` (single-branching):
/// every cursor moves to the message; sequence numbers never go down.
pub open spec fn stored_state_for_all(v: Seq<(Seq<u8>, CursorView)>, link: Seq<u8>, seq_num: u32) -> Seq<(Seq<u8>, CursorView)> {
    v.map_values(|e: (Seq<u8>, CursorView)| (e.0, CursorView {
        link,
        seq_num: if e.1.seq_num < seq_num { seq_num } else { e.1.seq_num },
        branch_no: e.1.branch_no,
    }))
}

/// Every cursor set to `link` and `seq_num`.
pub open spec fn rewound(v: Seq<(Seq<u8>, CursorView)>, link: Seq<u8>, seq_num: u32) -> Seq<(Seq<u8>, CursorView)> {
    v.map_values(|e: (Seq<u8>, CursorView)| (e.0, CursorView { link, seq_num, branch_no: e.1.branch_no }))
}

/// Cursors of the known publishers, in the order they became known.
pub struct KeyStore {
    pub entries: Vec<(Vec<u8>, Cursor)>,
}

impl KeyStore {
    pub open spec fn view(&self) -> Seq<(Seq<u8>, CursorView)> {
        entry_views(self.entries@)
    }

    pub open spec fn wf(&self) -> bool {
        ids_unique(self.view())
    }

    pub fn new() -> (r: KeyStore)
        ensures
            r.wf(),
            r.view() == Seq::<(Seq<u8>, CursorView)>::empty(),
    {
        let r = KeyStore { entries: Vec::new() };
        assert(r.view() =~= Seq::<(Seq<u8>, CursorView)>::empty());
        r
    }

    pub fn len(&self) -> (r: usize)
        ensures
            r == self.view().len(),
    {
        self.entries.len()
    }

    /// Position of `id`.
    pub fn find(&self, id: &[u8]) -> (r: Option<usize>)
        requires
            self.wf(),
        ensures
            match r {
                Some(i) => i < self.view().len() && self.view()[i as int].0 == id@ && index_of(self.view(), id@) == i,
                None => !has_id(self.view(), id@),
            },
    {
        let ghost v = self.view();
        let mut i: usize = 0;
        while i < self.entries.len()
            invariant
                i <= self.entries@.len(),
                v == self.view(),
                ids_unique(v),
                forall|k: int| 0 <= k < i ==> v[k].0 != id@,
            decreases self.entries@.len() - i,
        {
            if bytes_eq(self.entries[i].0.as_slice(), id) {
                assert(v[i as int].0 == id@);
                let ghost c = index_of(v, id@);
                assert(v[c].0 == id@);
                return Some(i);
            }
            i = i + 1;
        }
        None
    }

    /// Stores `cursor` under `id`, in place of the cursor stored there before, if any.
    pub fn insert_cursor(&mut self, id: Vec<u8>, cursor: Cursor)
        requires
            old(self).wf(),
        ensures
            final(self).wf(),
            final(self).view() == inserted(old(self).view(), id@, cursor.view()),
    {
        let ghost v = self.view();
        match self.find(id.as_slice()) {
            Some(i) => {
                let ghost idv = id@;
                let ghost cv = cursor.view();
                self.entries.set(i, (id, cursor));
                assert(self.view() =~= v.update(i as int, (idv, cv)));
                assert forall|a: int, b: int|
                    0 <= a < self.view().len() && 0 <= b < self.view().len() && self.view()[a].0
                        == self.view()[b].0 implies a == b by {
                    if a != i && b != i {
                        assert(v[a].0 == v[b].0);
                    } else if a == i && b != i {
                        assert(v[b].0 == v[i as int].0);
                    } else if b == i && a != i {
                        assert(v[a].0 == v[i as int].0);
                    }
                }
            },
            None => {
                let ghost idv = id@;
                let ghost cv = cursor.view();
                self.entries.push((id, cursor));
                assert(self.view() =~= v.push((idv, cv)));
                assert forall|a: int, b: int|
                    0 <= a < self.view().len() && 0 <= b < self.view().len() && self.view()[a].0
                        == self.view()[b].0 implies a == b by {
                    if a < v.len() && b == v.len() {
                        assert(v[a].0 == idv);
                    }
                    if b < v.len() && a == v.len() {
                        assert(v[b].0 == idv);
                    }
                }
            },
        }
    }

    /// Moves the cursor of publisher `id` to `link` and advances its sequence number. An
    /// unknown publisher leaves the state as it is; a sequence number that cannot advance is
    /// a `StateMismatch` and changes nothing.
    pub fn store_state(&mut self, id: &[u8], link: &[u8]) -> (r: Result<(), Error>)
        requires
            old(self).wf(),
        ensures
            final(self).wf(),
            match cursor_of(old(self).view(), id@) {
                Some(c) => if c.seq_num == u32::MAX {
                    r == Err::<(), Error>(Error::StateMismatch) && final(self).view() == old(self).view()
                } else {
                    r == Ok::<(), Error>(()) && final(self).view() == stored_state(old(self).view(), id@, link@)
                },
                None => r == Ok::<(), Error>(()) && final(self).view() == old(self).view(),
            },
    {
        let ghost v = self.view();
        match self.find(id) {
            Some(i) => {
                let seq = self.entries[i].1.seq_num;
                if seq == u32::MAX {
                    return Err(Error::StateMismatch);
                }
                let branch = self.entries[i].1.branch_no;
                let mut l: Vec<u8> = Vec::new();
                append(&mut l, link);
                let mut k: Vec<u8> = Vec::new();
                append(&mut k, id);
                let ghost kv = k@;
                let ghost lv = l@;
                self.entries.set(i, (k, Cursor { link: l, seq_num: seq + 1, branch_no: branch }));
                assert(self.view() =~= stored_state(v, id@, link@));
                Ok(())
            },
            None => Ok(()),
        }
    }

    /// Moves every cursor to `link`, raising sequence numbers below `seq_num` to it.
    pub fn store_state_for_all(&mut self, link: &[u8], seq_num: u32)
        requires
            old(self).wf(),
        ensures
            final(self).wf(),
            final(self).view() == stored_state_for_all(old(self).view(), link@, seq_num),
    {
        let ghost v = self.view();
        let ghost target = stored_state_for_all(v, link@, seq_num);
        let mut i: usize = 0;
        while i < self.entries.len()
            invariant
                i <= self.entries@.len(),
                self.entries@.len() == v.len(),
                target == stored_state_for_all(v, link@, seq_num),
                forall|k: int| 0 <= k < i ==> self.view()[k] == target[k],
                forall|k: int| i <= k < v.len() ==> self.view()[k] == v[k],
            decreases self.entries@.len() - i,
        {
            let old_seq = self.entries[i].1.seq_num;
            let branch = self.entries[i].1.branch_no;
            let mut l: Vec<u8> = Vec::new();
            append(&mut l, link);
            let mut k: Vec<u8> = Vec::new();
            append(&mut k, self.entries[i].0.as_slice());
            let s = if old_seq < seq_num { seq_num } else { old_seq };
            self.entries.set(i, (k, Cursor { link: l, seq_num: s, branch_no: branch }));
            i = i + 1;
        }
        assert(self.view() =~= target);
    }

    /// Sets every cursor to `link` and `seq_num`.
    pub fn rewind(&mut self, link: &[u8], seq_num: u32)
        requires
            old(self).wf(),
        ensures
            final(self).wf(),
            final(self).view() == rewound(old(self).view(), link@, seq_num),
    {
        let ghost v = self.view();
        let ghost target = rewound(v, link@, seq_num);
        let mut i: usize = 0;
        while i < self.entries.len()
            invariant
                i <= self.entries@.len(),
                self.entries@.len() == v.len(),
                target == rewound(v, link@, seq_num),
                forall|k: int| 0 <= k < i ==> self.view()[k] == target[k],
                forall|k: int| i <= k < v.len() ==> self.view()[k] == v[k],
            decreases self.entries@.len() - i,
        {
            let branch = self.entries[i].1.branch_no;
            let k = to_vec(self.entries[i].0.as_slice());
            self.entries.set(i, (k, Cursor { link: to_vec(link), seq_num, branch_no: branch }));
            i = i + 1;
        }
        assert(self.view() =~= target);
    }

    /// Each publisher, in hexadecimal, with a copy of its cursor.
    pub fn fetch_state(&self) -> (r: Vec<(String, Cursor)>)
        ensures
            r@.len() == self.view().len(),
            forall|i: int|
                0 <= i < r@.len() ==> (#[trigger] r@[i]).0@ == hex_of(self.view()[i].0) && r@[i].1.view()
                    == self.view()[i].1,
    {
        let mut r: Vec<(String, Cursor)> = Vec::new();
        let mut i: usize = 0;
        while i < self.entries.len()
            invariant
                i <= self.entries@.len(),
                r@.len() == i,
                forall|k: int|
                    0 <= k < i ==> (#[trigger] r@[k]).0@ == hex_of(self.view()[k].0) && r@[k].1.view()
                        == self.view()[k].1,
            decreases self.entries@.len() - i,
        {
            let name = to_hex(self.entries[i].0.as_slice());
            let c = self.entries[i].1.duplicate();
            r.push((name, c));
            i = i + 1;
        }
        r
    }
}

} // verus!
