//! Committed sponge state of each known message, by message identifier. Entries are added
//! once and never changed; building or reading a child starts from its parent's state.
use vstd::prelude::*;
use crate::bytes::bytes_eq;
use crate::sponge::{Op, Spongos};

verus! {

pub struct LinkStore<F> {
    pub entries: Vec<(Vec<u8>, F)>,
}

pub open spec fn link_views<F: Spongos>(v: Seq<(Vec<u8>, F)>) -> Seq<(Seq<u8>, Seq<Op>)> {
    v.map_values(|e: (Vec<u8>, F)| (e.0@, e.1.history()))
}

pub open spec fn has_link(v: Seq<(Seq<u8>, Seq<Op>)>, msgid: Seq<u8>) -> bool {
    exists|i: int| 0 <= i < v.len() && v[i].0 == msgid
}

/// Committed state of `msgid` (meaningful where `has_link` holds).
pub open spec fn state_of(v: Seq<(Seq<u8>, Seq<Op>)>, msgid: Seq<u8>) -> Seq<Op> {
    v[choose|i: int| 0 <= i < v.len() && v[i].0 == msgid].1
}

impl<F: Spongos> LinkStore<F> {
    pub open spec fn view(&self) -> Seq<(Seq<u8>, Seq<Op>)> {
        link_views(self.entries@)
    }

    /// Each message identifier appears once.
    pub open spec fn wf(&self) -> bool {
        forall|i: int, j: int|
            0 <= i < self.view().len() && 0 <= j < self.view().len() && self.view()[i].0 == self.view()[j].0
                ==> i == j
    }

    pub fn new() -> (r: Self)
        ensures
            r.wf(),
            r.view() == Seq::<(Seq<u8>, Seq<Op>)>::empty(),
    {
        let r = LinkStore { entries: Vec::new() };
        assert(r.view() =~= Seq::<(Seq<u8>, Seq<Op>)>::empty());
        r
    }

    pub fn len(&self) -> (r: usize)
        ensures
            r == self.view().len(),
    {
        self.entries.len()
    }

    fn position(&self, msgid: &[u8]) -> (r: Option<usize>)
        requires
            self.wf(),
        ensures
            match r {
                Some(i) => i < self.view().len() && self.view()[i as int].0 == msgid@ && state_of(
                    self.view(),
                    msgid@,
                ) == self.view()[i as int].1,
                None => !has_link(self.view(), msgid@),
            },
    {
        let ghost v = self.view();
        let mut i: usize = 0;
        while i < self.entries.len()
            invariant
                i <= self.entries@.len(),
                v == self.view(),
                self.wf(),
                forall|k: int| 0 <= k < i ==> v[k].0 != msgid@,
            decreases self.entries@.len() - i,
        {
            if bytes_eq(self.entries[i].0.as_slice(), msgid) {
                assert(v[i as int].0 == msgid@);
                let ghost c = choose|k: int| 0 <= k < v.len() && v[k].0 == msgid@;
                assert(v[c].0 == msgid@);
                return Some(i);
            }
            i = i + 1;
        }
        None
    }

    pub fn contains(&self, msgid: &[u8]) -> (r: bool)
        requires
            self.wf(),
        ensures
            r == has_link(self.view(), msgid@),
    {
        self.position(msgid).is_some()
    }

    /// A fork of the committed state of `msgid`.
    pub fn lookup(&self, msgid: &[u8]) -> (r: Option<F>)
        requires
            self.wf(),
        ensures
            match r {
                Some(s) => has_link(self.view(), msgid@) && s.history() == state_of(self.view(), msgid@),
                None => !has_link(self.view(), msgid@),
            },
    {
        match self.position(msgid) {
            Some(i) => Some(self.entries[i].1.fork()),
            None => None,
        }
    }

    /// Records the committed state of a message not yet known.
    pub fn insert(&mut self, msgid: Vec<u8>, state: F)
        requires
            old(self).wf(),
            !has_link(old(self).view(), msgid@),
        ensures
            final(self).wf(),
            final(self).view() == old(self).view().push((msgid@, state.history())),
    {
        let ghost v = self.view();
        let ghost e = (msgid@, state.history());
        self.entries.push((msgid, state));
        assert(self.view() =~= v.push(e));
        assert forall|i: int, j: int|
            0 <= i < self.view().len() && 0 <= j < self.view().len() && self.view()[i].0 == self.view()[j].0
                implies i == j by {
            if i < v.len() && j == v.len() {
                assert(v[i].0 == e.0);
            }
            if j < v.len() && i == v.len() {
                assert(v[j].0 == e.0);
            }
        }
    }
}

} // verus!
