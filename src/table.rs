//! A map from peer identifiers to addresses. The server keeps one as its registry,
//! each peer agent one as its address cache.
use vstd::prelude::*;

use crate::{bytes_eq, Addr, AddrView};

verus! {

/// Identifier to address, at most one address per identifier.
pub struct AddrIndex {
    entries: Vec<(Vec<u8>, Addr)>,
    model: Ghost<Map<Seq<u8>, AddrView>>,
}

impl View for AddrIndex {
    type V = Map<Seq<u8>, AddrView>;

    closed spec fn view(&self) -> Map<Seq<u8>, AddrView> {
        self.model@
    }
}

impl AddrIndex {
    /// The entries stand for the map, one entry per identifier.
    pub closed spec fn wf(&self) -> bool {
        &&& forall|i: int|
            0 <= i < self.entries@.len() ==> #[trigger] self.model@.contains_key(
                self.entries@[i].0@,
            ) && self.model@[self.entries@[i].0@] == self.entries@[i].1@
        &&& forall|k: Seq<u8>|
            #[trigger] self.model@.contains_key(k) ==> exists|i: int|
                0 <= i < self.entries@.len() && #[trigger] self.entries@[i].0@ == k
        &&& forall|i: int, j: int|
            0 <= i < self.entries@.len() && 0 <= j < self.entries@.len()
                && #[trigger] self.entries@[i].0@ == #[trigger] self.entries@[j].0@ ==> i == j
    }

    /// An empty index.
    pub fn new() -> (r: AddrIndex)
        ensures
            r.wf(),
            r@ == Map::<Seq<u8>, AddrView>::empty(),
    {
        AddrIndex { entries: Vec::new(), model: Ghost(Map::empty()) }
    }

    fn find(&self, key: &[u8]) -> (r: Option<usize>)
        requires
            self.wf(),
        ensures
            r matches Some(i) ==> i < self.entries@.len() && self.entries@[i as int].0@ == key@,
            r is None ==> !self@.contains_key(key@),
    {
        let mut i: usize = 0;
        while i < self.entries.len()
            invariant
                self.wf(),
                i <= self.entries@.len(),
                forall|j: int| 0 <= j < i ==> self.entries@[j].0@ != key@,
            decreases self.entries@.len() - i,
        {
            if bytes_eq(self.entries[i].0.as_slice(), key) {
                return Some(i);
            }
            i = i + 1;
        }
        None
    }

    /// The address registered for `key`, if any.
    pub fn get(&self, key: &[u8]) -> (r: Option<Addr>)
        requires
            self.wf(),
        ensures
            r matches Some(a) ==> self@.contains_key(key@) && self@[key@] == a@,
            r is None ==> !self@.contains_key(key@),
    {
        match self.find(key) {
            Some(i) => Some(self.entries[i].1.duplicate()),
            None => None,
        }
    }

    /// Whether an address is registered for `key`.
    pub fn contains_key(&self, key: &[u8]) -> (r: bool)
        requires
            self.wf(),
        ensures
            r == self@.contains_key(key@),
    {
        self.find(key).is_some()
    }

    /// Registers `a` for `key`, replacing what was there.
    pub fn insert(&mut self, key: &[u8], a: Addr)
        requires
            old(self).wf(),
        ensures
            final(self).wf(),
            final(self)@ == old(self)@.insert(key@, a@),
    {
        let ghost a_view = a@;
        let ghost old_entries = self.entries@;
        let mut k: Vec<u8> = Vec::new();
        crate::append_bytes(&mut k, key);
        assert(k@ =~= key@);
        let found = self.find(key);
        self.model = Ghost(self.model@.insert(key@, a_view));
        match found {
            Some(i) => {
                self.entries.set(i, (k, a));
                assert forall|j: int| 0 <= j < self.entries@.len() implies #[trigger] self.model@.contains_key(
                    self.entries@[j].0@,
                ) && self.model@[self.entries@[j].0@] == self.entries@[j].1@ by {
                    if j != i {
                        assert(old_entries[j] == self.entries@[j]);
                        assert(old(self).model@.contains_key(old_entries[j].0@));
                        if old_entries[j].0@ == key@ {
                            assert(old_entries[j].0@ == old_entries[i as int].0@);
                        }
                    } else {
                        assert(self.entries@[j].0@ == key@);
                        assert(self.entries@[j].1@ == a_view);
                    }
                }
                assert forall|j1: int, j2: int|
                    0 <= j1 < self.entries@.len() && 0 <= j2 < self.entries@.len()
                        && #[trigger] self.entries@[j1].0@ == #[trigger] self.entries@[j2].0@ implies j1 == j2 by {
                    assert(old_entries[j1].0@ == self.entries@[j1].0@);
                    assert(old_entries[j2].0@ == self.entries@[j2].0@);
                }
                assert forall|kk: Seq<u8>| #[trigger] self.model@.contains_key(kk) implies exists|
                    j: int,
                | 0 <= j < self.entries@.len() && #[trigger] self.entries@[j].0@ == kk by {
                    if kk == key@ {
                        assert(self.entries@[i as int].0@ == kk);
                    } else {
                        let j = choose|j: int|
                            0 <= j < old_entries.len() && #[trigger] old_entries[j].0@ == kk;
                        assert(self.entries@[j].0@ == kk);
                    }
                }
            },
            None => {
                self.entries.push((k, a));
                assert forall|j: int| 0 <= j < self.entries@.len() implies #[trigger] self.model@.contains_key(
                    self.entries@[j].0@,
                ) && self.model@[self.entries@[j].0@] == self.entries@[j].1@ by {
                    if j < old_entries.len() {
                        assert(old_entries[j] == self.entries@[j]);
                        assert(old(self).model@.contains_key(old_entries[j].0@));
                    }
                }
                assert forall|j1: int, j2: int|
                    0 <= j1 < self.entries@.len() && 0 <= j2 < self.entries@.len()
                        && #[trigger] self.entries@[j1].0@ == #[trigger] self.entries@[j2].0@ implies j1 == j2 by {
                    if j1 < old_entries.len() {
                        assert(old(self).model@.contains_key(old_entries[j1].0@));
                    }
                    if j2 < old_entries.len() {
                        assert(old(self).model@.contains_key(old_entries[j2].0@));
                    }
                }
                let ghost n = old_entries.len() as int;
                assert forall|kk: Seq<u8>| #[trigger] self.model@.contains_key(kk) implies exists|
                    j: int,
                | 0 <= j < self.entries@.len() && #[trigger] self.entries@[j].0@ == kk by {
                    if kk == key@ {
                        assert(self.entries@[n].0@ == kk);
                    } else {
                        let j = choose|j: int|
                            0 <= j < old_entries.len() && #[trigger] old_entries[j].0@ == kk;
                        assert(self.entries@[j].0@ == kk);
                    }
                }
            },
        }
        assert(self.model@ == old(self)@.insert(key@, a@));
    }
}

} // verus!
