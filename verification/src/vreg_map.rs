use vstd::prelude::*;

use crate::types::{VReg, VRegModel};

verus! {

/// A finite map keyed by virtual registers, held as a list of entries in which no
/// register occurs twice.
///
/// A virtual register may hold a `String` (a named register), and its `Eq` and
/// `Hash` are derived. vstd specifies `std::collections::HashMap` only for keys whose
/// hashing and equality it knows: with such a key the map's calls are accepted but
/// nothing is proved of what a lookup returns, not even that one insertion gives a
/// map of length one. So the map is kept here, with distinct keys as its invariant
/// and lookups compared by the keys' views, which makes every read of a written key
/// provable.
pub struct VRegMap<V> {
    entries: Vec<(VReg, V)>,
}

impl<V: Copy> VRegMap<V> {
    /// Whether no register occurs twice among the entries.
    pub closed spec fn wf(&self) -> bool {
        forall|i: int, j: int|
            0 <= i < self.entries.len() && 0 <= j < self.entries.len() && i != j
                ==> (#[trigger] self.entries@[i]).0@ != (#[trigger] self.entries@[j]).0@
    }

    /// The map the entries denote.
    pub closed spec fn view(&self) -> Map<VRegModel, V> {
        Map::new(
            |k: VRegModel| exists|i: int| 0 <= i < self.entries.len() && (#[trigger] self.entries@[i]).0@ == k,
            |k: VRegModel|
                self.entries@[choose|i: int|
                    0 <= i < self.entries.len() && (#[trigger] self.entries@[i]).0@ == k].1,
        )
    }

    /// An empty map.
    pub fn new() -> (m: Self)
        ensures
            m.wf(),
            m.view() == Map::<VRegModel, V>::empty(),
    {
        let m = VRegMap { entries: Vec::new() };
        proof {
            assert(m.view() =~= Map::<VRegModel, V>::empty());
        }
        m
    }

    fn find(&self, k: &VReg) -> (r: Option<usize>)
        requires
            self.wf(),
        ensures
            match r {
                Some(i) => i < self.entries.len() && self.entries@[i as int].0@ == k@,
                None => !self.view().contains_key(k@),
            },
    {
        let mut i: usize = 0;
        while i < self.entries.len()
            invariant
                i <= self.entries.len(),
                forall|j: int| 0 <= j < i ==> (#[trigger] self.entries@[j]).0@ != k@,
            decreases self.entries.len() - i,
        {
            if self.entries[i].0 == *k {
                return Some(i);
            }
            i = i + 1;
        }
        None
    }

    proof fn lemma_at(&self, i: int)
        requires
            self.wf(),
            0 <= i < self.entries.len(),
        ensures
            self.view().contains_key(self.entries@[i].0@),
            self.view()[self.entries@[i].0@] == self.entries@[i].1,
    {
        let k = self.entries@[i].0@;
        assert(self.view().dom().contains(k));
        let c = choose|j: int| 0 <= j < self.entries.len() && (#[trigger] self.entries@[j]).0@ == k;
        assert(c == i);
    }

    /// The value at `k`, if any.
    pub fn get(&self, k: &VReg) -> (r: Option<V>)
        requires
            self.wf(),
        ensures
            r == (if self.view().contains_key(k@) {
                Some(self.view()[k@])
            } else {
                None::<V>
            }),
    {
        match self.find(k) {
            Some(i) => {
                proof {
                    self.lemma_at(i as int);
                }
                Some(self.entries[i].1)
            },
            None => None,
        }
    }

    /// Sets the value at `k` to `v`.
    pub fn insert(&mut self, k: VReg, v: V)
        requires
            old(self).wf(),
        ensures
            final(self).wf(),
            final(self).view() == old(self).view().insert(k@, v),
    {
        let ghost kv = k@;
        match self.find(&k) {
            Some(i) => {
                let ghost prev = self.entries@;
                self.entries.set(i, (k, v));
                proof {
                    assert forall|a: int, b: int|
                        0 <= a < self.entries.len() && 0 <= b < self.entries.len() && a != b implies
                        (#[trigger] self.entries@[a]).0@ != (#[trigger] self.entries@[b]).0@ by {
                        assert(prev[a].0@ != prev[b].0@);
                    }
                    self.lemma_at(i as int);
                    assert forall|q: VRegModel| #[trigger] self.view().contains_key(q) == old(self).view().insert(kv, v).contains_key(q) by {
                        if q != kv {
                            if old(self).view().contains_key(q) {
                                let j = choose|j: int| 0 <= j < prev.len() && (#[trigger] prev[j]).0@ == q;
                                assert(self.entries@[j].0@ == q);
                            }
                            if self.view().contains_key(q) {
                                let j = choose|j: int| 0 <= j < self.entries.len() && (#[trigger] self.entries@[j]).0@ == q;
                                assert(prev[j].0@ == q);
                            }
                        }
                    }
                    assert forall|q: VRegModel| #[trigger] self.view().contains_key(q) implies self.view()[q] == old(self).view().insert(kv, v)[q] by {
                        let j = choose|j: int| 0 <= j < self.entries.len() && (#[trigger] self.entries@[j]).0@ == q;
                        self.lemma_at(j);
                        if q != kv {
                            old(self).lemma_at(j);
                        }
                    }
                    assert(self.view() =~= old(self).view().insert(kv, v));
                }
            },
            None => {
                let ghost prev = self.entries@;
                self.entries.push((k, v));
                proof {
                    let n = prev.len() as int;
                    assert forall|a: int, b: int|
                        0 <= a < self.entries.len() && 0 <= b < self.entries.len() && a != b implies
                        (#[trigger] self.entries@[a]).0@ != (#[trigger] self.entries@[b]).0@ by {
                        if a < n && b < n {
                            assert(prev[a].0@ != prev[b].0@);
                        } else if a < n {
                            assert(old(self).view().contains_key(prev[a].0@));
                        } else if b < n {
                            assert(old(self).view().contains_key(prev[b].0@));
                        }
                    }
                    self.lemma_at(n);
                    assert forall|q: VRegModel| #[trigger] self.view().contains_key(q) == old(self).view().insert(kv, v).contains_key(q) by {
                        if q != kv {
                            if old(self).view().contains_key(q) {
                                let j = choose|j: int| 0 <= j < prev.len() && (#[trigger] prev[j]).0@ == q;
                                assert(self.entries@[j].0@ == q);
                            }
                            if self.view().contains_key(q) {
                                let j = choose|j: int| 0 <= j < self.entries.len() && (#[trigger] self.entries@[j]).0@ == q;
                                assert(prev[j].0@ == q);
                            }
                        }
                    }
                    assert forall|q: VRegModel| #[trigger] self.view().contains_key(q) implies self.view()[q] == old(self).view().insert(kv, v)[q] by {
                        let j = choose|j: int| 0 <= j < self.entries.len() && (#[trigger] self.entries@[j]).0@ == q;
                        self.lemma_at(j);
                        if q != kv {
                            old(self).lemma_at(j);
                        }
                    }
                    assert(self.view() =~= old(self).view().insert(kv, v));
                }
            },
        }
    }
}

} // verus!
