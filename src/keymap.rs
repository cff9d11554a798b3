//! An associative container with unique keys, modelled as a `Map` of views.

use vstd::prelude::*;

verus! {

/// A key type whose run-time equality agrees with equality of its view.
pub trait MapKey: View + Sized {
    fn same_key(&self, other: &Self) -> (r: bool)
        ensures
            r == (self@ == other@),
    ;
}

impl MapKey for String {
    fn same_key(&self, other: &Self) -> (r: bool) {
        *self == *other
    }
}

/// `entries` has pairwise distinct keys and holds exactly the pairs of `model`.
spec fn represents<K: View, V: View>(entries: Seq<(K, V)>, model: Map<K::V, V::V>) -> bool {
    &&& forall|i: int, j: int|
        0 <= i < j < entries.len() ==> #[trigger] entries[i].0@ != #[trigger] entries[j].0@
    &&& forall|i: int|
        0 <= i < entries.len() ==> {
            let e = #[trigger] entries[i];
            model.contains_key(e.0@) && model[e.0@] == e.1@
        }
    &&& forall|k: K::V| #[trigger]
        model.contains_key(k) ==> exists|i: int| 0 <= i < entries.len() && #[trigger] entries[i].0@ == k
}

/// A map held as a vector of entries whose keys are pairwise distinct.
/// Lookups go by key; the order of the entries carries no meaning.
pub struct KeyMap<K: View, V: View> {
    entries: Vec<(K, V)>,
    model: Ghost<Map<K::V, V::V>>,
}

impl<K: View, V: View> View for KeyMap<K, V> {
    type V = Map<K::V, V::V>;

    closed spec fn view(&self) -> Map<K::V, V::V> {
        self.model@
    }
}

impl<K: View, V: View> KeyMap<K, V> {
    #[verifier::type_invariant]
    spec fn inv(self) -> bool {
        represents(self.entries@, self.model@)
    }

    /// The number of entries; it shrinks by one with each `pop_entry`.
    pub closed spec fn size(&self) -> nat {
        self.entries@.len()
    }
}

impl<K: MapKey, V: View> KeyMap<K, V> {
    pub fn new() -> (m: Self)
        ensures
            m@ == Map::<K::V, V::V>::empty(),
            m.size() == 0,
    {
        KeyMap { entries: Vec::new(), model: Ghost(Map::empty()) }
    }

    fn find(&self, k: &K) -> (r: Option<usize>)
        ensures
            match r {
                Some(i) => i < self.entries@.len() && self.entries@[i as int].0@ == k@,
                None => !self@.contains_key(k@),
            },
    {
        proof {
            use_type_invariant(self);
        }
        let mut i: usize = 0;
        while i < self.entries.len()
            invariant
                i <= self.entries@.len(),
                forall|j: int| 0 <= j < i ==> #[trigger] self.entries@[j].0@ != k@,
            decreases self.entries@.len() - i,
        {
            if self.entries[i].0.same_key(k) {
                return Some(i);
            }
            i = i + 1;
        }
        None
    }

    pub fn contains_key(&self, k: &K) -> (r: bool)
        ensures
            r == self@.contains_key(k@),
    {
        proof {
            use_type_invariant(self);
        }
        match self.find(k) {
            Some(i) => {
                assert(self.entries@[i as int].0@ == k@);
                true
            },
            None => false,
        }
    }

    pub fn get(&self, k: &K) -> (r: Option<&V>)
        ensures
            r.is_some() == self@.contains_key(k@),
            r.is_some() ==> r.unwrap()@ == self@[k@],
    {
        proof {
            use_type_invariant(self);
        }
        match self.find(k) {
            Some(i) => {
                assert(self.entries@[i as int].0@ == k@);
                Some(&self.entries[i].1)
            },
            None => None,
        }
    }

    /// Adds `k` with value `v`, replacing the value that `k` had, if any.
    pub fn insert(&mut self, k: K, v: V)
        ensures
            final(self)@ == old(self)@.insert(k@, v@),
    {
        let mut taken = KeyMap::new();
        std::mem::swap(self, &mut taken);
        proof {
            use_type_invariant(&taken);
        }
        let found = taken.find(&k);
        let KeyMap { mut entries, model } = taken;
        let ghost old_entries = entries@;
        let ghost new_model = model@.insert(k@, v@);
        match found {
            Some(i) => {
                entries.set(i, (k, v));
                assert forall|a: int, b: int| 0 <= a < b < entries@.len() implies #[trigger] entries@[a].0@
                    != #[trigger] entries@[b].0@ by {
                    assert(old_entries[a].0@ != old_entries[b].0@);
                }
                assert forall|j: int| 0 <= j < entries@.len() implies {
                    let x = #[trigger] entries@[j];
                    new_model.contains_key(x.0@) && new_model[x.0@] == x.1@
                } by {
                    if j < i {
                        assert(old_entries[j].0@ != old_entries[i as int].0@);
                    } else if j > i {
                        assert(old_entries[i as int].0@ != old_entries[j].0@);
                    }
                }
                assert forall|kk: K::V| #[trigger] new_model.contains_key(kk) implies exists|j: int|
                    0 <= j < entries@.len() && #[trigger] entries@[j].0@ == kk by {
                    if kk != entries@[i as int].0@ {
                        let j = choose|j: int| 0 <= j < old_entries.len() && #[trigger] old_entries[j].0@ == kk;
                        assert(entries@[j] == old_entries[j]);
                    }
                }
            },
            None => {
                entries.push((k, v));
                assert forall|a: int, b: int| 0 <= a < b < entries@.len() implies #[trigger] entries@[a].0@
                    != #[trigger] entries@[b].0@ by {
                    if b < old_entries.len() {
                        assert(old_entries[a].0@ != old_entries[b].0@);
                    } else {
                        assert(model@.contains_key(old_entries[a].0@));
                    }
                }
                assert forall|j: int| 0 <= j < entries@.len() implies {
                    let x = #[trigger] entries@[j];
                    new_model.contains_key(x.0@) && new_model[x.0@] == x.1@
                } by {
                    if j < old_entries.len() {
                        assert(entries@[j] == old_entries[j]);
                        assert(model@.contains_key(old_entries[j].0@));
                    }
                }
                assert forall|kk: K::V| #[trigger] new_model.contains_key(kk) implies exists|j: int|
                    0 <= j < entries@.len() && #[trigger] entries@[j].0@ == kk by {
                    if kk != entries@.last().0@ {
                        let j = choose|j: int| 0 <= j < old_entries.len() && #[trigger] old_entries[j].0@ == kk;
                        assert(entries@[j] == old_entries[j]);
                    } else {
                        assert(entries@[entries@.len() - 1].0@ == kk);
                    }
                }
            },
        }
        assert(represents(entries@, new_model));
        *self = KeyMap { entries, model: Ghost(new_model) };
    }

    /// Takes the entry of `k` out of the map, if there is one.
    pub fn remove(&mut self, k: &K) -> (r: Option<V>)
        ensures
            r.is_some() == old(self)@.contains_key(k@),
            r.is_some() ==> r.unwrap()@ == old(self)@[k@],
            final(self)@ == old(self)@.remove(k@),
            r.is_some() ==> final(self).size() + 1 == old(self).size(),
    {
        let mut taken = KeyMap::new();
        std::mem::swap(self, &mut taken);
        proof {
            use_type_invariant(&taken);
        }
        match taken.find(k) {
            Some(i) => {
                *self = taken;
                let (_, v) = self.take_at(i);
                Some(v)
            },
            None => {
                proof {
                    assert(taken.model@.remove(k@) =~= taken.model@);
                }
                *self = taken;
                None
            },
        }
    }

    /// Takes some entry out of the map, or returns `None` when it is empty.
    pub fn pop_entry(&mut self) -> (r: Option<(K, V)>)
        ensures
            r.is_none() ==> old(self)@ == Map::<K::V, V::V>::empty() && final(self)@ == old(self)@,
            r.is_some() ==> {
                let (k, v) = r.unwrap();
                &&& old(self)@.contains_key(k@)
                &&& old(self)@[k@] == v@
                &&& final(self)@ == old(self)@.remove(k@)
                &&& final(self).size() + 1 == old(self).size()
            },
    {
        if self.is_empty() {
            None
        } else {
            proof {
                use_type_invariant(&*self);
            }
            let n = self.entries.len();
            Some(self.take_at(n - 1))
        }
    }

    fn take_at(&mut self, i: usize) -> (r: (K, V))
        requires
            i < old(self).entries@.len(),
        ensures
            r == old(self).entries@[i as int],
            old(self)@.contains_key(r.0@),
            old(self)@[r.0@] == r.1@,
            final(self)@ == old(self)@.remove(r.0@),
            final(self).size() + 1 == old(self).size(),
    {
        let mut taken = KeyMap::new();
        std::mem::swap(self, &mut taken);
        proof {
            use_type_invariant(&taken);
        }
        let KeyMap { mut entries, model } = taken;
        let ghost old_entries = entries@;
        let ghost n = old_entries.len();
        let e = entries.swap_remove(i);
        let ghost new_model = model@.remove(e.0@);
        proof {
            assert(old_entries[i as int] == e);
            assert forall|j: int| 0 <= j < entries@.len() implies #[trigger] entries@[j] == if j
                == i {
                old_entries[n - 1]
            } else {
                old_entries[j]
            } by {}
            assert forall|a: int, b: int| 0 <= a < b < entries@.len() implies #[trigger] entries@[a].0@
                != #[trigger] entries@[b].0@ by {
                let oa = if a == i { n - 1 } else { a };
                let ob = if b == i { n - 1 } else { b };
                assert(entries@[a] == old_entries[oa]);
                assert(entries@[b] == old_entries[ob]);
                if oa < ob {
                    assert(old_entries[oa].0@ != old_entries[ob].0@);
                } else {
                    assert(old_entries[ob].0@ != old_entries[oa].0@);
                }
            }
            assert forall|j: int| 0 <= j < entries@.len() implies {
                let x = #[trigger] entries@[j];
                new_model.contains_key(x.0@) && new_model[x.0@] == x.1@
            } by {
                let oj = if j == i { n - 1 } else { j };
                assert(entries@[j] == old_entries[oj]);
                if oj < i {
                    assert(old_entries[oj].0@ != old_entries[i as int].0@);
                } else {
                    assert(old_entries[i as int].0@ != old_entries[oj].0@);
                }
                assert(model@.contains_key(old_entries[oj].0@));
            }
            assert forall|kk: K::V| #[trigger] new_model.contains_key(kk) implies exists|j: int|
                0 <= j < entries@.len() && #[trigger] entries@[j].0@ == kk by {
                assert(model@.contains_key(kk));
                let oj = choose|j: int| 0 <= j < n && #[trigger] old_entries[j].0@ == kk;
                assert(oj != i);
                if oj == n - 1 {
                    assert(entries@[i as int] == old_entries[oj]);
                } else {
                    assert(entries@[oj] == old_entries[oj]);
                }
            }
        }
        assert(represents(entries@, new_model));
        *self = KeyMap { entries, model: Ghost(new_model) };
        e
    }

    pub fn is_empty(&self) -> (r: bool)
        ensures
            r == (self@ == Map::<K::V, V::V>::empty()),
            r == (self.size() == 0),
    {
        proof {
            use_type_invariant(self);
            if self.entries@.len() > 0 {
                assert(self@.contains_key(self.entries@[0].0@));
            } else {
                assert(self@ =~= Map::<K::V, V::V>::empty());
            }
        }
        self.entries.len() == 0
    }
}

} // verus!
