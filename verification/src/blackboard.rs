//! A process-scoped, type-keyed heterogeneous store used to pass cross-cutting
//! context between independently declared passes.
//!
//! Each stored value is keyed by a type identifier (a `u64` chosen by the
//! caller, one per concrete type); at most one live value exists per key, and
//! inserting a value for an already present key replaces the old one.  The
//! store is modelled as a `Map<u64, V>`, where `V` is the common interface the
//! caller chooses for its values (typically a tagged union over the shared
//! context types).

use vstd::prelude::*;

verus! {

/// Type-keyed store: at most one value per key; insertion replaces.
pub struct BlackBoard<V> {
    entries: Vec<(u64, V)>,
}

impl<V> View for BlackBoard<V> {
    type V = Map<u64, V>;

    closed spec fn view(&self) -> Map<u64, V> {
        BlackBoard::<V>::map_of(self.entries@)
    }
}

impl<V> BlackBoard<V> {
    /// The map an association list denotes: later entries win.
    pub closed spec fn map_of(s: Seq<(u64, V)>) -> Map<u64, V>
        decreases s.len(),
    {
        if s.len() == 0 {
            Map::empty()
        } else {
            Self::map_of(s.drop_last()).insert(s.last().0, s.last().1)
        }
    }

    spec fn keys_unique(s: Seq<(u64, V)>) -> bool {
        forall|i: int, j: int| 0 <= i < j < s.len() ==> (#[trigger] s[i]).0 != (#[trigger] s[j]).0
    }

    /// Well-formedness: no two entries share a key.  Established by `new`
    /// and preserved by every method.
    pub closed spec fn inv(&self) -> bool {
        Self::keys_unique(self.entries@)
    }

    /// With distinct keys, the denoted map holds exactly the listed pairs.
    proof fn lemma_map_of(s: Seq<(u64, V)>)
        requires
            Self::keys_unique(s),
        ensures
            forall|i: int| 0 <= i < s.len() ==> Self::map_of(s).contains_key((#[trigger] s[i]).0),
            forall|i: int|
                0 <= i < s.len() ==> Self::map_of(s)[(#[trigger] s[i]).0] == s[i].1,
            forall|k: u64|
                Self::map_of(s).contains_key(k) ==> exists|i: int| 0 <= i < s.len() && (#[trigger] s[i]).0 == k,
        decreases s.len(),
    {
        if s.len() > 0 {
            Self::lemma_map_of(s.drop_last());
            assert forall|i: int| 0 <= i < s.len() implies Self::map_of(s).contains_key(
                (#[trigger] s[i]).0,
            ) && Self::map_of(s)[s[i].0] == s[i].1 by {
                if i < s.len() - 1 {
                    assert(s.drop_last()[i] == s[i]);
                    assert(s[i].0 != s.last().0);
                }
            }
            assert forall|k: u64| Self::map_of(s).contains_key(k) implies exists|i: int|
                0 <= i < s.len() && (#[trigger] s[i]).0 == k by {
                if k != s.last().0 {
                    assert(Self::map_of(s.drop_last()).contains_key(k));
                    let i = choose|i: int|
                        0 <= i < s.drop_last().len() && (#[trigger] s.drop_last()[i]).0 == k;
                    assert(s[i] == s.drop_last()[i]);
                } else {
                    assert(s[s.len() - 1].0 == k);
                }
            }
        }
    }

    /// Replacing the value at a position whose key stays put denotes `insert`.
    proof fn lemma_map_of_update(s: Seq<(u64, V)>, i: int, v: V)
        requires
            Self::keys_unique(s),
            0 <= i < s.len(),
        ensures
            Self::map_of(s.update(i, (s[i].0, v))) == Self::map_of(s).insert(s[i].0, v),
        decreases s.len(),
    {
        let t = s.update(i, (s[i].0, v));
        if i == s.len() - 1 {
            assert(t.drop_last() =~= s.drop_last());
            assert(Self::map_of(t) == Self::map_of(s.drop_last()).insert(s[i].0, v));
            assert(Self::map_of(s).insert(s[i].0, v) == Self::map_of(s.drop_last()).insert(
                s.last().0,
                s.last().1,
            ).insert(s[i].0, v));
            assert(Self::map_of(s.drop_last()).insert(s[i].0, v) =~= Self::map_of(
                s.drop_last(),
            ).insert(s.last().0, s.last().1).insert(s[i].0, v));
        } else {
            assert(t.drop_last() =~= s.drop_last().update(i, (s[i].0, v)));
            assert(s.drop_last()[i] == s[i]);
            Self::lemma_map_of_update(s.drop_last(), i, v);
            assert(t.last() == s.last());
            assert(Self::map_of(t) == Self::map_of(s.drop_last()).insert(s[i].0, v).insert(
                s.last().0,
                s.last().1,
            ));
            assert(s[i].0 != s.last().0);
            assert(Self::map_of(s.drop_last()).insert(s[i].0, v).insert(s.last().0, s.last().1)
                =~= Self::map_of(s.drop_last()).insert(s.last().0, s.last().1).insert(s[i].0, v));
        }
    }

    pub fn new() -> (board: Self)
        ensures
            board.inv(),
            board@ == Map::<u64, V>::empty(),
    {
        BlackBoard { entries: Vec::new() }
    }

    /// Index of the entry holding `key`, if any.
    fn find(&self, key: u64) -> (r: Option<usize>)
        ensures
            match r {
                Some(i) => i < self.entries@.len() && self.entries@[i as int].0 == key,
                None => forall|i: int|
                    0 <= i < self.entries@.len() ==> (#[trigger] self.entries@[i]).0 != key,
            },
    {
        let mut i: usize = 0;
        while i < self.entries.len()
            invariant
                i <= self.entries@.len(),
                forall|j: int| 0 <= j < i ==> (#[trigger] self.entries@[j]).0 != key,
            decreases self.entries@.len() - i,
        {
            if self.entries[i].0 == key {
                return Some(i);
            }
            i = i + 1;
        }
        None
    }

    /// Store or replace the single value under `key`; the returned reference
    /// addresses the stored value and is usable for further mutation.
    pub fn add(&mut self, key: u64, value: V) -> (r: &mut V)
        requires
            old(self).inv(),
        ensures
            final(self).inv(),
            *r == value,
            final(self)@ == old(self)@.insert(key, *final(r)),
    {
        proof {
            Self::lemma_map_of(self.entries@);
        }
        let ghost s0 = self.entries@;
        match self.find(key) {
            Some(i) => {
                proof {
                    assert forall|v: V|
                        Self::map_of(s0.update(i as int, (key, v))) == #[trigger] Self::map_of(
                            s0,
                        ).insert(key, v) && Self::keys_unique(s0.update(i as int, (key, v))) by {
                        Self::lemma_map_of_update(s0, i as int, v);
                    }
                }
                let slot = &mut self.entries[i];
                slot.1 = value;
                &mut slot.1
            },
            None => {
                self.entries.push((key, value));
                proof {
                    assert forall|v: V|
                        Self::map_of(s0.push((key, v))) == #[trigger] Self::map_of(s0).insert(
                            key,
                            v,
                        ) && Self::keys_unique(s0.push((key, v))) by {
                        assert(s0.push((key, v)).drop_last() =~= s0);
                    }
                    assert(self.entries@ == s0.push((key, value)));
                }
                let n = self.entries.len() - 1;
                proof {
                    assert forall|v: V|
                        #[trigger] s0.push((key, value)).update(n as int, (key, v)) =~= s0.push(
                            (key, v),
                        ) by {}
                }
                let slot = &mut self.entries[n];
                &mut slot.1
            },
        }
    }

    /// The stored value for `key`; absence is a programming error, excluded by
    /// the precondition.
    pub fn get(&self, key: u64) -> (r: &V)
        requires
            self.inv(),
            self@.contains_key(key),
        ensures
            *r == self@[key],
    {
        match self.try_get(key) {
            Some(v) => v,
            None => vstd::pervasive::unreached(),
        }
    }

    /// Mutable access to the stored value for `key`; absence is a programming
    /// error, excluded by the precondition.
    pub fn get_mut(&mut self, key: u64) -> (r: &mut V)
        requires
            old(self).inv(),
            old(self)@.contains_key(key),
        ensures
            final(self).inv(),
            *r == old(self)@[key],
            final(self)@ == old(self)@.insert(key, *final(r)),
    {
        proof {
            Self::lemma_map_of(self.entries@);
        }
        let ghost s0 = self.entries@;
        match self.find(key) {
            Some(i) => {
                proof {
                    assert forall|v: V|
                        Self::map_of(s0.update(i as int, (key, v))) == #[trigger] Self::map_of(
                            s0,
                        ).insert(key, v) && Self::keys_unique(s0.update(i as int, (key, v))) by {
                        Self::lemma_map_of_update(s0, i as int, v);
                    }
                }
                let slot = &mut self.entries[i];
                &mut slot.1
            },
            None => vstd::pervasive::unreached(),
        }
    }

    /// The stored value for `key`, or `None` when no value of that type was
    /// ever added (or it was replaced away).
    pub fn try_get(&self, key: u64) -> (r: Option<&V>)
        requires
            self.inv(),
        ensures
            match r {
                Some(v) => self@.contains_key(key) && *v == self@[key],
                None => !self@.contains_key(key),
            },
    {
        proof {
            Self::lemma_map_of(self.entries@);
        }
        match self.find(key) {
            Some(i) => Some(&self.entries[i].1),
            None => None,
        }
    }

    /// Mutable variant of [`Self::try_get`].
    pub fn try_get_mut(&mut self, key: u64) -> (r: Option<&mut V>)
        requires
            old(self).inv(),
        ensures
            final(self).inv(),
            match r {
                Some(v) => old(self)@.contains_key(key) && *v == old(self)@[key] && final(self)@
                    == old(self)@.insert(key, *final(v)),
                None => !old(self)@.contains_key(key) && final(self)@ == old(self)@,
            },
    {
        proof {
            Self::lemma_map_of(self.entries@);
        }
        let ghost s0 = self.entries@;
        match self.find(key) {
            Some(i) => {
                proof {
                    assert forall|v: V|
                        Self::map_of(s0.update(i as int, (key, v))) == #[trigger] Self::map_of(
                            s0,
                        ).insert(key, v) && Self::keys_unique(s0.update(i as int, (key, v))) by {
                        Self::lemma_map_of_update(s0, i as int, v);
                    }
                }
                let slot = &mut self.entries[i];
                Some(&mut slot.1)
            },
            None => None,
        }
    }

    /// Whether a value is stored under `key`.
    pub fn has(&self, key: u64) -> (b: bool)
        requires
            self.inv(),
        ensures
            b == self@.contains_key(key),
    {
        proof {
            Self::lemma_map_of(self.entries@);
        }
        self.find(key).is_some()
    }
}

} // verus!
