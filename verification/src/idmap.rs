//! An ordered map from identifiers to values.

use crate::ident::Uuid;
use vstd::prelude::*;

verus! {

/// A map keyed by identifiers that hands its entries out in ascending order of
/// identifier.
#[derive(Debug, Clone)]
pub struct IdMap<T> {
    entries: Vec<(Uuid, T)>,
}

spec fn has_key<T>(entries: Seq<(Uuid, T)>, id: Uuid) -> bool {
    exists|i: int| 0 <= i < entries.len() && (#[trigger] entries[i]).0 == id
}

spec fn key_index<T>(entries: Seq<(Uuid, T)>, id: Uuid) -> int {
    choose|i: int| 0 <= i < entries.len() && (#[trigger] entries[i]).0 == id
}

spec fn sorted<T>(entries: Seq<(Uuid, T)>) -> bool {
    forall|i: int, j: int|
        0 <= i < j < entries.len() ==> (#[trigger] entries[i]).0.value < (
        #[trigger] entries[j]).0.value
}

impl<T> View for IdMap<T> {
    type V = Map<Uuid, T>;

    closed spec fn view(&self) -> Map<Uuid, T> {
        Map::new(
            |id: Uuid| has_key(self.entries@, id),
            |id: Uuid| self.entries@[key_index(self.entries@, id)].1,
        )
    }
}

impl<T> IdMap<T> {
    /// Every identifier occurs once, and they ascend.
    pub closed spec fn wf(&self) -> bool {
        sorted(self.entries@)
    }

    /// The identifiers in the order in which entries are handed out.
    pub closed spec fn ids(&self) -> Seq<Uuid> {
        self.entries@.map_values(|entry: (Uuid, T)| entry.0)
    }

    /// The identifiers ascend and are exactly the keys of the map.
    pub proof fn lemma_ids(&self)
        requires
            self.wf(),
        ensures
            forall|i: int, j: int|
                0 <= i < j < self.ids().len() ==> (#[trigger] self.ids()[i]).value < (
                #[trigger] self.ids()[j]).value,
            forall|id: Uuid| #[trigger] self@.dom().contains(id) <==> self.ids().contains(id),
    {
        assert forall|id: Uuid| #[trigger] self@.dom().contains(id) implies self.ids().contains(
            id,
        ) by {
            let i = key_index(self.entries@, id);
            assert(self.ids()[i] == id);
        }
        assert forall|id: Uuid| self.ids().contains(id) implies #[trigger] self@.dom().contains(
            id,
        ) by {
            let i = choose|i: int| 0 <= i < self.ids().len() && self.ids()[i] == id;
            assert(self.entries@[i].0 == id);
        }
    }

    /// A map that is not empty has a first entry.
    pub proof fn lemma_occupied(&self)
        requires
            self.wf(),
            self@ != Map::<Uuid, T>::empty(),
        ensures
            self.ids().len() > 0,
    {
        if self.ids().len() == 0 {
            assert(self@ =~= Map::<Uuid, T>::empty());
        }
    }

    proof fn lemma_entry(&self, i: int)
        requires
            self.wf(),
            0 <= i < self.entries@.len(),
        ensures
            self@.dom().contains(self.entries@[i].0),
            self@[self.entries@[i].0] == self.entries@[i].1,
    {
        let id = self.entries@[i].0;
        let k = key_index(self.entries@, id);
        assert(has_key(self.entries@, id));
        assert(0 <= k < self.entries@.len() && self.entries@[k].0 == id);
        assert(k == i);
    }

    proof fn lemma_update(&self, at: int)
        requires
            self.wf(),
            0 <= at < self.entries@.len(),
        ensures
            forall|other: IdMap<T>, value: T|
                other.entries@ == #[trigger] self.entries@.update(
                    at,
                    (self.entries@[at].0, value),
                ) ==> {
                    &&& #[trigger] other.wf()
                    &&& other@ == self@.insert(self.entries@[at].0, value)
                    &&& other.ids() == self.ids()
                },
    {
        let id = self.entries@[at].0;
        assert forall|other: IdMap<T>, value: T|
            other.entries@ == #[trigger] self.entries@.update(at, (id, value)) implies {
            &&& #[trigger] other.wf()
            &&& other@ == self@.insert(id, value)
            &&& other.ids() == self.ids()
        } by {
            assert forall|key: Uuid| #[trigger]
                other@.dom().contains(key) == self@.insert(id, value).dom().contains(key) by {
                if has_key(self.entries@, key) {
                    assert(other.entries@[key_index(self.entries@, key)].0 == key);
                }
                if has_key(other.entries@, key) {
                    assert(self.entries@[key_index(other.entries@, key)].0 == key);
                }
                if key == id {
                    assert(other.entries@[at].0 == id);
                }
            }
            assert forall|key: Uuid| #[trigger] other@.dom().contains(key) implies other@[key]
                == self@.insert(id, value)[key] by {
                let i = key_index(other.entries@, key);
                other.lemma_entry(i);
                self.lemma_entry(i);
            }
            assert(other@ =~= self@.insert(id, value));
            assert(other.ids() =~= self.ids());
        }
    }

    /// The empty map.
    pub fn new() -> (map: IdMap<T>)
        ensures
            map.wf(),
            map@ == Map::<Uuid, T>::empty(),
            map.ids() == Seq::<Uuid>::empty(),
    {
        let map = IdMap { entries: Vec::new() };
        assert(map@ =~= Map::<Uuid, T>::empty());
        assert(map.ids() =~= Seq::<Uuid>::empty());
        map
    }

    /// How many entries there are.
    pub fn len(&self) -> (len: usize)
        ensures
            len == self.ids().len(),
    {
        self.entries.len()
    }

    /// The position of the first entry whose identifier is not below `id`.
    fn lower_bound(&self, id: Uuid) -> (at: usize)
        requires
            self.wf(),
        ensures
            at <= self.entries@.len(),
            forall|i: int| 0 <= i < at ==> (#[trigger] self.entries@[i]).0.value < id.value,
            at < self.entries@.len() ==> id.value <= self.entries@[at as int].0.value,
    {
        let mut at: usize = 0;
        while at < self.entries.len() && self.entries[at].0.value < id.value
            invariant
                at <= self.entries@.len(),
                forall|i: int| 0 <= i < at ==> (#[trigger] self.entries@[i]).0.value < id.value,
            decreases self.entries@.len() - at,
        {
            at += 1;
        }
        at
    }

    /// Looks an identifier up.
    pub fn get(&self, id: Uuid) -> (value: Option<&T>)
        requires
            self.wf(),
        ensures
            match value {
                Some(value) => self@.dom().contains(id) && self@[id] == *value,
                None => !self@.dom().contains(id),
            },
    {
        let at = self.lower_bound(id);
        if at < self.entries.len() && self.entries[at].0.value == id.value {
            proof {
                self.lemma_entry(at as int);
            }
            Some(&self.entries[at].1)
        } else {
            proof {
                if has_key(self.entries@, id) {
                    let i = key_index(self.entries@, id);
                    assert(self.entries@[i].0 == id);
                    assert(i >= at);
                    assert(self.entries@[at as int].0.value <= self.entries@[i].0.value);
                }
            }
            None
        }
    }

    /// Whether an identifier is present.
    pub fn contains(&self, id: Uuid) -> (present: bool)
        requires
            self.wf(),
        ensures
            present == self@.dom().contains(id),
    {
        self.get(id).is_some()
    }

    /// Whether there is no entry.
    pub fn is_empty(&self) -> (empty: bool)
        requires
            self.wf(),
        ensures
            empty == (self@ == Map::<Uuid, T>::empty()),
    {
        let empty = self.entries.len() == 0;
        proof {
            if empty {
                assert(self@ =~= Map::<Uuid, T>::empty());
            } else {
                self.lemma_entry(0);
                assert(!Map::<Uuid, T>::empty().dom().contains(self.entries@[0].0));
            }
        }
        empty
    }

    /// The entry at a position in the ascending order.
    pub fn entry(&self, i: usize) -> (entry: (Uuid, &T))
        requires
            self.wf(),
            i < self.ids().len(),
        ensures
            entry.0 == self.ids()[i as int],
            self@.dom().contains(entry.0),
            *entry.1 == self@[entry.0],
    {
        proof {
            self.lemma_entry(i as int);
        }
        (self.entries[i].0, &self.entries[i].1)
    }

    /// Stores a value under an identifier, in place of an earlier one.
    pub fn insert(&mut self, id: Uuid, value: T)
        requires
            old(self).wf(),
        ensures
            final(self).wf(),
            final(self)@ == old(self)@.insert(id, value),
    {
        let at = self.lower_bound(id);
        let ghost before = *self;
        if at < self.entries.len() && self.entries[at].0.value == id.value {
            self.entries.set(at, (id, value));
            assert(self.entries@ =~= before.entries@.update(at as int, (id, value)));
        } else {
            self.entries.insert(at, (id, value));
            assert(self.entries@ =~= before.entries@.insert(at as int, (id, value)));
            assert(forall|i: int|
                at < i < self.entries@.len() ==> (#[trigger] self.entries@[i])
                    == before.entries@[i - 1]);
            assert(forall|i: int|
                at <= i < before.entries@.len() ==> id.value < (
                #[trigger] before.entries@[i]).0.value);
        }
        proof {
            assert(self.wf());
            self.lemma_entry(at as int);
            assert forall|key: Uuid| #[trigger]
                self@.dom().contains(key) == before@.insert(id, value).dom().contains(key) by {
                if key != id {
                    if has_key(before.entries@, key) {
                        let i = key_index(before.entries@, key);
                        if before.entries@.len() == self.entries@.len() || i < at {
                            assert(self.entries@[i].0 == key);
                        } else {
                            assert(self.entries@[i + 1].0 == key);
                        }
                    }
                    if has_key(self.entries@, key) {
                        let i = key_index(self.entries@, key);
                        if before.entries@.len() == self.entries@.len() || i < at {
                            assert(before.entries@[i].0 == key);
                        } else {
                            assert(before.entries@[i - 1].0 == key);
                        }
                    }
                }
            }
            assert forall|key: Uuid| #[trigger] self@.dom().contains(key) implies self@[key]
                == before@.insert(id, value)[key] by {
                if key != id {
                    let i = key_index(self.entries@, key);
                    self.lemma_entry(i);
                    if before.entries@.len() == self.entries@.len() || i < at {
                        before.lemma_entry(i);
                    } else {
                        before.lemma_entry(i - 1);
                    }
                }
            }
            assert(self@ =~= before@.insert(id, value));
        }
    }

    /// Looks an identifier up, to change its value.
    pub fn get_mut(&mut self, id: Uuid) -> (value: Option<&mut T>)
        requires
            old(self).wf(),
        ensures
            final(self).wf(),
            match value {
                Some(value) => {
                    &&& old(self)@.dom().contains(id)
                    &&& *value == old(self)@[id]
                    &&& final(self)@ == old(self)@.insert(id, *final(value))
                    &&& final(self).ids() == old(self).ids()
                },
                None => !old(self)@.dom().contains(id) && *final(self) == *old(self),
            },
    {
        let at = self.lower_bound(id);
        let ghost before = *self;
        if at < self.entries.len() && self.entries[at].0.value == id.value {
            proof {
                before.lemma_entry(at as int);
                before.lemma_update(at as int);
            }
            Some(&mut self.entries[at].1)
        } else {
            proof {
                if has_key(self.entries@, id) {
                    let i = key_index(self.entries@, id);
                    assert(self.entries@[i].0 == id);
                    assert(i >= at);
                    assert(self.entries@[at as int].0.value <= self.entries@[i].0.value);
                }
            }
            None
        }
    }

    /// Takes the value under an identifier out of the map.
    pub fn remove(&mut self, id: Uuid) -> (value: Option<T>)
        requires
            old(self).wf(),
        ensures
            final(self).wf(),
            final(self)@ == old(self)@.remove(id),
            match value {
                Some(value) => old(self)@.dom().contains(id) && old(self)@[id] == value,
                None => !old(self)@.dom().contains(id),
            },
    {
        let at = self.lower_bound(id);
        let ghost before = *self;
        if at < self.entries.len() && self.entries[at].0.value == id.value {
            proof {
                before.lemma_entry(at as int);
            }
            let (_, value) = self.entries.remove(at);
            proof {
                assert(self.entries@ =~= before.entries@.remove(at as int));
                assert(self.wf());
                assert forall|key: Uuid| #[trigger]
                    self@.dom().contains(key) == before@.remove(id).dom().contains(key) by {
                    if has_key(before.entries@, key) && key != id {
                        let i = key_index(before.entries@, key);
                        if i < at {
                            assert(self.entries@[i].0 == key);
                        } else {
                            assert(self.entries@[i - 1].0 == key);
                        }
                    }
                    if has_key(self.entries@, key) {
                        let i = key_index(self.entries@, key);
                        if i < at {
                            assert(before.entries@[i].0 == key);
                        } else {
                            assert(before.entries@[i + 1].0 == key);
                        }
                    }
                }
                assert forall|key: Uuid| #[trigger] self@.dom().contains(key) implies self@[key]
                    == before@.remove(id)[key] by {
                    let i = key_index(self.entries@, key);
                    self.lemma_entry(i);
                    if i < at {
                        before.lemma_entry(i);
                    } else {
                        before.lemma_entry(i + 1);
                    }
                }
                assert(self@ =~= before@.remove(id));
            }
            Some(value)
        } else {
            proof {
                if has_key(self.entries@, id) {
                    let i = key_index(self.entries@, id);
                    assert(self.entries@[i].0 == id);
                    assert(i >= at);
                    assert(self.entries@[at as int].0.value <= self.entries@[i].0.value);
                }
                assert(before@.remove(id) =~= before@);
            }
            None
        }
    }
}

impl<T: Copy> IdMap<T> {
    /// The same map once more.
    pub fn copied(&self) -> (map: IdMap<T>)
        requires
            self.wf(),
        ensures
            map.wf(),
            map@ == self@,
            map.ids() == self.ids(),
    {
        let mut entries: Vec<(Uuid, T)> = Vec::new();
        let mut i: usize = 0;
        while i < self.entries.len()
            invariant
                i <= self.entries@.len(),
                entries@ == self.entries@.take(i as int),
            decreases self.entries@.len() - i,
        {
            entries.push((self.entries[i].0, self.entries[i].1));
            assert(entries@ =~= self.entries@.take(i + 1));
            i += 1;
        }
        assert(entries@ =~= self.entries@);
        IdMap { entries }
    }
}

/// What was inserted under an identifier is found there, until it is removed; what stands under
/// others stays.
pub proof fn law_entries_are_found_under_their_identifiers<T>(
    inserting: &mut IdMap<T>,
    removing: &mut IdMap<T>,
    id: Uuid,
    value: T,
    other: Uuid,
    inserted: &IdMap<T>,
    found: Option<&T>,
    found_other: Option<&T>,
    before: &IdMap<T>,
    had_other: Option<&T>,
    removed: Option<T>,
    after: &IdMap<T>,
    gone: bool,
    still: Option<&T>,
)
    requires
        old(inserting).wf(),
        *before == *old(inserting),
        other != id,
        call_ensures(IdMap::<T>::get, (before, other), had_other),
        call_ensures(IdMap::<T>::insert, (inserting, id, value), ()),
        *inserted == *final(inserting),
        call_ensures(IdMap::<T>::get, (inserted, id), found),
        call_ensures(IdMap::<T>::get, (inserted, other), found_other),
        *old(removing) == *final(inserting),
        call_ensures(IdMap::<T>::remove, (removing, id), removed),
        *after == *final(removing),
        call_ensures(IdMap::<T>::contains, (after, id), gone),
        call_ensures(IdMap::<T>::get, (after, other), still),
    ensures
        found is Some,
        *found->Some_0 == value,
        found_other is Some == had_other is Some,
        had_other is Some ==> *found_other->Some_0 == *had_other->Some_0,
        removed == Some(value),
        !gone,
        still is Some == had_other is Some,
        had_other is Some ==> *still->Some_0 == *had_other->Some_0,
{
}

} // verus!
