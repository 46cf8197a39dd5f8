//! Keyed storage: one associative container for each kind of element.

use crate::key::{PairKey, SlotKey};
use std::collections::BTreeMap;
use std::marker::PhantomData;
use vstd::prelude::*;
use vstd::std_specs::cmp::OrdSpec;
use vstd::std_specs::iter::IteratorSpec;

verus! {

/// Storage that issues its own keys. A key names the slot that its payload
/// was inserted into, and a slot is never issued twice.
pub struct SlotStorage<K: SlotKey, T> {
    slots: Vec<Option<T>>,
    occupied: usize,
    phantom: PhantomData<K>,
}

impl<K: SlotKey, T> SlotStorage<K, T> {
    /// The count of occupied slots is kept up to date.
    #[verifier::type_invariant]
    spec fn wf(self) -> bool {
        &&& self@.dom().finite()
        &&& self.occupied == self@.dom().len()
        &&& self.occupied <= self.slots@.len()
        &&& self.slots@.len() <= u64::MAX
    }

    /// The payloads in the storage, by key.
    pub closed spec fn view(&self) -> Map<K, T> {
        Map::new(
            |key: K| key.slot() < self.slots@.len() && self.slots@[key.slot() as int] is Some,
            |key: K| self.slots@[key.slot() as int]->0,
        )
    }

    /// The number of slots issued so far, which is the slot of the next key.
    pub closed spec fn issued(&self) -> nat {
        self.slots@.len()
    }

    /// The key that the storage issues next.
    pub closed spec fn next_key(&self) -> K {
        K::at(self.slots@.len() as u64)
    }

    /// The key that the storage issues next is not in use.
    pub proof fn lemma_next_key(&self)
        requires
            self.issued() <= u64::MAX,
        ensures
            !self@.contains_key(self.next_key()),
    {
        K::lemma_slot_of_at(self.slots@.len() as u64);
    }

    /// Every key in the storage names a slot that was issued.
    pub proof fn lemma_keys_issued(&self)
        ensures
            forall|key: K| self@.contains_key(key) ==> key.slot() < self.issued(),
    {
    }

    pub fn new() -> (storage: Self)
        ensures
            storage@ == Map::<K, T>::empty(),
            storage.issued() == 0,
    {
        let slots: Vec<Option<T>> = Vec::new();
        let ghost empty = SlotStorage::<K, T> { slots, occupied: 0, phantom: PhantomData };
        assert(empty@ =~= Map::<K, T>::empty());
        SlotStorage { slots, occupied: 0, phantom: PhantomData }
    }

    /// Takes the storage apart and leaves an empty storage in its place.
    fn take(&mut self) -> (parts: (Vec<Option<T>>, usize))
        ensures
            final(self)@ == Map::<K, T>::empty(),
            final(self).issued() == 0,
            (SlotStorage::<K, T> { slots: parts.0, occupied: parts.1, phantom: PhantomData })
                == *old(self),
            (SlotStorage::<K, T> { slots: parts.0, occupied: parts.1, phantom: PhantomData }).wf(),
    {
        proof {
            use_type_invariant(&*self);
        }
        let mut taken = SlotStorage::new();
        core::mem::swap(self, &mut taken);
        let SlotStorage { slots, occupied, phantom: _ } = taken;
        (slots, occupied)
    }

    /// The storage holds finitely many payloads, within `usize`.
    pub fn bounds(&self)
        ensures
            self@.dom().finite(),
            self@.dom().len() <= usize::MAX,
            self.issued() <= u64::MAX,
    {
        proof {
            use_type_invariant(self);
        }
    }

    /// Stores a payload under a key that was never used before.
    pub fn insert(&mut self, payload: T) -> (key: K)
        ensures
            key.slot() == old(self).issued(),
            !old(self)@.contains_key(key),
            final(self)@ == old(self)@.insert(key, payload),
            final(self).issued() == old(self).issued() + 1,
    {
        let (mut slots, occupied) = self.take();
        let ghost before = SlotStorage::<K, T> { slots, occupied, phantom: PhantomData };
        let slot = slots.len() as u64;
        let key = K::from_slot(slot);
        proof {
            K::lemma_slot_of_at(slot);
        }
        slots.push(Some(payload));
        let issued = slots.len();
        let ghost after = SlotStorage::<K, T> {
            slots,
            occupied: (occupied + 1) as usize,
            phantom: PhantomData,
        };
        proof {
            assert forall|other: K| other.slot() == slot implies other == key by {
                K::lemma_at_of_slot(other);
            }
            assert(after@ =~= before@.insert(key, payload));
        }
        *self = SlotStorage { slots, occupied: occupied + 1, phantom: PhantomData };
        key
    }

    pub fn get(&self, key: K) -> (payload: Option<&T>)
        ensures
            match payload {
                Some(payload) => self@.contains_key(key) && *payload == self@[key],
                None => !self@.contains_key(key),
            },
    {
        let slot = key.into_slot();
        if slot < self.slots.len() as u64 {
            self.slots[slot as usize].as_ref()
        } else {
            None
        }
    }

    /// Stores a payload under a key that this storage issued earlier, whether
    /// or not the key is still in use. A key that was never issued is
    /// refused: the payload comes back and nothing changes.
    pub fn put(&mut self, key: K, payload: T) -> (refused: Option<T>)
        ensures
            final(self).issued() == old(self).issued(),
            key.slot() < old(self).issued() ==> refused is None && final(self)@ == old(
                self,
            )@.insert(key, payload),
            key.slot() >= old(self).issued() ==> refused == Some(payload) && final(self)@ == old(
                self,
            )@,
    {
        let (mut slots, mut occupied) = self.take();
        let ghost before = SlotStorage::<K, T> { slots, occupied, phantom: PhantomData };
        let slot = key.into_slot();
        if slot < slots.len() as u64 {
            let previous = slots[slot as usize].take();
            proof {
                assert forall|other: K| other.slot() == slot implies other == key by {
                    K::lemma_at_of_slot(other);
                    K::lemma_at_of_slot(key);
                }
            }
            let ghost taken = SlotStorage::<K, T> { slots, occupied, phantom: PhantomData };
            if previous.is_some() {
                proof {
                    assert(taken@ =~= before@.remove(key));
                }
                occupied = occupied - 1;
            } else {
                assert(taken@ =~= before@);
            }
            let ghost emptied = taken@;
            slots.set(slot as usize, Some(payload));
            let ghost after = SlotStorage::<K, T> {
                slots,
                occupied: (occupied + 1) as usize,
                phantom: PhantomData,
            };
            proof {
                assert(after@ =~= emptied.insert(key, payload));
                lemma_room(emptied, key, slots@.len());
            }
            *self = SlotStorage { slots, occupied: occupied + 1, phantom: PhantomData };
            None
        } else {
            *self = SlotStorage { slots, occupied, phantom: PhantomData };
            Some(payload)
        }
    }

    pub fn contains_key(&self, key: K) -> (found: bool)
        ensures
            found == self@.contains_key(key),
    {
        self.get(key).is_some()
    }

    /// Takes a payload out. Its key is not issued again.
    pub fn remove(&mut self, key: K) -> (payload: Option<T>)
        ensures
            final(self).issued() == old(self).issued(),
            final(self)@ == old(self)@.remove(key),
            match payload {
                Some(payload) => old(self)@.contains_key(key) && payload == old(self)@[key],
                None => !old(self)@.contains_key(key),
            },
    {
        let (mut slots, mut occupied) = self.take();
        let ghost before = SlotStorage::<K, T> { slots, occupied, phantom: PhantomData };
        let slot = key.into_slot();
        if slot < slots.len() as u64 {
            let payload = slots[slot as usize].take();
            if payload.is_some() {
                proof {
                    assert(before@.dom().contains(key));
                }
                occupied = occupied - 1;
            }
            let ghost after = SlotStorage::<K, T> { slots, occupied, phantom: PhantomData };
            proof {
                assert forall|other: K| other.slot() == slot implies other == key by {
                    K::lemma_at_of_slot(other);
                    K::lemma_at_of_slot(key);
                }
                assert(after@ =~= before@.remove(key));
            }
            *self = SlotStorage { slots, occupied, phantom: PhantomData };
            payload
        } else {
            let ghost after = SlotStorage::<K, T> { slots, occupied, phantom: PhantomData };
            *self = SlotStorage { slots, occupied, phantom: PhantomData };
            None
        }
    }

    pub fn len(&self) -> (count: usize)
        ensures
            self@.dom().finite(),
            count == self@.dom().len(),
    {
        proof {
            use_type_invariant(self);
        }
        self.occupied
    }

    /// The number of keys issued so far. Every key in the storage names a
    /// slot below it.
    pub fn slots(&self) -> (slots: usize)
        ensures
            slots == self.issued(),
    {
        self.slots.len()
    }

    /// The keys in use, in the order in which they were issued.
    pub fn keys(&self) -> (keys: Vec<K>)
        ensures
            in_issue_order(keys@, self@.dom()),
    {
        let mut keys: Vec<K> = Vec::new();
        let mut slot: usize = 0;
        while slot < self.slots.len()
            invariant
                slot <= self.slots@.len(),
                forall|i: int| 0 <= i < keys@.len() ==> (#[trigger] keys@[i]).slot() < slot,
                forall|i: int| 0 <= i < keys@.len() ==> self@.contains_key(#[trigger] keys@[i]),
                forall|i: int, j: int|
                    0 <= i < j < keys@.len() ==> (#[trigger] keys@[i]).slot() < (
                    #[trigger] keys@[j]).slot(),
                forall|key: K| self@.contains_key(key) && key.slot() < slot ==> keys@.contains(key),
            decreases self.slots@.len() - slot,
        {
            if self.slots[slot].is_some() {
                let key = K::from_slot(slot as u64);
                proof {
                    K::lemma_slot_of_at(slot as u64);
                    assert forall|other: K| other.slot() == slot implies other == key by {
                        K::lemma_at_of_slot(other);
                    }
                }
                let ghost before = keys@;
                keys.push(key);
                assert forall|other: K| self@.contains_key(other) && other.slot() < slot
                    + 1 implies keys@.contains(other) by {
                    if other.slot() < slot {
                        assert(before.contains(other));
                        let i = choose|i: int| 0 <= i < before.len() && before[i] == other;
                        assert(keys@[i] == other);
                    } else {
                        assert(keys@[before.len() as int] == other);
                    }
                }
            }
            slot = slot + 1;
        }
        assert(keys@.to_set() =~= self@.dom());
        keys
    }
}

/// The keys are those of the set, each once, in the order in which they were
/// issued.
pub open spec fn in_issue_order<K: SlotKey>(keys: Seq<K>, held: Set<K>) -> bool {
    &&& keys.no_duplicates()
    &&& keys.to_set() == held
    &&& forall|i: int, j: int|
        0 <= i < j < keys.len() ==> (#[trigger] keys[i]).slot() < (#[trigger] keys[j]).slot()
}

/// Two sequences that hold the same items, each in strictly increasing
/// order of one measure, are the same sequence.
pub proof fn lemma_increasing_unique<K>(first: Seq<K>, second: Seq<K>, measure: spec_fn(K) -> int)
    requires
        first.to_set() == second.to_set(),
        forall|i: int, j: int|
            0 <= i < j < first.len() ==> measure(#[trigger] first[i]) < measure(
                #[trigger] first[j],
            ),
        forall|i: int, j: int|
            0 <= i < j < second.len() ==> measure(#[trigger] second[i]) < measure(
                #[trigger] second[j],
            ),
    ensures
        first == second,
    decreases first.len(),
{
    assert(first.no_duplicates());
    assert(second.no_duplicates());
    first.unique_seq_to_set();
    second.unique_seq_to_set();
    if first.len() == 0 {
        assert(first =~= second);
    } else {
        let last = first.len() - 1;
        assert(first.to_set().contains(first[last]));
        assert(second.to_set().contains(second[last]));
        let j = choose|j: int| 0 <= j < second.len() && second[j] == first[last];
        let i = choose|i: int| 0 <= i < first.len() && first[i] == second[last];
        if j < last {
            assert(measure(second[j]) < measure(second[last]));
        }
        if i < last {
            assert(measure(first[i]) < measure(first[last]));
        }
        assert(first[last] == second[last]);
        let shorter = first.drop_last();
        let other = second.drop_last();
        assert forall|key: K| shorter.to_set().contains(key) <==> other.to_set().contains(
            key,
        ) by {
            if shorter.to_set().contains(key) {
                let a = choose|a: int| 0 <= a < shorter.len() && shorter[a] == key;
                assert(first[a] == key);
                assert(first.to_set().contains(key));
                let b = choose|b: int| 0 <= b < second.len() && second[b] == key;
                if b == last {
                    assert(measure(first[a]) < measure(first[last]));
                }
                assert(other[b] == key);
            }
            if other.to_set().contains(key) {
                let b = choose|b: int| 0 <= b < other.len() && other[b] == key;
                assert(second[b] == key);
                assert(second.to_set().contains(key));
                let a = choose|a: int| 0 <= a < first.len() && first[a] == key;
                if a == last {
                    assert(measure(second[b]) < measure(second[last]));
                }
                assert(shorter[a] == key);
            }
        }
        assert(shorter.to_set() =~= other.to_set());
        assert forall|a: int, b: int| 0 <= a < b < shorter.len() implies measure(
            #[trigger] shorter[a],
        ) < measure(#[trigger] shorter[b]) by {
            assert(measure(first[a]) < measure(first[b]));
        }
        assert forall|a: int, b: int| 0 <= a < b < other.len() implies measure(
            #[trigger] other[a],
        ) < measure(#[trigger] other[b]) by {
            assert(measure(second[a]) < measure(second[b]));
        }
        lemma_increasing_unique(shorter, other, measure);
        assert(first =~= shorter.push(first[last]));
        assert(second =~= other.push(second[last]));
    }
}

/// The order in which keys were issued is one order: two sequences that
/// hold the same keys in that order are the same sequence.
pub proof fn lemma_issue_order<K: SlotKey>(first: Seq<K>, second: Seq<K>, held: Set<K>)
    requires
        in_issue_order(first, held),
        in_issue_order(second, held),
    ensures
        first == second,
{
    lemma_increasing_unique(first, second, |key: K| key.slot() as int);
}

/// The order of the pairs is one order: two sequences that hold the same
/// keys in that order are the same sequence.
pub proof fn lemma_pair_order<K: PairKey>(first: Seq<K>, second: Seq<K>, held: Set<K>)
    requires
        in_pair_order(first, held),
        in_pair_order(second, held),
    ensures
        first == second,
{
    lemma_increasing_unique(first, second, |key: K| key.packed() as int);
}

/// The keys are those of the set, each once, in increasing order of the
/// pairs.
pub open spec fn in_pair_order<K: PairKey>(keys: Seq<K>, held: Set<K>) -> bool {
    &&& keys.no_duplicates()
    &&& keys.to_set() == held
    &&& forall|i: int, j: int|
        0 <= i < j < keys.len() ==> (#[trigger] keys[i]).packed() < (#[trigger] keys[j]).packed()
}

/// What a sequence of numbers in increasing order is.
proof fn lemma_increasing(numbers: Seq<&u128>)
    requires
        vstd::std_specs::btree::increasing_seq(numbers),
    ensures
        forall|i: int, j: int| 0 <= i < j < numbers.len() ==> *numbers[i] < *numbers[j],
{
    broadcast use vstd::laws_cmp::lemma_ref_obeys_cmp_spec;

    assert(vstd::laws_cmp::obeys_cmp::<&u128>());
    vstd::std_specs::btree::axiom_increasing_seq_meaning::<&u128>(numbers);
    assert forall|i: int, j: int| 0 <= i < j < numbers.len() implies *numbers[i]
        < *numbers[j] by {
        assert(OrdSpec::cmp_spec(&numbers[i], &numbers[j]) is Less);
        assert(OrdSpec::cmp_spec(numbers[i], numbers[j]) is Less);
    }
}

/// Storage whose keys are given by the caller: pairs of vertex keys, kept in
/// the order of the pairs.
pub struct PairStorage<K: PairKey, T> {
    entries: BTreeMap<u128, T>,
    phantom: PhantomData<K>,
}

impl<K: PairKey, T> PairStorage<K, T> {
    /// The payloads in the storage, by key.
    pub closed spec fn view(&self) -> Map<K, T> {
        Map::new(
            |key: K| self.entries@.contains_key(key.packed()),
            |key: K| self.entries@[key.packed()],
        )
    }

    /// The storage holds as many payloads as its map has entries.
    proof fn lemma_count(&self)
        ensures
            self@.dom().finite(),
            self@.dom().len() == self.entries@.dom().len(),
    {
        let unpack = |packed: u128| K::unpacked(packed);
        assert(vstd::relations::injective_on(unpack, self.entries@.dom())) by {
            assert forall|a: u128, b: u128|
                self.entries@.dom().contains(a) && self.entries@.dom().contains(b) && unpack(a)
                    == unpack(b) implies a == b by {
                K::lemma_packed_of_unpacked(a);
                K::lemma_packed_of_unpacked(b);
            }
        }
        assert(self.entries@.dom().map(unpack) =~= self@.dom()) by {
            assert forall|key: K| self@.dom().contains(key) implies self.entries@.dom().map(
                unpack,
            ).contains(key) by {
                K::lemma_unpacked_of_packed(key);
            }
            assert forall|key: K|
                self.entries@.dom().map(unpack).contains(key) implies self@.dom().contains(key) by {
                let packed = choose|packed: u128|
                    self.entries@.dom().contains(packed) && unpack(packed) == key;
                K::lemma_packed_of_unpacked(packed);
            }
        }
        vstd::set_lib::lemma_map_size(self.entries@.dom(), self@.dom(), unpack);
    }

    pub fn new() -> (storage: Self)
        ensures
            storage@ == Map::<K, T>::empty(),
    {
        let storage = PairStorage { entries: BTreeMap::new(), phantom: PhantomData };
        storage
    }

    /// Stores a payload under the given key and hands back the payload that
    /// was there before, if any.
    pub fn insert(&mut self, key: K, payload: T) -> (previous: Option<T>)
        ensures
            final(self)@ == old(self)@.insert(key, payload),
            match previous {
                Some(previous) => old(self)@.contains_key(key) && previous == old(self)@[key],
                None => !old(self)@.contains_key(key),
            },
    {
        let previous = self.entries.insert(key.pack(), payload);
        proof {
            assert forall|other: K| other.packed() == key.packed() implies other == key by {
                K::lemma_unpacked_of_packed(other);
                K::lemma_unpacked_of_packed(key);
            }
        }
        previous
    }

    pub fn get(&self, key: K) -> (payload: Option<&T>)
        ensures
            match payload {
                Some(payload) => self@.contains_key(key) && *payload == self@[key],
                None => !self@.contains_key(key),
            },
    {
        let packed = key.pack();
        self.entries.get(&packed)
    }

    pub fn contains_key(&self, key: K) -> (found: bool)
        ensures
            found == self@.contains_key(key),
    {
        self.get(key).is_some()
    }

    pub fn remove(&mut self, key: K) -> (payload: Option<T>)
        ensures
            final(self)@ == old(self)@.remove(key),
            match payload {
                Some(payload) => old(self)@.contains_key(key) && payload == old(self)@[key],
                None => !old(self)@.contains_key(key),
            },
    {
        let packed = key.pack();
        let payload = self.entries.remove(&packed);
        proof {
            assert forall|other: K| other.packed() == key.packed() implies other == key by {
                K::lemma_unpacked_of_packed(other);
                K::lemma_unpacked_of_packed(key);
            }
        }
        payload
    }

    pub fn len(&self) -> (count: usize)
        ensures
            self@.dom().finite(),
            count == self@.dom().len(),
    {
        proof {
            self.lemma_count();
        }
        self.entries.len()
    }

    /// The keys in the storage, in increasing order of the pairs.
    pub fn keys(&self) -> (keys: Vec<K>)
        ensures
            in_pair_order(keys@, self@.dom()),
    {
        let mut keys: Vec<K> = Vec::new();
        let ghost all = vstd::std_specs::btree::spec_keys_iter(&self.entries).remaining();
        for packed in it: self.entries.keys()
            invariant
                it.seq() == all,
                keys@.len() == it.index(),
                forall|i: int| 0 <= i < keys@.len() ==> keys@[i] == K::unpacked(*#[trigger] all[i]),
        {
            keys.push(K::unpack(*packed));
        }
        proof {
            let raw = all.unref();
            lemma_increasing(all);
            assert forall|i: int, j: int| 0 <= i < j < keys@.len() implies (
            #[trigger] keys@[i]).packed() < (#[trigger] keys@[j]).packed() by {
                K::lemma_packed_of_unpacked(*all[i]);
                K::lemma_packed_of_unpacked(*all[j]);
            }
            assert forall|i: int, j: int|
                0 <= i < keys@.len() && 0 <= j < keys@.len() && i != j implies keys@[i]
                != keys@[j] by {
                K::lemma_packed_of_unpacked(*all[i]);
                K::lemma_packed_of_unpacked(*all[j]);
            }
            assert forall|key: K| self@.dom().contains(key) implies keys@.to_set().contains(
                key,
            ) by {
                let i = choose|i: int| 0 <= i < raw.len() && raw[i] == key.packed();
                assert(*all[i] == key.packed());
                K::lemma_unpacked_of_packed(key);
            }
            assert forall|key: K| keys@.to_set().contains(key) implies self@.dom().contains(
                key,
            ) by {
                let i = choose|i: int| 0 <= i < keys@.len() && keys@[i] == key;
                assert(raw[i] == *all[i]);
                K::lemma_packed_of_unpacked(*all[i]);
            }
            assert(keys@.to_set() =~= self@.dom());
        }
        keys
    }
}

/// Keys below a bound, one of them unused, are fewer than the bound.
proof fn lemma_room<K: SlotKey, T>(payloads: Map<K, T>, unused: K, bound: nat)
    requires
        payloads.dom().finite(),
        forall|key: K| payloads.contains_key(key) ==> key.slot() < bound,
        !payloads.contains_key(unused),
        unused.slot() < bound,
    ensures
        payloads.dom().len() < bound,
{
    let slot_of = |key: K| key.slot() as int;
    let slots = payloads.dom().map(slot_of);
    assert(vstd::relations::injective_on(slot_of, payloads.dom())) by {
        assert forall|a: K, b: K|
            payloads.dom().contains(a) && payloads.dom().contains(b) && slot_of(a) == slot_of(
                b,
            ) implies a == b by {
            K::lemma_at_of_slot(a);
            K::lemma_at_of_slot(b);
        }
    }
    vstd::set_lib::lemma_map_size(payloads.dom(), slots, slot_of);
    let below = vstd::set_lib::set_int_range(0, bound as int);
    vstd::set_lib::lemma_int_range(0, bound as int);
    let rest = below.remove(unused.slot() as int);
    assert forall|slot: int| slots.contains(slot) implies rest.contains(slot) by {
        let key = choose|key: K| payloads.dom().contains(key) && slot_of(key) == slot;
        if slot == unused.slot() as int {
            K::lemma_at_of_slot(key);
            K::lemma_at_of_slot(unused);
        }
    }
    vstd::set_lib::lemma_len_subset(slots, rest);
}

} // verus!
