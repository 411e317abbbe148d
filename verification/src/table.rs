//! Keyed tables: a hash index from key to slot, and the entries side by side in the slots.
use dashmap::DashMap;
use vstd::prelude::*;

verus! {

/// The concurrent hash map of the `dashmap` crate, which serves here as the index of a table.
#[verifier::external_type_specification]
#[verifier::external_body]
#[verifier::reject_recursive_types(K)]
#[verifier::reject_recursive_types(V)]
#[verifier::reject_recursive_types(S)]
pub struct ExDashMap<K, V, S>(DashMap<K, V, S>);

/// The slot that an index over text keys holds for each key.
pub uninterp spec fn text_slots(index: DashMap<String, usize>) -> Map<Seq<char>, usize>;

/// The slot that an index over numeric keys holds for each key.
pub uninterp spec fn id_slots(index: DashMap<i64, usize>) -> Map<i64, usize>;

/// `DashMap::new`: the map holds nothing.
#[verifier::external_body]
fn text_index_new() -> (index: DashMap<String, usize>)
    ensures
        (text_slots(index) == Map::<Seq<char>, usize>::empty()),
{
    DashMap::new()
}

/// `DashMap::get`: the value that the map holds for the key, if it holds one.
#[verifier::external_body]
fn text_index_get(index: &DashMap<String, usize>, key: &str) -> (slot: Option<usize>)
    ensures
        slot == (if text_slots(*index).contains_key(key@) {
            Some(text_slots(*index)[key@])
        } else {
            None
        }),
{
    index.get(key).map(|entry| *entry.value())
}

/// `DashMap::insert`: afterwards the key has this value, and every other key what it had.
#[verifier::external_body]
fn text_index_insert(index: &mut DashMap<String, usize>, key: String, slot: usize)
    ensures
        text_slots(*final(index)) == text_slots(*old(index)).insert(key@, slot),
{
    index.insert(key, slot);
}

/// `DashMap::remove`: afterwards the key has no value, and every other key what it had.
#[verifier::external_body]
fn text_index_remove(index: &mut DashMap<String, usize>, key: &str)
    ensures
        text_slots(*final(index)) == text_slots(*old(index)).remove(key@),
{
    index.remove(key);
}

/// `DashMap::new`: the map holds nothing.
#[verifier::external_body]
fn id_index_new() -> (index: DashMap<i64, usize>)
    ensures
        (id_slots(index) == Map::<i64, usize>::empty()),
{
    DashMap::new()
}

/// `DashMap::get`: the value that the map holds for the key, if it holds one.
#[verifier::external_body]
fn id_index_get(index: &DashMap<i64, usize>, key: &i64) -> (slot: Option<usize>)
    ensures
        slot == (if id_slots(*index).contains_key(*key) {
            Some(id_slots(*index)[*key])
        } else {
            None
        }),
{
    index.get(key).map(|entry| *entry.value())
}

/// `DashMap::insert`: afterwards the key has this value, and every other key what it had.
#[verifier::external_body]
fn id_index_insert(index: &mut DashMap<i64, usize>, key: i64, slot: usize)
    ensures
        id_slots(*final(index)) == id_slots(*old(index)).insert(key, slot),
{
    index.insert(key, slot);
}

/// `DashMap::remove`: afterwards the key has no value, and every other key what it had.
#[verifier::external_body]
fn id_index_remove(index: &mut DashMap<i64, usize>, key: &i64)
    ensures
        id_slots(*final(index)) == id_slots(*old(index)).remove(*key),
{
    index.remove(key);
}

/// What a table asks of its keys: an index over them, and a borrowed form to look them up by.
pub trait TableKey: View + Sized {
    type Probe: ?Sized + View<V = Self::V>;

    type Index;

    /// The slot that the index holds for each key.
    spec fn slots(index: Self::Index) -> Map<Self::V, usize>;

    fn index_new() -> (index: Self::Index)
        ensures
            (Self::slots(index) == Map::<Self::V, usize>::empty()),
    ;

    fn index_get(index: &Self::Index, key: &Self::Probe) -> (slot: Option<usize>)
        ensures
            slot == (if Self::slots(*index).contains_key(key@) {
                Some(Self::slots(*index)[key@])
            } else {
                None
            }),
    ;

    fn index_insert(index: &mut Self::Index, key: &Self, slot: usize)
        ensures
            Self::slots(*final(index)) == Self::slots(*old(index)).insert(key@, slot),
    ;

    fn index_remove(index: &mut Self::Index, key: &Self::Probe)
        ensures
            Self::slots(*final(index)) == Self::slots(*old(index)).remove(key@),
    ;

    fn probe(&self) -> (probe: &Self::Probe)
        ensures
            probe@ == self@,
    ;
}

impl TableKey for String {
    type Probe = str;

    type Index = DashMap<String, usize>;

    open spec fn slots(index: DashMap<String, usize>) -> Map<Seq<char>, usize> {
        text_slots(index)
    }

    fn index_new() -> (index: DashMap<String, usize>) {
        text_index_new()
    }

    fn index_get(index: &DashMap<String, usize>, key: &str) -> (slot: Option<usize>) {
        text_index_get(index, key)
    }

    fn index_insert(index: &mut DashMap<String, usize>, key: &String, slot: usize) {
        text_index_insert(index, key.clone(), slot);
    }

    fn index_remove(index: &mut DashMap<String, usize>, key: &str) {
        text_index_remove(index, key);
    }

    fn probe(&self) -> (probe: &str) {
        self.as_str()
    }
}

impl TableKey for i64 {
    type Probe = i64;

    type Index = DashMap<i64, usize>;

    open spec fn slots(index: DashMap<i64, usize>) -> Map<i64, usize> {
        id_slots(index)
    }

    fn index_new() -> (index: DashMap<i64, usize>) {
        id_index_new()
    }

    fn index_get(index: &DashMap<i64, usize>, key: &i64) -> (slot: Option<usize>) {
        id_index_get(index, key)
    }

    fn index_insert(index: &mut DashMap<i64, usize>, key: &i64, slot: usize) {
        id_index_insert(index, *key, slot);
    }

    fn index_remove(index: &mut DashMap<i64, usize>, key: &i64) {
        id_index_remove(index, key);
    }

    fn probe(&self) -> (probe: &i64) {
        self
    }
}

/// The index of a table together with its entries.
struct Slots<K: TableKey, V: View> {
    index: K::Index,
    entries: Vec<(K, V)>,
}

impl<K: TableKey, V: View> View for Slots<K, V> {
    type V = Map<K::V, V::V>;

    closed spec fn view(&self) -> Map<K::V, V::V> {
        Map::new(
            |key: K::V| K::slots(self.index).contains_key(key),
            |key: K::V| self.entries@[K::slots(self.index)[key] as int].1@,
        )
    }
}

impl<K: TableKey, V: View> Slots<K, V> {
    /// The index and the slots agree: every entry is indexed under its key, and only there.
    spec fn wf(&self) -> bool {
        &&& forall|i: int|
            0 <= i < self.entries@.len() ==> {
                &&& K::slots(self.index).contains_key((#[trigger] self.entries@[i]).0@)
                &&& K::slots(self.index)[self.entries@[i].0@] == i
            }
        &&& forall|key: K::V| #[trigger]
            K::slots(self.index).contains_key(key) ==> {
                &&& K::slots(self.index)[key] < self.entries@.len()
                &&& self.entries@[K::slots(self.index)[key] as int].0@ == key
            }
    }

    /// The keys in the order of their slots, which is the order in which the table is listed.
    spec fn keys(&self) -> Seq<K::V> {
        Seq::new(self.entries@.len(), |i: int| self.entries@[i].0@)
    }

    /// Each key of the map is listed exactly once.
    proof fn lemma_keys(&self)
        requires
            self.wf(),
        ensures
            self.keys().no_duplicates(),
            self.keys().to_set() == self@.dom(),
            self.keys().len() == self@.dom().len(),
            self@.dom().finite(),
    {
        let keys = self.keys();
        assert forall|key: K::V| #[trigger] self@.dom().contains(key) implies keys.contains(
            key,
        ) by {
            assert(keys[K::slots(self.index)[key] as int] == key);
        }
        assert forall|key: K::V| keys.contains(key) implies #[trigger] self@.dom().contains(key) by {
            let i = choose|i: int| 0 <= i < keys.len() && keys[i] == key;
            assert(self.entries@[i].0@ == key);
        }
        assert forall|i: int, j: int|
            0 <= i < keys.len() && 0 <= j < keys.len() && i != j implies keys[i] != keys[j] by {
            assert(K::slots(self.index)[self.entries@[i].0@] == i);
            assert(K::slots(self.index)[self.entries@[j].0@] == j);
        }
        assert(keys.to_set() =~= self@.dom());
        keys.unique_seq_to_set();
        vstd::seq_lib::seq_to_set_is_finite(keys);
    }

    /// The table that holds nothing.
    fn new() -> (table: Self)
        ensures
            table.wf(),
            (table@ == Map::<K::V, V::V>::empty()),
            table.keys().len() == 0,
    {
        let table = Slots { index: K::index_new(), entries: Vec::new() };
        assert(table@ =~= Map::<K::V, V::V>::empty());
        table
    }

    /// How many keys have a value.
    fn len(&self) -> (len: usize)
        requires
            self.wf(),
        ensures
            len == self@.dom().len(),
            len == self.keys().len(),
    {
        proof {
            self.lemma_keys();
        }
        self.entries.len()
    }

    /// Whether the key has a value.
    fn contains_key(&self, key: &K::Probe) -> (found: bool)
        requires
            self.wf(),
        ensures
            found == self@.contains_key(key@),
    {
        match K::index_get(&self.index, key) {
            Some(_) => true,
            None => false,
        }
    }

    /// The value of the key, if it has one.
    fn get(&self, key: &K::Probe) -> (value: Option<&V>)
        requires
            self.wf(),
        ensures
            match value {
                Some(value) => self@.contains_key(key@) && value@ == self@[key@],
                None => !self@.contains_key(key@),
            },
    {
        match K::index_get(&self.index, key) {
            Some(slot) => Some(&self.entries[slot].1),
            None => None,
        }
    }

    /// The entry at a place in the listing order.
    fn entry(&self, place: usize) -> (entry: (&K, &V))
        requires
            self.wf(),
            place < self.keys().len(),
        ensures
            entry.0@ == self.keys()[place as int],
            self@.contains_key(entry.0@),
            entry.1@ == self@[entry.0@],
    {
        let entry = &self.entries[place];
        (&entry.0, &entry.1)
    }

    /// Gives the key this value, in place of the one it had if it had one.
    fn insert(&mut self, key: K, value: V)
        requires
            old(self).wf(),
        ensures
            final(self).wf(),
            final(self)@ == old(self)@.insert(key@, value@),
    {
        let ghost before = *self;
        match K::index_get(&self.index, key.probe()) {
            Some(slot) => {
                self.entries[slot] = (key, value);
                assert(self@ =~= before@.insert(key@, value@));
            },
            None => {
                let slot = self.entries.len();
                K::index_insert(&mut self.index, &key, slot);
                self.entries.push((key, value));
                assert forall|i: int| 0 <= i < self.entries@.len() implies {
                    &&& K::slots(self.index).contains_key((#[trigger] self.entries@[i]).0@)
                    &&& K::slots(self.index)[self.entries@[i].0@] == i
                } by {
                    if i < before.entries@.len() {
                        assert(self.entries@[i] == before.entries@[i]);
                    }
                }
                assert forall|other: K::V| #[trigger]
                    K::slots(self.index).contains_key(other) implies {
                    &&& K::slots(self.index)[other] < self.entries@.len()
                    &&& self.entries@[K::slots(self.index)[other] as int].0@ == other
                } by {
                    if other != key@ {
                        assert(K::slots(before.index).contains_key(other));
                    }
                }
                assert(self@ =~= before@.insert(key@, value@));
            },
        }
    }

    /// Takes the key's value out of the table, if it has one.
    fn remove(&mut self, key: &K::Probe) -> (value: Option<V>)
        requires
            old(self).wf(),
        ensures
            final(self).wf(),
            final(self)@ == old(self)@.remove(key@),
            match value {
                Some(value) => old(self)@.contains_key(key@) && value@ == old(self)@[key@],
                None => !old(self)@.contains_key(key@),
            },
    {
        let ghost before = *self;
        match K::index_get(&self.index, key) {
            None => {
                assert(self@ =~= before@.remove(key@));
                None
            },
            Some(slot) => {
                let last = self.entries.len() - 1;
                K::index_remove(&mut self.index, key);
                let taken = self.entries.swap_remove(slot);
                if slot < last {
                    K::index_insert(&mut self.index, &self.entries[slot].0, slot);
                }
                proof {
                    let old_slots = K::slots(before.index);
                    let new_slots = K::slots(self.index);
                    let moved = before.entries@[last as int].0@;
                    assert(before.entries@[slot as int].0@ == key@);
                    assert(old_slots[moved] == last);
                    assert forall|i: int| 0 <= i < self.entries@.len() implies {
                        &&& new_slots.contains_key((#[trigger] self.entries@[i]).0@)
                        &&& new_slots[self.entries@[i].0@] == i
                    } by {
                        if i == slot {
                            assert(self.entries@[i] == before.entries@[last as int]);
                        } else {
                            assert(self.entries@[i] == before.entries@[i]);
                            assert(old_slots[before.entries@[i].0@] == i);
                        }
                    }
                    assert forall|other: K::V| #[trigger] new_slots.contains_key(other) implies {
                        &&& new_slots[other] < self.entries@.len()
                        &&& self.entries@[new_slots[other] as int].0@ == other
                        &&& old_slots.contains_key(other)
                        &&& other != key@
                        &&& self.entries@[new_slots[other] as int]
                            == before.entries@[old_slots[other] as int]
                    } by {
                        if slot < last && other == moved {
                        } else {
                            assert(old_slots.contains_key(other));
                            assert(old_slots[other] != last) by {
                                if old_slots[other] == last {
                                    assert(before.entries@[last as int].0@ == other);
                                }
                            }
                        }
                    }
                    assert forall|other: K::V|
                        old_slots.contains_key(other) && other
                            != key@ implies #[trigger] new_slots.contains_key(other) by {
                    }
                    assert(self@ =~= before@.remove(key@));
                }
                Some(taken.1)
            },
        }
    }
}

/// A table from keys to values. Its view is the map from key to value, both by their views.
pub struct Table<K: TableKey, V: View> {
    slots: Option<Slots<K, V>>,
}

impl<K: TableKey, V: View> View for Table<K, V> {
    type V = Map<K::V, V::V>;

    closed spec fn view(&self) -> Map<K::V, V::V> {
        match self.slots {
            Some(slots) => slots@,
            None => Map::empty(),
        }
    }
}

impl<K: TableKey, V: View> Table<K, V> {
    #[verifier::type_invariant]
    spec fn sound(&self) -> bool {
        self.slots matches Some(slots) ==> slots.wf()
    }

    /// The keys in the order of their slots, which is the order in which the table is listed.
    pub closed spec fn keys(&self) -> Seq<K::V> {
        match self.slots {
            Some(slots) => slots.keys(),
            None => Seq::empty(),
        }
    }

    /// The table that holds nothing.
    pub fn new() -> (table: Self)
        ensures
            (table@ == Map::<K::V, V::V>::empty()),
            table.keys().len() == 0,
    {
        Table { slots: None }
    }

    /// How many keys have a value. Each of them is listed exactly once.
    pub fn len(&self) -> (len: usize)
        ensures
            len == self@.dom().len(),
            len == self.keys().len(),
            self@.dom().finite(),
            self.keys().no_duplicates(),
            self.keys().to_set() == self@.dom(),
    {
        proof {
            use_type_invariant(self);
        }
        match &self.slots {
            Some(slots) => {
                proof {
                    slots.lemma_keys();
                }
                slots.len()
            },
            None => {
                assert(self.keys().to_set() =~= self@.dom());
                0
            },
        }
    }

    /// Whether the key has a value.
    pub fn contains_key(&self, key: &K::Probe) -> (found: bool)
        ensures
            found == self@.contains_key(key@),
    {
        proof {
            use_type_invariant(self);
        }
        match &self.slots {
            Some(slots) => slots.contains_key(key),
            None => false,
        }
    }

    /// The value of the key, if it has one.
    pub fn get(&self, key: &K::Probe) -> (value: Option<&V>)
        ensures
            match value {
                Some(value) => self@.contains_key(key@) && value@ == self@[key@],
                None => !self@.contains_key(key@),
            },
    {
        proof {
            use_type_invariant(self);
        }
        match &self.slots {
            Some(slots) => slots.get(key),
            None => None,
        }
    }

    /// The entry at a place in the listing order.
    pub fn entry(&self, place: usize) -> (entry: (&K, &V))
        requires
            place < self.keys().len(),
        ensures
            entry.0@ == self.keys()[place as int],
            self@.contains_key(entry.0@),
            entry.1@ == self@[entry.0@],
    {
        proof {
            use_type_invariant(self);
        }
        match &self.slots {
            Some(slots) => slots.entry(place),
            None => vstd::pervasive::unreached(),
        }
    }

    fn take(&mut self) -> (slots: Slots<K, V>)
        ensures
            slots.wf(),
            slots@ == old(self)@,
            final(self).slots is None,
    {
        proof {
            use_type_invariant(&*self);
        }
        let mut slots: Option<Slots<K, V>> = None;
        std::mem::swap(&mut slots, &mut self.slots);
        match slots {
            Some(slots) => slots,
            None => Slots::new(),
        }
    }

    /// Gives the key this value, in place of the one it had if it had one.
    pub fn insert(&mut self, key: K, value: V)
        ensures
            final(self)@ == old(self)@.insert(key@, value@),
    {
        let mut slots = self.take();
        slots.insert(key, value);
        self.slots = Some(slots);
    }

    /// Takes the key's value out of the table, if it has one.
    pub fn remove(&mut self, key: &K::Probe) -> (value: Option<V>)
        ensures
            final(self)@ == old(self)@.remove(key@),
            match value {
                Some(value) => old(self)@.contains_key(key@) && value@ == old(self)@[key@],
                None => !old(self)@.contains_key(key@),
            },
    {
        let mut slots = self.take();
        let value = slots.remove(key);
        self.slots = Some(slots);
        value
    }

    /// Takes the values of all these keys out of the table.
    pub fn remove_all(&mut self, keys: &Vec<K>)
        ensures
            final(self)@ == old(self)@.remove_keys(keys@.map_values(|key: K| key@).to_set()),
    {
        let ghost before = self@;
        let ghost views = keys@.map_values(|key: K| key@);
        let mut i: usize = 0;
        assert(before.remove_keys(views.take(0).to_set()) =~= before);
        while i < keys.len()
            invariant
                i <= keys@.len(),
                views == keys@.map_values(|key: K| key@),
                self@ == before.remove_keys(views.take(i as int).to_set()),
            decreases keys@.len() - i,
        {
            self.remove(keys[i].probe());
            i += 1;
            proof {
                let earlier = views.take(i - 1);
                let taken = views.take(i as int);
                assert(taken =~= earlier.push(views[i - 1]));
                assert forall|key: K::V| #[trigger] taken.contains(key) <==> earlier.contains(key)
                    || key == views[i - 1] by {
                    if earlier.contains(key) {
                        let j = choose|j: int| 0 <= j < earlier.len() && earlier[j] == key;
                        assert(taken[j] == key);
                    }
                    assert(taken[i - 1] == views[i - 1]);
                }
                assert(self@ =~= before.remove_keys(taken.to_set()));
            }
        }
        assert(views.take(i as int) =~= views);
    }
}

} // verus!
