//! Hash collections of `indexmap` and `ahash`, as indexes from keys to positions.

use ahash::{AHashMap, AHashSet};
use indexmap::IndexMap;
use vstd::prelude::*;

use crate::model::InstrumentId;

verus! {

/// A hash map that keeps the order of insertion.
#[verifier::external_type_specification]
#[verifier::external_body]
#[verifier::reject_recursive_types(K)]
#[verifier::reject_recursive_types(V)]
#[verifier::reject_recursive_types(S)]
pub struct ExIndexMap<K, V, S>(IndexMap<K, V, S>);

/// The entries of a price index, in the order of insertion.
pub uninterp spec fn price_slots(index: IndexMap<i64, u64>) -> Seq<(i64, u64)>;

/// The value of the entry for `price`, where there is one.
pub open spec fn slot_of(slots: Seq<(i64, u64)>, price: i64) -> Option<u64> {
    if exists|i: int| 0 <= i < slots.len() && #[trigger] slots[i].0 == price {
        Some(slots[choose|i: int| 0 <= i < slots.len() && #[trigger] slots[i].0 == price].1)
    } else {
        None
    }
}

/// `IndexMap::new`: no entries.
#[verifier::external_body]
pub(crate) fn price_index_new() -> (r: IndexMap<i64, u64>)
    ensures
        price_slots(r) == Seq::<(i64, u64)>::empty(),
{
    IndexMap::new()
}

/// `IndexMap::get`: the value of the entry with this key.
#[verifier::external_body]
pub(crate) fn price_index_get(index: &IndexMap<i64, u64>, price: i64) -> (r: Option<u64>)
    ensures
        r == slot_of(price_slots(*index), price),
{
    index.get(&price).copied()
}

/// `IndexMap::insert` of a key that is not there yet: the entry comes last.
#[verifier::external_body]
pub(crate) fn price_index_insert(index: &mut IndexMap<i64, u64>, price: i64, slot: u64)
    requires
        slot_of(price_slots(*old(index)), price) is None,
    ensures
        price_slots(*final(index)) == price_slots(*old(index)).push((price, slot)),
{
    index.insert(price, slot);
}

/// A hash map with the hasher of `ahash`.
#[verifier::external_type_specification]
#[verifier::external_body]
#[verifier::reject_recursive_types(K)]
#[verifier::reject_recursive_types(V)]
#[verifier::reject_recursive_types(S)]
pub struct ExAHashMap<K, V, S>(AHashMap<K, V, S>);

/// A hash set with the hasher of `ahash`.
#[verifier::external_type_specification]
#[verifier::external_body]
#[verifier::reject_recursive_types(T)]
#[verifier::reject_recursive_types(S)]
pub struct ExAHashSet<T, S>(AHashSet<T, S>);

/// The hasher state of `ahash`.
#[verifier::external_type_specification]
#[verifier::external_body]
pub struct ExAHashState(ahash::RandomState);

/// The entries of a text index.
pub uninterp spec fn text_slots(index: AHashMap<String, u64>) -> Map<Seq<char>, u64>;

/// The entries of an instrument index, by symbol and venue.
pub uninterp spec fn instrument_slots(index: AHashMap<(String, String), u64>) -> Map<
    (Seq<char>, Seq<char>),
    u64,
>;

/// The members of a text set.
pub uninterp spec fn text_members(set: AHashSet<String>) -> Set<Seq<char>>;

/// The members of an instrument set, by symbol and venue.
pub uninterp spec fn instrument_members(set: AHashSet<(String, String)>) -> Set<
    (Seq<char>, Seq<char>),
>;

/// The value of a key, where there is one.
pub open spec fn entry<K, V>(map: Map<K, V>, key: K) -> Option<V> {
    if map.dom().contains(key) {
        Some(map[key])
    } else {
        None
    }
}

/// `AHashMap::new`: no entries.
#[verifier::external_body]
fn text_index_new() -> (r: AHashMap<String, u64>)
    ensures
        text_slots(r).dom() == Set::<Seq<char>>::empty(),
{
    AHashMap::new()
}

/// `HashMap::get` of an `AHashMap`: the value of the entry with this key.
#[verifier::external_body]
fn text_index_get(index: &AHashMap<String, u64>, key: &str) -> (r: Option<u64>)
    ensures
        r == entry(text_slots(*index), key@),
{
    index.get(key).copied()
}

/// `HashMap::insert` of an `AHashMap`: sets the entry of this key.
#[verifier::external_body]
fn text_index_insert(index: &mut AHashMap<String, u64>, key: &str, slot: u64)
    ensures
        text_slots(*final(index)) == text_slots(*old(index)).insert(key@, slot),
{
    index.insert(key.to_owned(), slot);
}

/// `AHashMap::new`: no entries.
#[verifier::external_body]
fn instrument_index_new() -> (r: AHashMap<(String, String), u64>)
    ensures
        instrument_slots(r).dom() == Set::<(Seq<char>, Seq<char>)>::empty(),
{
    AHashMap::new()
}

/// `HashMap::get` of an `AHashMap`: the value of the entry with this key.
#[verifier::external_body]
fn instrument_index_get(index: &AHashMap<(String, String), u64>, id: &InstrumentId) -> (r: Option<
    u64,
>)
    ensures
        r == entry(instrument_slots(*index), id@),
{
    index.get(&(id.symbol.clone(), id.venue.clone())).copied()
}

/// `HashMap::insert` of an `AHashMap`: sets the entry of this key.
#[verifier::external_body]
fn instrument_index_insert(
    index: &mut AHashMap<(String, String), u64>,
    id: &InstrumentId,
    slot: u64,
)
    ensures
        instrument_slots(*final(index)) == instrument_slots(*old(index)).insert(id@, slot),
{
    index.insert((id.symbol.clone(), id.venue.clone()), slot);
}

/// `AHashSet::new`: no members.
#[verifier::external_body]
fn text_set_new() -> (r: AHashSet<String>)
    ensures
        text_members(r) == Set::<Seq<char>>::empty(),
{
    AHashSet::new()
}

/// `HashSet::insert` of an `AHashSet`: adds the member and says whether it was missing.
#[verifier::external_body]
fn text_set_insert(set: &mut AHashSet<String>, member: &str) -> (r: bool)
    ensures
        r == !text_members(*old(set)).contains(member@),
        text_members(*final(set)) == text_members(*old(set)).insert(member@),
{
    set.insert(member.to_owned())
}

/// `AHashSet::new`: no members.
#[verifier::external_body]
fn instrument_set_new() -> (r: AHashSet<(String, String)>)
    ensures
        instrument_members(r) == Set::<(Seq<char>, Seq<char>)>::empty(),
{
    AHashSet::new()
}

/// `HashSet::insert` of an `AHashSet`: adds the member and says whether it was missing.
#[verifier::external_body]
fn instrument_set_insert(set: &mut AHashSet<(String, String)>, id: &InstrumentId) -> (r: bool)
    ensures
        r == !instrument_members(*old(set)).contains(id@),
        instrument_members(*final(set)) == instrument_members(*old(set)).insert(id@),
{
    set.insert((id.symbol.clone(), id.venue.clone()))
}

/// `HashSet::contains` of an `AHashSet`.
#[verifier::external_body]
fn instrument_set_contains(set: &AHashSet<(String, String)>, id: &InstrumentId) -> (r: bool)
    ensures
        r == instrument_members(*set).contains(id@),
{
    set.contains(&(id.symbol.clone(), id.venue.clone()))
}

/// `HashSet::remove` of an `AHashSet`: takes the member out and says whether it was there.
#[verifier::external_body]
fn instrument_set_remove(set: &mut AHashSet<(String, String)>, id: &InstrumentId) -> (r: bool)
    ensures
        r == instrument_members(*old(set)).contains(id@),
        instrument_members(*final(set)) == instrument_members(*old(set)).remove(id@),
{
    set.remove(&(id.symbol.clone(), id.venue.clone()))
}

/// Position of a key in a list of entries.
pub open spec fn key_position<K, V>(entries: Seq<(K, V)>, key: K) -> int {
    choose|i: int| 0 <= i < entries.len() && (#[trigger] entries[i]).0 == key
}

/// Some entry has the key.
pub open spec fn has_key<K, V>(entries: Seq<(K, V)>, key: K) -> bool {
    exists|i: int| 0 <= i < entries.len() && (#[trigger] entries[i]).0 == key
}

/// No two entries share a key.
pub open spec fn distinct_keys<K, V>(entries: Seq<(K, V)>) -> bool {
    forall|i: int, j: int|
        0 <= i < j < entries.len() ==> (#[trigger] entries[i]).0 != (#[trigger] entries[j]).0
}

/// The map of a list of entries with distinct keys.
pub open spec fn map_of<K, V>(entries: Seq<(K, V)>) -> Map<K, V> {
    Map::new(|key: K| has_key(entries, key), |key: K| entries[key_position(entries, key)].1)
}

/// The index leads each key to its entry.
pub open spec fn leads<K, V>(slots: Map<K, u64>, entries: Seq<(K, V)>) -> bool {
    &&& distinct_keys(entries)
    &&& forall|key: K| #[trigger] slots.dom().contains(key) <==> has_key(entries, key)
    &&& forall|i: int| 0 <= i < entries.len() ==> slots[(#[trigger] entries[i]).0] == i
}

pub proof fn lemma_key_position<K, V>(entries: Seq<(K, V)>, i: int)
    requires
        distinct_keys(entries),
        0 <= i < entries.len(),
    ensures
        has_key(entries, entries[i].0),
        key_position(entries, entries[i].0) == i,
        map_of(entries).dom().contains(entries[i].0),
        map_of(entries)[entries[i].0] == entries[i].1,
{
    let key = entries[i].0;
    assert(entries[i].0 == key);
    let p = key_position(entries, key);
    assert(0 <= p < entries.len() && entries[p].0 == key);
    if p < i {
        assert(entries[p].0 != entries[i].0);
    } else if i < p {
        assert(entries[i].0 != entries[p].0);
    }
}

/// A new entry at the end of the list.
pub proof fn lemma_pushed<K, V>(slots: Map<K, u64>, entries: Seq<(K, V)>, key: K, value: V)
    requires
        leads(slots, entries),
        !has_key(entries, key),
        entries.len() <= u64::MAX,
    ensures
        leads(slots.insert(key, entries.len() as u64), entries.push((key, value))),
        map_of(entries.push((key, value))) == map_of(entries).insert(key, value),
{
    let next = entries.push((key, value));
    let n = entries.len() as int;
    assert(next[n].0 == key);
    assert forall|k: K| #[trigger] has_key(next, k) <==> has_key(entries, k) || k == key by {
        if has_key(next, k) {
            let i = key_position(next, k);
            assert(next[i].0 == k);
            if i < n {
                assert(entries[i].0 == k);
            }
        }
        if has_key(entries, k) {
            let i = key_position(entries, k);
            assert(entries[i].0 == k);
            assert(next[i].0 == k);
        }
    }
    assert forall|i: int, j: int| 0 <= i < j < next.len() implies (#[trigger] next[i]).0 != (
    #[trigger] next[j]).0 by {
        if j == n {
            assert(entries[i].0 == next[i].0);
        } else {
            assert(entries[i].0 != entries[j].0);
        }
    }
    let more = slots.insert(key, n as u64);
    assert forall|i: int| 0 <= i < next.len() implies more[(#[trigger] next[i]).0] == i by {
        if i < n {
            assert(next[i] == entries[i]);
            assert(entries[i].0 != key);
        }
    }
    assert forall|k: K| #[trigger] map_of(next).dom().contains(k) implies map_of(next)[k]
        == map_of(entries).insert(key, value)[k] by {
        if k == key {
            lemma_key_position(next, n);
        } else {
            assert(has_key(next, k));
            let i = key_position(entries, k);
            assert(entries[i].0 == k);
            assert(next[i] == entries[i]);
            lemma_key_position(next, i);
        }
    }
    assert(map_of(next) =~= map_of(entries).insert(key, value));
}

/// A new value for an entry of the list.
pub proof fn lemma_replaced<K, V>(slots: Map<K, u64>, entries: Seq<(K, V)>, i: int, value: V)
    requires
        leads(slots, entries),
        0 <= i < entries.len(),
    ensures
        leads(slots, entries.update(i, (entries[i].0, value))),
        map_of(entries.update(i, (entries[i].0, value))) == map_of(entries).insert(
            entries[i].0,
            value,
        ),
{
    let next = entries.update(i, (entries[i].0, value));
    assert(forall|j: int| 0 <= j < entries.len() ==> (#[trigger] next[j]).0 == entries[j].0);
    assert forall|k: K| #[trigger] has_key(next, k) <==> has_key(entries, k) by {
        if has_key(next, k) {
            let j = key_position(next, k);
            assert(entries[j].0 == k);
        }
        if has_key(entries, k) {
            let j = key_position(entries, k);
            assert(next[j].0 == k);
        }
    }
    assert forall|a: int, b: int| 0 <= a < b < next.len() implies (#[trigger] next[a]).0 != (
    #[trigger] next[b]).0 by {
        assert(entries[a].0 != entries[b].0);
    }
    assert forall|k: K| #[trigger] map_of(next).dom().contains(k) implies map_of(next)[k]
        == map_of(entries).insert(entries[i].0, value)[k] by {
        assert(has_key(next, k));
        let j = key_position(entries, k);
        assert(entries[j].0 == k);
        lemma_key_position(next, j);
        lemma_key_position(entries, j);
    }
    lemma_key_position(entries, i);
    assert(map_of(next) =~= map_of(entries).insert(entries[i].0, value));
}

/// The entries of a list by the text of their keys.
pub open spec fn text_entries<V>(entries: Seq<(String, V)>) -> Seq<(Seq<char>, V)> {
    Seq::new(entries.len(), |i: int| (entries[i].0@, entries[i].1))
}

/// The entries of a list by the symbol and venue of their keys.
pub open spec fn instrument_entries<V>(entries: Seq<(InstrumentId, V)>) -> Seq<
    ((Seq<char>, Seq<char>), V),
> {
    Seq::new(entries.len(), |i: int| (entries[i].0@, entries[i].1))
}

/// A map from texts that keeps the order of insertion for walking.
#[derive(Debug)]
pub struct TextMap<V> {
    index: AHashMap<String, u64>,
    entries: Vec<(String, V)>,
}

impl<V> View for TextMap<V> {
    type V = Map<Seq<char>, V>;

    closed spec fn view(&self) -> Map<Seq<char>, V> {
        map_of(text_entries(self.entries@))
    }
}

impl<V> TextMap<V> {
    #[verifier::type_invariant]
    spec fn indexed(self) -> bool {
        leads(text_slots(self.index), text_entries(self.entries@))
    }

    pub fn new() -> (r: TextMap<V>)
        ensures
            r@ == Map::<Seq<char>, V>::empty(),
    {
        let r = TextMap { index: text_index_new(), entries: Vec::new() };
        assert(r@ =~= Map::<Seq<char>, V>::empty());
        r
    }

    /// The entries, in the order in which their keys were first inserted.
    pub fn entries(&self) -> (r: &Vec<(String, V)>)
        ensures
            distinct_keys(text_entries(r@)),
            map_of(text_entries(r@)) == self@,
    {
        proof {
            use_type_invariant(self);
        }
        &self.entries
    }

    pub fn len(&self) -> (r: usize)
        ensures
            r == self@.dom().len(),
            self@.dom().finite(),
    {
        proof {
            use_type_invariant(self);
            lemma_map_len(text_entries(self.entries@));
        }
        self.entries.len()
    }

    pub fn get(&self, key: &str) -> (r: Option<&V>)
        ensures
            r == (if self@.dom().contains(key@) {
                Some(&self@[key@])
            } else {
                None
            }),
    {
        proof {
            use_type_invariant(self);
        }
        let ghost views = text_entries(self.entries@);
        match text_index_get(&self.index, key) {
            Some(slot) => {
                proof {
                    assert(self.entries@.len() == self.entries.len());
                    let i = key_position(views, key@);
                    assert(views[i].0 == key@);
                    lemma_key_position(views, i);
                }
                Some(&self.entries[slot as usize].1)
            },
            None => None,
        }
    }

    pub fn contains(&self, key: &str) -> (r: bool)
        ensures
            r == self@.dom().contains(key@),
    {
        self.get(key).is_some()
    }

    /// Sets the value of a key and hands out the value that it had.
    pub fn insert(&mut self, key: &str, value: V) -> (r: Option<V>)
        ensures
            r == entry(old(self)@, key@),
            final(self)@ == old(self)@.insert(key@, value),
    {
        proof {
            use_type_invariant(&*self);
        }
        let mut taken: TextMap<V> = TextMap::new();
        core::mem::swap(self, &mut taken);
        proof {
            use_type_invariant(&taken);
        }
        let TextMap { mut index, mut entries } = taken;
        let ghost views = text_entries(entries@);
        match text_index_get(&index, key) {
            Some(slot) => {
                let i: usize = slot as usize;
                proof {
                    assert(entries@.len() == entries.len());
                    let k = key_position(views, key@);
                    assert(views[k].0 == key@);
                    assert(i == k);
                    lemma_key_position(views, k);
                    lemma_replaced(text_slots(index), views, i as int, value);
                }
                let mut other: V = value;
                core::mem::swap(&mut entries[i].1, &mut other);
                assert(text_entries(entries@) =~= views.update(i as int, (key@, value)));
                *self = TextMap { index, entries };
                Some(other)
            },
            None => {
                proof {
                    assert(entries@.len() == entries.len());
                    lemma_pushed(text_slots(index), views, key@, value);
                }
                text_index_insert(&mut index, key, entries.len() as u64);
                entries.push((key.to_owned(), value));
                assert(text_entries(entries@) =~= views.push((key@, value)));
                *self = TextMap { index, entries };
                None
            },
        }
    }
}

/// Entries with distinct keys are as many as the keys of their map.
proof fn lemma_map_len<K, V>(entries: Seq<(K, V)>)
    requires
        distinct_keys(entries),
    ensures
        map_of(entries).dom().finite(),
        map_of(entries).dom().len() == entries.len(),
    decreases entries.len(),
{
    if entries.len() == 0 {
        assert(map_of(entries).dom() =~= Set::<K>::empty());
    } else {
        let head = entries.drop_last();
        let n = entries.len() - 1;
        assert(distinct_keys(head)) by {
            assert forall|i: int, j: int| 0 <= i < j < head.len() implies (
            #[trigger] head[i]).0 != (#[trigger] head[j]).0 by {
                assert(entries[i].0 != entries[j].0);
            }
        }
        lemma_map_len(head);
        let key = entries[n].0;
        assert(!has_key(head, key)) by {
            if has_key(head, key) {
                let i = key_position(head, key);
                assert(head[i].0 == key);
                assert(entries[i].0 != entries[n].0);
            }
        }
        assert forall|k: K| #[trigger] map_of(entries).dom().contains(k) <==> map_of(
            head,
        ).dom().insert(key).contains(k) by {
            if has_key(entries, k) {
                let i = key_position(entries, k);
                assert(entries[i].0 == k);
                if i < n {
                    assert(head[i].0 == k);
                }
            }
            if has_key(head, k) {
                let i = key_position(head, k);
                assert(head[i].0 == k);
                assert(entries[i].0 == k);
            }
            assert(entries[n].0 == key);
        }
        assert(map_of(entries).dom() =~= map_of(head).dom().insert(key));
    }
}

/// A map from instruments that keeps the order of insertion for walking.
#[derive(Debug)]
pub struct InstrumentMap<V> {
    index: AHashMap<(String, String), u64>,
    entries: Vec<(InstrumentId, V)>,
}

impl<V> View for InstrumentMap<V> {
    type V = Map<(Seq<char>, Seq<char>), V>;

    closed spec fn view(&self) -> Map<(Seq<char>, Seq<char>), V> {
        map_of(instrument_entries(self.entries@))
    }
}

impl<V> InstrumentMap<V> {
    #[verifier::type_invariant]
    spec fn indexed(self) -> bool {
        leads(instrument_slots(self.index), instrument_entries(self.entries@))
    }

    pub fn new() -> (r: InstrumentMap<V>)
        ensures
            r@ == Map::<(Seq<char>, Seq<char>), V>::empty(),
    {
        let r = InstrumentMap { index: instrument_index_new(), entries: Vec::new() };
        assert(r@ =~= Map::<(Seq<char>, Seq<char>), V>::empty());
        r
    }

    /// The entries, in the order in which their keys were first inserted.
    pub fn entries(&self) -> (r: &Vec<(InstrumentId, V)>)
        ensures
            distinct_keys(instrument_entries(r@)),
            map_of(instrument_entries(r@)) == self@,
    {
        proof {
            use_type_invariant(self);
        }
        &self.entries
    }

    pub fn len(&self) -> (r: usize)
        ensures
            r == self@.dom().len(),
            self@.dom().finite(),
    {
        proof {
            use_type_invariant(self);
            lemma_map_len(instrument_entries(self.entries@));
        }
        self.entries.len()
    }

    pub fn get(&self, key: &InstrumentId) -> (r: Option<&V>)
        ensures
            r == (if self@.dom().contains(key@) {
                Some(&self@[key@])
            } else {
                None
            }),
    {
        proof {
            use_type_invariant(self);
        }
        let ghost views = instrument_entries(self.entries@);
        match instrument_index_get(&self.index, key) {
            Some(slot) => {
                proof {
                    assert(self.entries@.len() == self.entries.len());
                    let i = key_position(views, key@);
                    assert(views[i].0 == key@);
                    lemma_key_position(views, i);
                }
                Some(&self.entries[slot as usize].1)
            },
            None => None,
        }
    }

    pub fn contains(&self, key: &InstrumentId) -> (r: bool)
        ensures
            r == self@.dom().contains(key@),
    {
        self.get(key).is_some()
    }

    /// Sets the value of a key and hands out the value that it had.
    pub fn insert(&mut self, key: &InstrumentId, value: V) -> (r: Option<V>)
        ensures
            r == entry(old(self)@, key@),
            final(self)@ == old(self)@.insert(key@, value),
    {
        proof {
            use_type_invariant(&*self);
        }
        let mut taken: InstrumentMap<V> = InstrumentMap::new();
        core::mem::swap(self, &mut taken);
        proof {
            use_type_invariant(&taken);
        }
        let InstrumentMap { mut index, mut entries } = taken;
        let ghost views = instrument_entries(entries@);
        match instrument_index_get(&index, key) {
            Some(slot) => {
                let i: usize = slot as usize;
                proof {
                    assert(entries@.len() == entries.len());
                    let k = key_position(views, key@);
                    assert(views[k].0 == key@);
                    assert(i == k);
                    lemma_key_position(views, k);
                    lemma_replaced(instrument_slots(index), views, i as int, value);
                }
                let mut other: V = value;
                core::mem::swap(&mut entries[i].1, &mut other);
                assert(instrument_entries(entries@) =~= views.update(i as int, (key@, value)));
                *self = InstrumentMap { index, entries };
                Some(other)
            },
            None => {
                proof {
                    assert(entries@.len() == entries.len());
                    lemma_pushed(instrument_slots(index), views, key@, value);
                }
                instrument_index_insert(&mut index, key, entries.len() as u64);
                entries.push((key.clone(), value));
                assert(instrument_entries(entries@) =~= views.push((key@, value)));
                *self = InstrumentMap { index, entries };
                None
            },
        }
    }
}

/// A set of texts.
#[derive(Debug)]
pub struct TextSet {
    set: AHashSet<String>,
}

impl View for TextSet {
    type V = Set<Seq<char>>;

    closed spec fn view(&self) -> Set<Seq<char>> {
        text_members(self.set)
    }
}

impl TextSet {
    pub fn new() -> (r: TextSet)
        ensures
            r@ == Set::<Seq<char>>::empty(),
    {
        TextSet { set: text_set_new() }
    }

    /// Adds a member and says whether it was missing.
    pub fn insert(&mut self, member: &str) -> (r: bool)
        ensures
            r == !old(self)@.contains(member@),
            final(self)@ == old(self)@.insert(member@),
    {
        text_set_insert(&mut self.set, member)
    }
}

/// The ids of a list.
pub open spec fn id_views(items: Seq<InstrumentId>) -> Seq<(Seq<char>, Seq<char>)> {
    Seq::new(items.len(), |i: int| items[i]@)
}

/// A list without repetition, with one element taken out.
proof fn lemma_removed<T>(views: Seq<T>, i: int)
    requires
        views.no_duplicates(),
        0 <= i < views.len(),
    ensures
        views.remove(i).no_duplicates(),
        views.remove(i).to_set() == views.to_set().remove(views[i]),
{
    let next = views.remove(i);
    assert forall|a: int, b: int|
        0 <= a < next.len() && 0 <= b < next.len() && a != b implies next[a] != next[b] by {
        let p = if a < i {
            a
        } else {
            a + 1
        };
        let q = if b < i {
            b
        } else {
            b + 1
        };
        assert(next[a] == views[p] && next[b] == views[q]);
    }
    assert forall|x: T| #[trigger] next.contains(x) <==> views.contains(x) && x != views[i] by {
        if next.contains(x) {
            let a = choose|a: int| 0 <= a < next.len() && next[a] == x;
            let p = if a < i {
                a
            } else {
                a + 1
            };
            assert(views[p] == x);
        }
        if views.contains(x) && x != views[i] {
            let p = choose|p: int| 0 <= p < views.len() && views[p] == x;
            let a = if p < i {
                p
            } else {
                p - 1
            };
            assert(next[a] == x);
        }
    }
    assert(next.to_set() =~= views.to_set().remove(views[i]));
}

/// A set of instruments that keeps the order of insertion for walking.
#[derive(Debug)]
pub struct InstrumentSet {
    set: AHashSet<(String, String)>,
    items: Vec<InstrumentId>,
}

impl View for InstrumentSet {
    type V = Set<(Seq<char>, Seq<char>)>;

    closed spec fn view(&self) -> Set<(Seq<char>, Seq<char>)> {
        instrument_members(self.set)
    }
}

impl InstrumentSet {
    #[verifier::type_invariant]
    spec fn listed(self) -> bool {
        &&& id_views(self.items@).no_duplicates()
        &&& instrument_members(self.set) == id_views(self.items@).to_set()
    }

    pub fn new() -> (r: InstrumentSet)
        ensures
            r@ == Set::<(Seq<char>, Seq<char>)>::empty(),
    {
        let items: Vec<InstrumentId> = Vec::new();
        assert(id_views(items@).to_set() =~= Set::<(Seq<char>, Seq<char>)>::empty());
        InstrumentSet { set: instrument_set_new(), items }
    }

    pub fn contains(&self, id: &InstrumentId) -> (r: bool)
        ensures
            r == self@.contains(id@),
    {
        instrument_set_contains(&self.set, id)
    }

    /// The members, in the order of insertion.
    pub fn items(&self) -> (r: &Vec<InstrumentId>)
        ensures
            id_views(r@).no_duplicates(),
            id_views(r@).to_set() == self@,
    {
        proof {
            use_type_invariant(self);
        }
        &self.items
    }

    /// Adds a member and says whether it was missing.
    pub fn insert(&mut self, id: &InstrumentId) -> (r: bool)
        ensures
            r == !old(self)@.contains(id@),
            final(self)@ == old(self)@.insert(id@),
    {
        let mut taken: InstrumentSet = InstrumentSet::new();
        core::mem::swap(self, &mut taken);
        proof {
            use_type_invariant(&taken);
        }
        let InstrumentSet { mut set, mut items } = taken;
        let ghost views = id_views(items@);
        let added: bool = instrument_set_insert(&mut set, id);
        if added {
            items.push(id.clone());
            proof {
                let next = id_views(items@);
                assert(next =~= views.push(id@));
                assert forall|x: (Seq<char>, Seq<char>)| #[trigger]
                    next.contains(x) <==> views.contains(x) || x == id@ by {
                    if views.contains(x) {
                        let i = choose|i: int| 0 <= i < views.len() && views[i] == x;
                        assert(next[i] == x);
                    }
                    assert(next[views.len() as int] == id@);
                }
                assert(next.to_set() =~= views.to_set().insert(id@));
                assert(!views.contains(id@));
            }
        } else {
            assert(views.to_set().insert(id@) =~= views.to_set());
        }
        *self = InstrumentSet { set, items };
        added
    }

    /// Takes a member out and says whether it was there.
    pub fn remove(&mut self, id: &InstrumentId) -> (r: bool)
        ensures
            r == old(self)@.contains(id@),
            final(self)@ == old(self)@.remove(id@),
    {
        let mut taken: InstrumentSet = InstrumentSet::new();
        core::mem::swap(self, &mut taken);
        proof {
            use_type_invariant(&taken);
        }
        let InstrumentSet { mut set, mut items } = taken;
        let ghost views = id_views(items@);
        let removed: bool = instrument_set_remove(&mut set, id);
        if removed {
            let mut i: usize = 0;
            while i < items.len() && !items[i].same(id)
                invariant
                    i <= items@.len(),
                    views == id_views(items@),
                    forall|k: int| 0 <= k < i ==> #[trigger] views[k] != id@,
                decreases items@.len() - i,
            {
                assert(views[i as int] != id@);
                i += 1;
            }
            proof {
                assert(views.to_set().contains(id@));
                let k = choose|k: int| 0 <= k < views.len() && views[k] == id@;
                assert(views[k] == id@);
                assert(i < items@.len());
                assert(views[i as int] == id@);
            }
            let _ = items.remove(i);
            proof {
                lemma_removed(views, i as int);
                assert(id_views(items@) =~= views.remove(i as int));
            }
        } else {
            proof {
                assert(instrument_members(set) =~= views.to_set());
            }
        }
        *self = InstrumentSet { set, items };
        removed
    }

    /// Takes all members out, in the order of insertion.
    pub fn drain(&mut self) -> (r: Vec<InstrumentId>)
        ensures
            id_views(r@).no_duplicates(),
            id_views(r@).to_set() == old(self)@,
            final(self)@ == Set::<(Seq<char>, Seq<char>)>::empty(),
    {
        let mut taken: InstrumentSet = InstrumentSet::new();
        core::mem::swap(self, &mut taken);
        proof {
            use_type_invariant(&taken);
        }
        let InstrumentSet { set, items } = taken;
        items
    }
}

/// A list from its end to its start.
pub fn reversed<T>(items: Vec<T>) -> (r: Vec<T>)
    ensures
        r@ == items@.reverse(),
{
    let ghost all = items@;
    let mut rest: Vec<T> = items;
    let mut r: Vec<T> = Vec::new();
    while rest.len() > 0
        invariant
            all == rest@ + r@.reverse(),
        decreases rest.len(),
    {
        if let Some(item) = rest.pop() {
            r.push(item);
        }
        assert(all =~= rest@ + r@.reverse());
    }
    assert(r@ =~= all.reverse());
    r
}

} // verus!
