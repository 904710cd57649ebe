//! Concurrent maps of `dashmap`. Whoever changes one here holds it alone, so that its content is a
//! value like any other.

use dashmap::DashMap;
use vstd::prelude::*;

use crate::collections;
use crate::model::{Instrument, InstrumentId};

verus! {

/// A concurrent hash map.
#[verifier::external_type_specification]
#[verifier::external_body]
#[verifier::reject_recursive_types(K)]
#[verifier::reject_recursive_types(V)]
#[verifier::reject_recursive_types(S)]
pub struct ExDashMap<K, V, S>(DashMap<K, V, S>);

/// The texts that a map holds, by symbol and venue.
pub uninterp spec fn held_texts(map: DashMap<(String, String), String>) -> Map<
    (Seq<char>, Seq<char>),
    String,
>;

/// The symbols and venues that a map holds, by text.
pub uninterp spec fn held_ids(map: DashMap<String, (String, String)>) -> Map<
    Seq<char>,
    (String, String),
>;

/// The symbols and venues that a map holds as keys.
pub uninterp spec fn held_keys(map: DashMap<(String, String), ()>) -> Set<(Seq<char>, Seq<char>)>;

/// The positions that a map holds, by symbol and venue.
pub uninterp spec fn held_slots(map: DashMap<(String, String), u64>) -> Map<
    (Seq<char>, Seq<char>),
    u64,
>;

/// `DashMap::new`: no entries.
#[verifier::external_body]
fn texts_new() -> (r: DashMap<(String, String), String>)
    ensures
        held_texts(r).dom() == Set::<(Seq<char>, Seq<char>)>::empty(),
{
    DashMap::new()
}

/// `DashMap::insert`: sets the entry of this key.
#[verifier::external_body]
fn texts_insert(map: &mut DashMap<(String, String), String>, id: &InstrumentId, value: String)
    ensures
        held_texts(*final(map)) == held_texts(*old(map)).insert(id@, value),
{
    map.insert((id.symbol.clone(), id.venue.clone()), value);
}

/// `DashMap::contains_key`.
#[verifier::external_body]
fn texts_contain(map: &DashMap<(String, String), String>, id: &InstrumentId) -> (r: bool)
    ensures
        r == held_texts(*map).dom().contains(id@),
{
    map.contains_key(&(id.symbol.clone(), id.venue.clone()))
}

/// `DashMap::clear`: no entries are left.
#[verifier::external_body]
fn texts_clear(map: &mut DashMap<(String, String), String>)
    ensures
        held_texts(*final(map)).dom() == Set::<(Seq<char>, Seq<char>)>::empty(),
{
    map.clear();
}

/// `DashMap::new`: no entries.
#[verifier::external_body]
fn ids_new() -> (r: DashMap<String, (String, String)>)
    ensures
        held_ids(r).dom() == Set::<Seq<char>>::empty(),
{
    DashMap::new()
}

/// `DashMap::insert`: sets the entry of this key.
#[verifier::external_body]
fn ids_insert(map: &mut DashMap<String, (String, String)>, key: &str, value: (String, String))
    ensures
        held_ids(*final(map)) == held_ids(*old(map)).insert(key@, value),
{
    map.insert(key.to_owned(), value);
}

/// `DashMap::get`: a copy of the value of the entry with this key.
#[verifier::external_body]
fn ids_get(map: &DashMap<String, (String, String)>, key: &str) -> (r: Option<(String, String)>)
    ensures
        r == collections::entry(held_ids(*map), key@),
{
    map.get(key).map(|entry| entry.value().clone())
}

/// `DashMap::clear`: no entries are left.
#[verifier::external_body]
fn ids_clear(map: &mut DashMap<String, (String, String)>)
    ensures
        held_ids(*final(map)).dom() == Set::<Seq<char>>::empty(),
{
    map.clear();
}

/// `DashMap::new`: no entries.
#[verifier::external_body]
fn keys_new() -> (r: DashMap<(String, String), ()>)
    ensures
        held_keys(r) == Set::<(Seq<char>, Seq<char>)>::empty(),
{
    DashMap::new()
}

/// `DashMap::insert`: adds the key.
#[verifier::external_body]
fn keys_insert(map: &mut DashMap<(String, String), ()>, id: &InstrumentId)
    ensures
        held_keys(*final(map)) == held_keys(*old(map)).insert(id@),
{
    map.insert((id.symbol.clone(), id.venue.clone()), ());
}

/// `DashMap::remove`: takes the key out.
#[verifier::external_body]
fn keys_remove(map: &mut DashMap<(String, String), ()>, id: &InstrumentId)
    ensures
        held_keys(*final(map)) == held_keys(*old(map)).remove(id@),
{
    map.remove(&(id.symbol.clone(), id.venue.clone()));
}

/// `DashMap::contains_key`.
#[verifier::external_body]
fn keys_contain(map: &DashMap<(String, String), ()>, id: &InstrumentId) -> (r: bool)
    ensures
        r == held_keys(*map).contains(id@),
{
    map.contains_key(&(id.symbol.clone(), id.venue.clone()))
}

/// `DashMap::clear`: no keys are left.
#[verifier::external_body]
fn keys_clear(map: &mut DashMap<(String, String), ()>)
    ensures
        held_keys(*final(map)) == Set::<(Seq<char>, Seq<char>)>::empty(),
{
    map.clear();
}

/// `DashMap::new`: no entries.
#[verifier::external_body]
fn slots_new() -> (r: DashMap<(String, String), u64>)
    ensures
        held_slots(r).dom() == Set::<(Seq<char>, Seq<char>)>::empty(),
{
    DashMap::new()
}

/// `DashMap::insert`: sets the entry of this key.
#[verifier::external_body]
fn slots_insert(map: &mut DashMap<(String, String), u64>, id: &InstrumentId, slot: u64)
    ensures
        held_slots(*final(map)) == held_slots(*old(map)).insert(id@, slot),
{
    map.insert((id.symbol.clone(), id.venue.clone()), slot);
}

/// `DashMap::get`: the value of the entry with this key.
#[verifier::external_body]
fn slots_get(map: &DashMap<(String, String), u64>, id: &InstrumentId) -> (r: Option<u64>)
    ensures
        r == collections::entry(held_slots(*map), id@),
{
    map.get(&(id.symbol.clone(), id.venue.clone())).map(|entry| *entry.value())
}

/// Texts by instrument.
#[derive(Debug)]
pub struct SharedTexts {
    map: DashMap<(String, String), String>,
}

impl View for SharedTexts {
    type V = Map<(Seq<char>, Seq<char>), String>;

    closed spec fn view(&self) -> Map<(Seq<char>, Seq<char>), String> {
        held_texts(self.map)
    }
}

impl SharedTexts {
    pub fn new() -> (r: SharedTexts)
        ensures
            r@ == Map::<(Seq<char>, Seq<char>), String>::empty(),
    {
        let r = SharedTexts { map: texts_new() };
        assert(r@ =~= Map::<(Seq<char>, Seq<char>), String>::empty());
        r
    }

    pub fn insert(&mut self, id: &InstrumentId, value: String)
        ensures
            final(self)@ == old(self)@.insert(id@, value),
    {
        texts_insert(&mut self.map, id, value);
    }

    pub fn contains(&self, id: &InstrumentId) -> (r: bool)
        ensures
            r == self@.dom().contains(id@),
    {
        texts_contain(&self.map, id)
    }

    pub fn clear(&mut self)
        ensures
            final(self)@ == Map::<(Seq<char>, Seq<char>), String>::empty(),
    {
        texts_clear(&mut self.map);
        assert(self@ =~= Map::<(Seq<char>, Seq<char>), String>::empty());
    }
}

/// Instruments by text.
#[derive(Debug)]
pub struct SharedIds {
    map: DashMap<String, (String, String)>,
}

/// The instrument of a symbol and a venue.
pub open spec fn id_of(parts: (String, String)) -> InstrumentId {
    InstrumentId { symbol: parts.0, venue: parts.1 }
}

impl View for SharedIds {
    type V = Map<Seq<char>, InstrumentId>;

    closed spec fn view(&self) -> Map<Seq<char>, InstrumentId> {
        held_ids(self.map).map_values(|parts: (String, String)| id_of(parts))
    }
}

impl SharedIds {
    pub fn new() -> (r: SharedIds)
        ensures
            r@ == Map::<Seq<char>, InstrumentId>::empty(),
    {
        let r = SharedIds { map: ids_new() };
        assert(r@ =~= Map::<Seq<char>, InstrumentId>::empty());
        r
    }

    pub fn insert(&mut self, key: &str, id: InstrumentId)
        ensures
            final(self)@ == old(self)@.insert(key@, id),
    {
        let ghost before = self@;
        let InstrumentId { symbol, venue } = id;
        ids_insert(&mut self.map, key, (symbol, venue));
        assert(self@ =~= before.insert(key@, id));
    }

    pub fn get(&self, key: &str) -> (r: Option<InstrumentId>)
        ensures
            r == collections::entry(self@, key@),
    {
        match ids_get(&self.map, key) {
            Some((symbol, venue)) => Some(InstrumentId { symbol, venue }),
            None => None,
        }
    }

    pub fn clear(&mut self)
        ensures
            final(self)@ == Map::<Seq<char>, InstrumentId>::empty(),
    {
        ids_clear(&mut self.map);
        assert(self@ =~= Map::<Seq<char>, InstrumentId>::empty());
    }
}

/// A set of instruments.
#[derive(Debug)]
pub struct SharedSet {
    map: DashMap<(String, String), ()>,
}

impl View for SharedSet {
    type V = Set<(Seq<char>, Seq<char>)>;

    closed spec fn view(&self) -> Set<(Seq<char>, Seq<char>)> {
        held_keys(self.map)
    }
}

impl SharedSet {
    pub fn new() -> (r: SharedSet)
        ensures
            r@ == Set::<(Seq<char>, Seq<char>)>::empty(),
    {
        SharedSet { map: keys_new() }
    }

    pub fn insert(&mut self, id: &InstrumentId)
        ensures
            final(self)@ == old(self)@.insert(id@),
    {
        keys_insert(&mut self.map, id);
    }

    pub fn remove(&mut self, id: &InstrumentId)
        ensures
            final(self)@ == old(self)@.remove(id@),
    {
        keys_remove(&mut self.map, id);
    }

    pub fn contains(&self, id: &InstrumentId) -> (r: bool)
        ensures
            r == self@.contains(id@),
    {
        keys_contain(&self.map, id)
    }

    pub fn clear(&mut self)
        ensures
            final(self)@ == Set::<(Seq<char>, Seq<char>)>::empty(),
    {
        keys_clear(&mut self.map);
    }
}

/// Instruments by id.
#[derive(Debug)]
pub struct SharedInstruments {
    index: DashMap<(String, String), u64>,
    entries: Vec<(InstrumentId, Instrument)>,
}

impl View for SharedInstruments {
    type V = Map<(Seq<char>, Seq<char>), Instrument>;

    closed spec fn view(&self) -> Map<(Seq<char>, Seq<char>), Instrument> {
        collections::map_of(collections::instrument_entries(self.entries@))
    }
}

impl SharedInstruments {
    #[verifier::type_invariant]
    spec fn indexed(self) -> bool {
        collections::leads(
            held_slots(self.index),
            collections::instrument_entries(self.entries@),
        )
    }

    pub fn new() -> (r: SharedInstruments)
        ensures
            r@ == Map::<(Seq<char>, Seq<char>), Instrument>::empty(),
    {
        let r = SharedInstruments { index: slots_new(), entries: Vec::new() };
        assert(r@ =~= Map::<(Seq<char>, Seq<char>), Instrument>::empty());
        r
    }

    pub fn get(&self, id: &InstrumentId) -> (r: Option<&Instrument>)
        ensures
            r == (if self@.dom().contains(id@) {
                Some(&self@[id@])
            } else {
                None
            }),
    {
        proof {
            use_type_invariant(self);
        }
        let ghost views = collections::instrument_entries(self.entries@);
        match slots_get(&self.index, id) {
            Some(slot) => {
                proof {
                    assert(self.entries@.len() == self.entries.len());
                    let i = collections::key_position(views, id@);
                    assert(views[i].0 == id@);
                    collections::lemma_key_position(views, i);
                }
                Some(&self.entries[slot as usize].1)
            },
            None => None,
        }
    }

    /// Caches an instrument under its id.
    pub fn insert(&mut self, instrument: Instrument)
        ensures
            final(self)@ == old(self)@.insert(instrument.id@, instrument),
    {
        let mut taken: SharedInstruments = SharedInstruments::new();
        core::mem::swap(self, &mut taken);
        proof {
            use_type_invariant(&taken);
        }
        let SharedInstruments { mut index, mut entries } = taken;
        let ghost views = collections::instrument_entries(entries@);
        let id: InstrumentId = instrument.id.clone();
        match slots_get(&index, &id) {
            Some(slot) => {
                let i: usize = slot as usize;
                proof {
                    assert(entries@.len() == entries.len());
                    let k = collections::key_position(views, id@);
                    assert(views[k].0 == id@);
                    assert(i == k);
                    collections::lemma_key_position(views, k);
                    collections::lemma_replaced(held_slots(index), views, i as int, instrument);
                }
                entries[i].1 = instrument;
                assert(collections::instrument_entries(entries@) =~= views.update(
                    i as int,
                    (id@, instrument),
                ));
            },
            None => {
                proof {
                    assert(entries@.len() == entries.len());
                    collections::lemma_pushed(held_slots(index), views, id@, instrument);
                }
                slots_insert(&mut index, &id, entries.len() as u64);
                entries.push((id, instrument));
                assert(collections::instrument_entries(entries@) =~= views.push(
                    (id@, instrument),
                ));
            },
        }
        *self = SharedInstruments { index, entries };
    }
}

} // verus!
