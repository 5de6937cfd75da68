//! The persistent hash maps of the ledger, kept in the `rpds` crate's
//! `HashTrieMapSync`.
//!
//! An operation leaves the map that it is called on as it was, and shares what
//! it can with the map that it returns.

use vstd::prelude::*;

use crate::mantle::primitives::{Note, NoteId, Utxo, ZkPublicKey};

verus! {

/// Notes by identifier.
#[verifier::external_body]
#[derive(Debug, PartialEq, Eq)]
pub struct NoteMap {
    entries: rpds::HashTrieMapSync<[u8; 32], Note>,
}

/// The entries of a [`NoteMap`].
pub uninterp spec fn note_entries(map: NoteMap) -> Map<NoteId, Note>;

/// `rpds::HashTrieMapSync::new_sync`: a map without entries.
#[verifier::external_body]
fn note_map_new() -> (r: NoteMap)
    ensures
        note_entries(r) == (Map::<NoteId, Note>::empty()),
{
    NoteMap { entries: rpds::HashTrieMapSync::new_sync() }
}

/// `rpds::HashTrieMap::clone`: a map with the same entries.
#[verifier::external_body]
fn note_map_clone(map: &NoteMap) -> (r: NoteMap)
    ensures
        note_entries(r) == note_entries(*map),
{
    NoteMap { entries: map.entries.clone() }
}

/// `rpds::HashTrieMap::get`: the value under the key, if there is one.
#[verifier::external_body]
fn note_map_get<'a>(map: &'a NoteMap, key: &NoteId) -> (r: Option<&'a Note>)
    ensures
        match r {
            Some(note) => note_entries(*map).contains_key(*key) && *note == note_entries(*map)[*key],
            None => !note_entries(*map).contains_key(*key),
        },
{
    map.entries.get(key)
}

/// `rpds::HashTrieMap::insert`: the value under the key is the one given, every
/// other entry is as before.
#[verifier::external_body]
fn note_map_insert(map: &NoteMap, key: NoteId, value: Note) -> (r: NoteMap)
    ensures
        note_entries(r) == note_entries(*map).insert(key, value),
{
    NoteMap { entries: map.entries.insert(key, value) }
}

/// `rpds::HashTrieMap::remove`: the key has no value, every other entry is as
/// before.
#[verifier::external_body]
fn note_map_remove(map: &NoteMap, key: &NoteId) -> (r: NoteMap)
    ensures
        note_entries(r) == note_entries(*map).remove(*key),
{
    NoteMap { entries: map.entries.remove(key) }
}

/// `rpds::HashTrieMap::keys`: hands out every key once. The hasher that each map
/// seeds decides the order, of which nothing is said.
#[verifier::external_body]
fn note_map_keys(map: &NoteMap) -> (r: Vec<NoteId>)
    ensures
        r@.no_duplicates(),
        r@.to_set() == note_entries(*map).dom(),
{
    map.entries.keys().copied().collect()
}

impl View for NoteMap {
    type V = Map<NoteId, Note>;

    open spec fn view(&self) -> Map<NoteId, Note> {
        note_entries(*self)
    }
}

impl Clone for NoteMap {
    fn clone(&self) -> (r: Self)
        ensures
            r@ == self@,
    {
        note_map_clone(self)
    }
}

impl NoteMap {
    #[must_use]
    pub fn new() -> (r: Self)
        ensures
            r@ == Map::<NoteId, Note>::empty(),
    {
        note_map_new()
    }

    /// The value under `key`, if there is one.
    #[must_use]
    pub fn get(&self, key: &NoteId) -> (r: Option<&Note>)
        ensures
            match r {
                Some(note) => self@.contains_key(*key) && *note == self@[*key],
                None => !self@.contains_key(*key),
            },
    {
        note_map_get(self, key)
    }

    /// Whether there is a value under `key`.
    #[must_use]
    pub fn contains_key(&self, key: &NoteId) -> (r: bool)
        ensures
            r == self@.contains_key(*key),
    {
        note_map_get(self, key).is_some()
    }

    /// Every key once, in an order that differs from run to run.
    #[must_use]
    pub fn keys(&self) -> (r: Vec<NoteId>)
        ensures
            r@.no_duplicates(),
            r@.to_set() == self@.dom(),
    {
        note_map_keys(self)
    }

    /// The map with `value` under `key`.
    #[must_use]
    pub fn insert(&self, key: NoteId, value: Note) -> (r: Self)
        ensures
            r@ == self@.insert(key, value),
    {
        note_map_insert(self, key, value)
    }

    /// The map without a value under `key`.
    #[must_use]
    pub fn remove(&self, key: &NoteId) -> (r: Self)
        ensures
            r@ == self@.remove(*key),
    {
        note_map_remove(self, key)
    }
}

/// Unspent outputs by the identifier of their note.
#[verifier::external_body]
#[derive(Debug, PartialEq, Eq)]
pub struct UtxoMap {
    entries: rpds::HashTrieMapSync<[u8; 32], Utxo>,
}

/// The entries of a [`UtxoMap`].
pub uninterp spec fn utxo_entries(map: UtxoMap) -> Map<NoteId, Utxo>;

/// `rpds::HashTrieMapSync::new_sync`: a map without entries.
#[verifier::external_body]
fn utxo_map_new() -> (r: UtxoMap)
    ensures
        utxo_entries(r) == (Map::<NoteId, Utxo>::empty()),
{
    UtxoMap { entries: rpds::HashTrieMapSync::new_sync() }
}

/// `rpds::HashTrieMap::clone`: a map with the same entries.
#[verifier::external_body]
fn utxo_map_clone(map: &UtxoMap) -> (r: UtxoMap)
    ensures
        utxo_entries(r) == utxo_entries(*map),
{
    UtxoMap { entries: map.entries.clone() }
}

/// `rpds::HashTrieMap::get`: the value under the key, if there is one.
#[verifier::external_body]
fn utxo_map_get(map: &UtxoMap, key: &NoteId) -> (r: Option<Utxo>)
    ensures
        r == utxo_entries(*map).get(*key),
{
    map.entries.get(key).copied()
}

/// `rpds::HashTrieMap::insert`: the value under the key is the one given, every
/// other entry is as before.
#[verifier::external_body]
fn utxo_map_insert(map: &UtxoMap, key: NoteId, value: Utxo) -> (r: UtxoMap)
    ensures
        utxo_entries(r) == utxo_entries(*map).insert(key, value),
{
    UtxoMap { entries: map.entries.insert(key, value) }
}

/// `rpds::HashTrieMap::remove`: the key has no value, every other entry is as
/// before.
#[verifier::external_body]
fn utxo_map_remove(map: &UtxoMap, key: &NoteId) -> (r: UtxoMap)
    ensures
        utxo_entries(r) == utxo_entries(*map).remove(*key),
{
    UtxoMap { entries: map.entries.remove(key) }
}

impl View for UtxoMap {
    type V = Map<NoteId, Utxo>;

    open spec fn view(&self) -> Map<NoteId, Utxo> {
        utxo_entries(*self)
    }
}

impl Clone for UtxoMap {
    fn clone(&self) -> (r: Self)
        ensures
            r@ == self@,
    {
        utxo_map_clone(self)
    }
}

impl UtxoMap {
    #[must_use]
    pub fn new() -> (r: Self)
        ensures
            r@ == Map::<NoteId, Utxo>::empty(),
    {
        utxo_map_new()
    }

    /// The value under `key`, if there is one.
    #[must_use]
    pub fn get(&self, key: &NoteId) -> (r: Option<Utxo>)
        ensures
            r == self@.get(*key),
    {
        utxo_map_get(self, key)
    }

    /// Whether there is a value under `key`.
    #[must_use]
    pub fn contains_key(&self, key: &NoteId) -> (r: bool)
        ensures
            r == self@.contains_key(*key),
    {
        utxo_map_get(self, key).is_some()
    }

    /// The map with `value` under `key`.
    #[must_use]
    pub fn insert(&self, key: NoteId, value: Utxo) -> (r: Self)
        ensures
            r@ == self@.insert(key, value),
    {
        utxo_map_insert(self, key, value)
    }

    /// The map without a value under `key`.
    #[must_use]
    pub fn remove(&self, key: &NoteId) -> (r: Self)
        ensures
            r@ == self@.remove(*key),
    {
        utxo_map_remove(self, key)
    }
}

/// Identifiers of frozen notes by the epoch that minted them and the sequencer
/// that they were minted to.
#[verifier::external_body]
#[derive(Debug, PartialEq, Eq)]
pub struct FrozenNoteMap {
    entries: rpds::HashTrieMapSync<(u32, [u8; 32]), NoteId>,
}

/// The entries of a [`FrozenNoteMap`].
pub uninterp spec fn frozen_entries(map: FrozenNoteMap) -> Map<(u32, ZkPublicKey), NoteId>;

/// `rpds::HashTrieMapSync::new_sync`: a map without entries.
#[verifier::external_body]
fn frozen_map_new() -> (r: FrozenNoteMap)
    ensures
        frozen_entries(r) == (Map::<(u32, ZkPublicKey), NoteId>::empty()),
{
    FrozenNoteMap { entries: rpds::HashTrieMapSync::new_sync() }
}

/// `rpds::HashTrieMap::clone`: a map with the same entries.
#[verifier::external_body]
fn frozen_map_clone(map: &FrozenNoteMap) -> (r: FrozenNoteMap)
    ensures
        frozen_entries(r) == frozen_entries(*map),
{
    FrozenNoteMap { entries: map.entries.clone() }
}

/// `rpds::HashTrieMap::get`: the value under the key, if there is one.
#[verifier::external_body]
fn frozen_map_get(map: &FrozenNoteMap, key: &(u32, ZkPublicKey)) -> (r: Option<NoteId>)
    ensures
        r == frozen_entries(*map).get(*key),
{
    map.entries.get(key).copied()
}

/// `rpds::HashTrieMap::insert`: the value under the key is the one given, every
/// other entry is as before.
#[verifier::external_body]
fn frozen_map_insert(map: &FrozenNoteMap, key: (u32, ZkPublicKey), value: NoteId) -> (r: FrozenNoteMap)
    ensures
        frozen_entries(r) == frozen_entries(*map).insert(key, value),
{
    FrozenNoteMap { entries: map.entries.insert(key, value) }
}

/// `rpds::HashTrieMap::remove`: the key has no value, every other entry is as
/// before.
#[verifier::external_body]
fn frozen_map_remove(map: &FrozenNoteMap, key: &(u32, ZkPublicKey)) -> (r: FrozenNoteMap)
    ensures
        frozen_entries(r) == frozen_entries(*map).remove(*key),
{
    FrozenNoteMap { entries: map.entries.remove(key) }
}

impl View for FrozenNoteMap {
    type V = Map<(u32, ZkPublicKey), NoteId>;

    open spec fn view(&self) -> Map<(u32, ZkPublicKey), NoteId> {
        frozen_entries(*self)
    }
}

impl Clone for FrozenNoteMap {
    fn clone(&self) -> (r: Self)
        ensures
            r@ == self@,
    {
        frozen_map_clone(self)
    }
}

impl FrozenNoteMap {
    #[must_use]
    pub fn new() -> (r: Self)
        ensures
            r@ == Map::<(u32, ZkPublicKey), NoteId>::empty(),
    {
        frozen_map_new()
    }

    /// The value under `key`, if there is one.
    #[must_use]
    pub fn get(&self, key: &(u32, ZkPublicKey)) -> (r: Option<NoteId>)
        ensures
            r == self@.get(*key),
    {
        frozen_map_get(self, key)
    }

    /// Whether there is a value under `key`.
    #[must_use]
    pub fn contains_key(&self, key: &(u32, ZkPublicKey)) -> (r: bool)
        ensures
            r == self@.contains_key(*key),
    {
        frozen_map_get(self, key).is_some()
    }

    /// The map with `value` under `key`.
    #[must_use]
    pub fn insert(&self, key: (u32, ZkPublicKey), value: NoteId) -> (r: Self)
        ensures
            r@ == self@.insert(key, value),
    {
        frozen_map_insert(self, key, value)
    }

    /// The map without a value under `key`.
    #[must_use]
    pub fn remove(&self, key: &(u32, ZkPublicKey)) -> (r: Self)
        ensures
            r@ == self@.remove(*key),
    {
        frozen_map_remove(self, key)
    }

    /// Every entry once, in an order that differs from run to run.
    #[must_use]
    pub fn entries(&self) -> (r: Vec<((u32, ZkPublicKey), NoteId)>)
        ensures
            lists(r@, self@),
    {
        frozen_map_iter(self)
    }

    /// The number of entries.
    #[must_use]
    pub fn size(&self) -> (r: usize)
        ensures
            self@.dom().finite(),
            r == self@.dom().len(),
    {
        let entries = frozen_map_iter(self);
        proof {
            lemma_listed_size(entries@, self@);
        }
        entries.len()
    }
}

/// `list` holds every entry of `map` once, and nothing else.
pub open spec fn lists(
    list: Seq<((u32, ZkPublicKey), NoteId)>,
    map: Map<(u32, ZkPublicKey), NoteId>,
) -> bool {
    &&& forall|i: int|
        0 <= i < list.len() ==> map.contains_key((#[trigger] list[i]).0) && map[list[i].0]
            == list[i].1
    &&& forall|i: int, j: int|
        0 <= i < j < list.len() ==> (#[trigger] list[i]).0 != (#[trigger] list[j]).0
    &&& forall|key: (u32, ZkPublicKey)| #[trigger]
        map.contains_key(key) ==> exists|i: int| 0 <= i < list.len() && (#[trigger] list[i]).0 == key
}

/// `rpds::HashTrieMap::iter`: hands out every entry once. The hasher that each
/// map seeds decides the order, of which nothing is said.
#[verifier::external_body]
fn frozen_map_iter(map: &FrozenNoteMap) -> (r: Vec<((u32, ZkPublicKey), NoteId)>)
    ensures
        lists(r@, frozen_entries(*map)),
{
    map.entries.iter().map(|(key, id)| (*key, *id)).collect()
}

/// A map has as many entries as a list of them.
pub proof fn lemma_listed_size(
    list: Seq<((u32, ZkPublicKey), NoteId)>,
    map: Map<(u32, ZkPublicKey), NoteId>,
)
    requires
        lists(list, map),
    ensures
        map.dom().finite(),
        map.dom().len() == list.len(),
{
    let keys = list.map_values(|entry: ((u32, ZkPublicKey), NoteId)| entry.0);
    assert(keys.no_duplicates());
    assert forall|key: (u32, ZkPublicKey)|
        keys.to_set().contains(key) <==> map.dom().contains(key) by {
        if map.dom().contains(key) {
            assert(map.contains_key(key));
            let i = choose|i: int| 0 <= i < list.len() && (#[trigger] list[i]).0 == key;
            assert(keys[i] == key);
        }
        if keys.contains(key) {
            let i = choose|i: int| 0 <= i < keys.len() && keys[i] == key;
            assert(map.contains_key(list[i].0));
        }
    }
    assert(keys.to_set() =~= map.dom());
    keys.unique_seq_to_set();
}

} // verus!
