//! The declarations on record, kept in the `rpds` crate's `HashTrieMapSync`.

use vstd::prelude::*;

use crate::sdp::{Declaration, DeclarationId, DeclarationView};

verus! {

/// Declarations by identifier.
#[verifier::external_body]
#[derive(Debug, PartialEq, Eq)]
pub struct Declarations {
    entries: rpds::HashTrieMapSync<[u8; 32], Declaration>,
}

/// The entries of [`Declarations`].
pub uninterp spec fn declaration_entries(map: Declarations) -> Map<DeclarationId, DeclarationView>;

/// `rpds::HashTrieMapSync::new_sync`: a map without entries.
#[verifier::external_body]
fn declaration_map_new() -> (r: Declarations)
    ensures
        declaration_entries(r) == (Map::<DeclarationId, DeclarationView>::empty()),
{
    Declarations { entries: rpds::HashTrieMapSync::new_sync() }
}

/// `rpds::HashTrieMap::get`: the value under the key, if there is one.
#[verifier::external_body]
fn declaration_map_get<'a>(map: &'a Declarations, key: &DeclarationId) -> (r: Option<
    &'a Declaration,
>)
    ensures
        match r {
            Some(declaration) => declaration_entries(*map).contains_key(*key) && declaration@
                == declaration_entries(*map)[*key],
            None => !declaration_entries(*map).contains_key(*key),
        },
{
    map.entries.get(key)
}

/// `rpds::HashTrieMap::insert`: the value under the key is the one given, every
/// other entry is as before.
#[verifier::external_body]
fn declaration_map_insert(map: &Declarations, key: DeclarationId, value: Declaration) -> (r:
    Declarations)
    ensures
        declaration_entries(r) == declaration_entries(*map).insert(key, value@),
{
    Declarations { entries: map.entries.insert(key, value) }
}

impl View for Declarations {
    type V = Map<DeclarationId, DeclarationView>;

    open spec fn view(&self) -> Map<DeclarationId, DeclarationView> {
        declaration_entries(*self)
    }
}

impl Declarations {
    /// No declarations.
    #[must_use]
    pub fn new() -> (r: Self)
        ensures
            r@ == Map::<DeclarationId, DeclarationView>::empty(),
    {
        declaration_map_new()
    }

    /// The declaration under `key`, if there is one.
    #[must_use]
    pub fn get(&self, key: &DeclarationId) -> (r: Option<&Declaration>)
        ensures
            match r {
                Some(declaration) => self@.contains_key(*key) && declaration@ == self@[*key],
                None => !self@.contains_key(*key),
            },
    {
        declaration_map_get(self, key)
    }

    /// Whether there is a declaration under `key`.
    #[must_use]
    pub fn contains_key(&self, key: &DeclarationId) -> (r: bool)
        ensures
            r == self@.contains_key(*key),
    {
        declaration_map_get(self, key).is_some()
    }

    /// The declarations with one more under `key`.
    #[must_use]
    pub fn insert(&self, key: DeclarationId, declaration: Declaration) -> (r: Self)
        ensures
            r@ == self@.insert(key, declaration@),
    {
        declaration_map_insert(self, key, declaration)
    }
}

} // verus!
