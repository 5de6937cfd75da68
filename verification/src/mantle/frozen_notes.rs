//! The notes that channels hold frozen: on the ledger, but not to be spent.

use vstd::prelude::*;

use crate::mantle::maps::NoteMap;
use crate::mantle::primitives::{Note, NoteId};

verus! {

/// Why a frozen note could not be handled.
#[derive(Debug, Clone, Copy, PartialEq, Eq)]
pub enum Error {
    NoteDoesNotExist(NoteId),
    NoteNotFrozen(NoteId),
}

/// The frozen notes by identifier.
#[derive(Debug, PartialEq, Eq)]
pub struct FrozenNotes {
    frozen_notes: NoteMap,
}

impl View for FrozenNotes {
    type V = Map<NoteId, Note>;

    closed spec fn view(&self) -> Map<NoteId, Note> {
        self.frozen_notes@
    }
}

impl Clone for FrozenNotes {
    fn clone(&self) -> (r: Self)
        ensures
            r@ == self@,
    {
        Self { frozen_notes: self.frozen_notes.clone() }
    }
}

impl Default for FrozenNotes {
    fn default() -> (r: Self)
        ensures
            r@ == Map::<NoteId, Note>::empty(),
    {
        Self::new()
    }
}

impl FrozenNotes {
    /// No note is frozen.
    #[must_use]
    pub fn new() -> (r: Self)
        ensures
            r@ == Map::<NoteId, Note>::empty(),
    {
        Self { frozen_notes: NoteMap::new() }
    }

    /// The frozen note with this identifier.
    #[must_use]
    pub fn get(&self, id: &NoteId) -> (r: Option<&Note>)
        ensures
            match r {
                Some(note) => self@.contains_key(*id) && *note == self@[*id],
                None => !self@.contains_key(*id),
            },
    {
        self.frozen_notes.get(id)
    }

    /// Whether the note with this identifier is frozen.
    #[must_use]
    pub fn contains(&self, id: &NoteId) -> (r: bool)
        ensures
            r == self@.contains_key(*id),
    {
        self.frozen_notes.contains_key(id)
    }

    /// The identifiers of the frozen notes, each once, in an order that differs
    /// from run to run.
    #[must_use]
    pub fn ids(&self) -> (r: Vec<NoteId>)
        ensures
            r@.no_duplicates(),
            r@.to_set() == self@.dom(),
    {
        self.frozen_notes.keys()
    }

    /// Freezes a note. This never fails.
    pub fn freeze(self, note: Note, note_id: &NoteId) -> (r: Result<Self, Error>)
        ensures
            r matches Ok(frozen) && frozen@ == self@.insert(*note_id, note),
    {
        Ok(Self { frozen_notes: self.frozen_notes.insert(*note_id, note) })
    }

    /// Takes a note out of the frozen ones and hands it back. If it is not
    /// frozen, nothing changes.
    pub fn unfreeze(&mut self, note_id: &NoteId) -> (r: Result<Note, Error>)
        ensures
            match r {
                Ok(note) => old(self)@.contains_key(*note_id) && note == old(self)@[*note_id]
                    && final(self)@ == old(self)@.remove(*note_id),
                Err(e) => !old(self)@.contains_key(*note_id) && e == Error::NoteNotFrozen(*note_id)
                    && final(self)@ == old(self)@,
            },
    {
        match self.frozen_notes.get(note_id) {
            Some(note) => {
                let note: Note = *note;
                self.frozen_notes = self.frozen_notes.remove(note_id);
                Ok(note)
            },
            None => Err(Error::NoteNotFrozen(*note_id)),
        }
    }
}

/// Unfreezing a note that was just frozen gives the note back, and leaves the
/// frozen notes as they were before, unless the identifier was taken already.
pub proof fn unfreeze_undoes_freeze(before: FrozenNotes, frozen: FrozenNotes, note: Note, id: NoteId)
    requires
        frozen@ == before@.insert(id, note),
        !before@.contains_key(id),
    ensures
        frozen@.contains_key(id),
        frozen@[id] == note,
        frozen@.remove(id) == before@,
{
    assert(frozen@.remove(id) =~= before@);
}

} // verus!
