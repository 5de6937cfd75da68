//! Turning frozen notes of a channel back into floating balance.

use vstd::prelude::*;

use crate::mantle::channel::Error;
use crate::mantle::frozen_notes::{self, FrozenNotes};
use crate::mantle::ledger::{InputsError, Utxos};
use crate::mantle::maps::FrozenNoteMap;
use crate::mantle::primitives::{Note, NoteId, Utxo, Value, ZkPublicKey};

verus! {

/// What the release of frozen notes changes: the channel's own notes, the notes
/// that are frozen for any channel, the ledger, and the channel's floating
/// balance.
#[derive(Debug, PartialEq, Eq)]
pub struct Reserve {
    pub frozen_note_map: FrozenNoteMap,
    pub frozen_notes: FrozenNotes,
    pub utxos: Utxos,
    pub floating_balance: Value,
}

/// What a [`Reserve`] says.
#[verifier::ext_equal]
pub struct ReserveView {
    pub frozen_note_map: Map<(u32, ZkPublicKey), NoteId>,
    pub frozen_notes: Map<NoteId, Note>,
    pub utxos: Map<NoteId, Utxo>,
    pub floating_balance: Value,
}

impl View for Reserve {
    type V = ReserveView;

    open spec fn view(&self) -> ReserveView {
        ReserveView {
            frozen_note_map: self.frozen_note_map@,
            frozen_notes: self.frozen_notes@,
            utxos: self.utxos@,
            floating_balance: self.floating_balance,
        }
    }
}

/// The reserve after the note under `key` is released: it is no longer the
/// channel's, nor frozen, nor on the ledger, and its value floats.
pub open spec fn released(reserve: ReserveView, key: (u32, ZkPublicKey)) -> ReserveView {
    let id = reserve.frozen_note_map[key];
    ReserveView {
        frozen_note_map: reserve.frozen_note_map.remove(key),
        frozen_notes: reserve.frozen_notes.remove(id),
        utxos: reserve.utxos.remove(id),
        floating_balance: (reserve.floating_balance + reserve.frozen_notes[id].value) as Value,
    }
}

/// Why the note under `key` cannot be released, if it cannot.
pub open spec fn release_fault(reserve: ReserveView, key: (u32, ZkPublicKey)) -> Option<Error> {
    let id = reserve.frozen_note_map[key];
    if !reserve.frozen_notes.contains_key(id) {
        Some(Error::FrozenNotes(frozen_notes::Error::NoteNotFrozen(id)))
    } else if !reserve.utxos.contains_key(id) {
        Some(Error::Inputs(InputsError::InexistingNote(id)))
    } else if reserve.floating_balance + reserve.frozen_notes[id].value > Value::MAX {
        Some(Error::BalanceOverflow)
    } else {
        None
    }
}

/// The release of the note under `key`. Where there is none, nothing changes.
pub open spec fn release_note(reserve: ReserveView, key: (u32, ZkPublicKey)) -> Result<
    ReserveView,
    Error,
> {
    if !reserve.frozen_note_map.contains_key(key) {
        Ok(reserve)
    } else {
        match release_fault(reserve, key) {
            Some(e) => Err(e),
            None => Ok(released(reserve, key)),
        }
    }
}

/// The release of one epoch's notes of the listed sequencers, in their order, up
/// to the first that cannot be released.
pub open spec fn release_epoch(
    reserve: ReserveView,
    epoch: u32,
    sequencers: Seq<ZkPublicKey>,
) -> Result<ReserveView, Error>
    decreases sequencers.len(),
{
    if sequencers.len() == 0 {
        Ok(reserve)
    } else {
        match release_epoch(reserve, epoch, sequencers.drop_last()) {
            Err(e) => Err(e),
            Ok(before) => release_note(before, (epoch, sequencers.last())),
        }
    }
}

/// The release of notes, epoch by epoch and back from `epoch`, until the
/// floating balance covers `amount`. Where the notes of the first epoch do not
/// cover it either, there is not enough.
pub open spec fn release_until(
    reserve: ReserveView,
    amount: Value,
    epoch: u32,
    sequencers: Seq<ZkPublicKey>,
) -> Result<ReserveView, Error>
    decreases epoch,
{
    if amount <= reserve.floating_balance {
        Ok(reserve)
    } else {
        match release_epoch(reserve, epoch, sequencers) {
            Err(e) => Err(e),
            Ok(after) => if epoch > 0 {
                release_until(after, amount, (epoch - 1) as u32, sequencers)
            } else if amount <= after.floating_balance {
                Ok(after)
            } else {
                Err(Error::InsufficientFunds)
            },
        }
    }
}

/// The release of the notes under the listed keys, in their order, up to the
/// first that cannot be released.
pub open spec fn release_list(reserve: ReserveView, keys: Seq<(u32, ZkPublicKey)>) -> Result<
    ReserveView,
    Error,
>
    decreases keys.len(),
{
    if keys.len() == 0 {
        Ok(reserve)
    } else {
        match release_list(reserve, keys.drop_last()) {
            Err(e) => Err(e),
            Ok(before) => release_note(before, keys.last()),
        }
    }
}

/// `order` holds each of `keys` once, and nothing else.
pub open spec fn orders(order: Seq<(u32, ZkPublicKey)>, keys: Set<(u32, ZkPublicKey)>) -> bool {
    order.no_duplicates() && order.to_set() == keys
}

impl Reserve {
    /// Releases the note under `key`, if there is one.
    pub fn release_note(&mut self, key: &(u32, ZkPublicKey)) -> (r: Result<(), Error>)
        ensures
            match r {
                Ok(()) => release_note(old(self)@, *key) == Ok::<ReserveView, Error>(final(self)@),
                Err(e) => release_note(old(self)@, *key) == Err::<ReserveView, Error>(e),
            },
    {
        let ghost before = self@;
        let id: NoteId = match self.frozen_note_map.get(key) {
            Some(id) => id,
            None => return Ok(()),
        };
        self.frozen_note_map = self.frozen_note_map.remove(key);
        let note: Note = match self.frozen_notes.unfreeze(&id) {
            Ok(note) => note,
            Err(e) => return Err(Error::FrozenNotes(e)),
        };
        match self.utxos.remove(&id) {
            Some((utxos, _)) => self.utxos = utxos,
            None => return Err(Error::Inputs(InputsError::InexistingNote(id))),
        }
        match self.floating_balance.checked_add(note.value) {
            Some(balance) => self.floating_balance = balance,
            None => return Err(Error::BalanceOverflow),
        }
        assert(self@ =~= released(before, *key));
        Ok(())
    }

    /// Releases the notes under the listed keys.
    pub fn release_list(&mut self, keys: &[(u32, ZkPublicKey)]) -> (r: Result<(), Error>)
        ensures
            match r {
                Ok(()) => release_list(old(self)@, keys@) == Ok::<ReserveView, Error>(final(self)@),
                Err(e) => release_list(old(self)@, keys@) == Err::<ReserveView, Error>(e),
            },
    {
        let ghost start = self@;
        let mut i: usize = 0;
        while i < keys.len()
            invariant
                i <= keys@.len(),
                start == old(self)@,
                release_list(start, keys@.take(i as int)) == Ok::<ReserveView, Error>(self@),
            decreases keys@.len() - i,
        {
            assert(keys@.take(i + 1).drop_last() =~= keys@.take(i as int));
            match self.release_note(&keys[i]) {
                Ok(()) => {},
                Err(e) => {
                    proof {
                        lemma_list_fails_early(start, keys@, i + 1, e);
                    }
                    return Err(e);
                },
            }
            i = i + 1;
        }
        assert(keys@.take(i as int) =~= keys@);
        Ok(())
    }

    /// Releases one epoch's notes of the listed sequencers.
    pub fn release_epoch(&mut self, epoch: u32, sequencers: &[ZkPublicKey]) -> (r: Result<(), Error>)
        ensures
            match r {
                Ok(()) => release_epoch(old(self)@, epoch, sequencers@) == Ok::<
                    ReserveView,
                    Error,
                >(final(self)@),
                Err(e) => release_epoch(old(self)@, epoch, sequencers@) == Err::<
                    ReserveView,
                    Error,
                >(e),
            },
    {
        let ghost start = self@;
        let mut i: usize = 0;
        while i < sequencers.len()
            invariant
                i <= sequencers@.len(),
                start == old(self)@,
                release_epoch(start, epoch, sequencers@.take(i as int)) == Ok::<
                    ReserveView,
                    Error,
                >(self@),
            decreases sequencers@.len() - i,
        {
            assert(sequencers@.take(i + 1).drop_last() =~= sequencers@.take(i as int));
            match self.release_note(&(epoch, sequencers[i])) {
                Ok(()) => {},
                Err(e) => {
                    proof {
                        lemma_epoch_fails_early(start, epoch, sequencers@, i + 1, e);
                    }
                    return Err(e);
                },
            }
            i = i + 1;
        }
        assert(sequencers@.take(i as int) =~= sequencers@);
        Ok(())
    }

    /// Releases notes, epoch by epoch and back from `epoch`, until the floating
    /// balance covers `amount`.
    pub fn release_until(
        &mut self,
        amount: Value,
        epoch: u32,
        sequencers: &[ZkPublicKey],
    ) -> (r: Result<(), Error>)
        ensures
            match r {
                Ok(()) => release_until(old(self)@, amount, epoch, sequencers@) == Ok::<
                    ReserveView,
                    Error,
                >(final(self)@),
                Err(e) => release_until(old(self)@, amount, epoch, sequencers@) == Err::<
                    ReserveView,
                    Error,
                >(e),
            },
    {
        let ghost start = self@;
        let mut current: u32 = epoch;
        while amount > self.floating_balance
            invariant
                start == old(self)@,
                release_until(start, amount, epoch, sequencers@) == release_until(
                    self@,
                    amount,
                    current,
                    sequencers@,
                ),
            decreases current,
        {
            match self.release_epoch(current, sequencers) {
                Ok(()) => {},
                Err(e) => return Err(e),
            }
            if current == 0 {
                if amount <= self.floating_balance {
                    return Ok(());
                }
                return Err(Error::InsufficientFunds);
            }
            current = current - 1;
        }
        Ok(())
    }
}

proof fn lemma_list_fails_early(
    reserve: ReserveView,
    keys: Seq<(u32, ZkPublicKey)>,
    n: int,
    e: Error,
)
    requires
        0 <= n <= keys.len(),
        release_list(reserve, keys.take(n)) == Err::<ReserveView, Error>(e),
    ensures
        release_list(reserve, keys) == Err::<ReserveView, Error>(e),
    decreases keys.len(),
{
    if n == keys.len() {
        assert(keys.take(n) =~= keys);
    } else {
        assert(keys.drop_last().take(n) =~= keys.take(n));
        lemma_list_fails_early(reserve, keys.drop_last(), n, e);
    }
}

proof fn lemma_epoch_fails_early(
    reserve: ReserveView,
    epoch: u32,
    sequencers: Seq<ZkPublicKey>,
    n: int,
    e: Error,
)
    requires
        0 <= n <= sequencers.len(),
        release_epoch(reserve, epoch, sequencers.take(n)) == Err::<ReserveView, Error>(e),
    ensures
        release_epoch(reserve, epoch, sequencers) == Err::<ReserveView, Error>(e),
    decreases sequencers.len(),
{
    if n == sequencers.len() {
        assert(sequencers.take(n) =~= sequencers);
    } else {
        assert(sequencers.drop_last().take(n) =~= sequencers.take(n));
        lemma_epoch_fails_early(reserve, epoch, sequencers.drop_last(), n, e);
    }
}

} // verus!
