//! What the ledger holds after notes are spent, created or released, and what
//! lists of notes are worth.

use vstd::prelude::*;

use crate::mantle::channel::Error;
use crate::mantle::frozen_notes;
use crate::mantle::ledger::{
    amount_is_the_sum_of_the_inputs, created_utxos, first_missing, inputs_amount, inputs_spent,
    ledger_value, notes_value, spending_takes_the_inputs_alone, with_utxos, InputsError,
};
use crate::mantle::primitives::{ids_given, Note, NoteId, OperationId, Utxo, Value, ZkPublicKey};
use crate::mantle::release::{
    release_epoch, release_list, release_note, release_until, ReserveView,
};

verus! {

/// The value of notes is the sum of their values.
pub proof fn value_of_notes_is_their_sum(notes: Seq<Note>)
    ensures
        notes_value(notes) == notes.fold_left(0int, |sum: int, note: Note| sum + note.value),
    decreases notes.len(),
{
    if notes.len() > 0 {
        value_of_notes_is_their_sum(notes.drop_last());
    }
}

/// The value of notes on the ledger is the sum of the values that it gives them.
pub proof fn value_on_the_ledger_is_the_sum(ids: Seq<NoteId>, utxos: Map<NoteId, Utxo>)
    ensures
        ledger_value(ids, utxos) == ids.fold_left(
            0int,
            |sum: int, id: NoteId| sum + utxos[id].note.value,
        ),
    decreases ids.len(),
{
    if ids.len() > 0 {
        value_on_the_ledger_is_the_sum(ids.drop_last(), utxos);
    }
}

/// What a note adds to the value of a list does not depend on where it stands.
pub proof fn value_of_joined_lists_adds_up(a: Seq<Note>, b: Seq<Note>)
    ensures
        notes_value(a + b) == notes_value(a) + notes_value(b),
    decreases b.len(),
{
    if b.len() == 0 {
        assert(a + b =~= a);
    } else {
        value_of_joined_lists_adds_up(a, b.drop_last());
        assert((a + b).drop_last() =~= a + b.drop_last());
    }
}

/// Where inputs have no amount, the first that is to blame is named: one that is
/// not on the ledger, or one that makes the sum too large.
pub proof fn amount_fails_at_the_first_fault(ids: Seq<NoteId>, utxos: Map<NoteId, Utxo>)
    ensures
        inputs_amount(ids, utxos) matches Err(e) ==> exists|i: int| #![trigger ids[i]]
            {
                &&& 0 <= i < ids.len()
                &&& forall|j: int| 0 <= j < i ==> utxos.contains_key(#[trigger] ids[j])
                &&& ledger_value(ids.take(i), utxos) <= Value::MAX
                &&& if utxos.contains_key(ids[i]) {
                    &&& e == InputsError::AmountOverflow
                    &&& ledger_value(ids.take(i), utxos) + utxos[ids[i]].note.value > Value::MAX
                } else {
                    e == InputsError::InexistingNote(ids[i])
                }
            },
    decreases ids.len(),
{
    if ids.len() > 0 {
        let front = ids.drop_last();
        amount_fails_at_the_first_fault(front, utxos);
        amount_is_the_sum_of_the_inputs(front, utxos);
        if let Err(e) = inputs_amount(ids, utxos) {
            if inputs_amount(front, utxos) is Err {
                let i = choose|i: int| #![trigger front[i]]
                    {
                        &&& 0 <= i < front.len()
                        &&& forall|j: int| 0 <= j < i ==> utxos.contains_key(#[trigger] front[j])
                        &&& ledger_value(front.take(i), utxos) <= Value::MAX
                        &&& if utxos.contains_key(front[i]) {
                            &&& e == InputsError::AmountOverflow
                            &&& ledger_value(front.take(i), utxos) + utxos[front[i]].note.value
                                > Value::MAX
                        } else {
                            e == InputsError::InexistingNote(front[i])
                        }
                    };
                assert(front.take(i) =~= ids.take(i));
                assert(ids[i] == front[i]);
                assert forall|j: int| 0 <= j < i implies utxos.contains_key(#[trigger] ids[j]) by {
                    assert(front[j] == ids[j]);
                }
            } else {
                let i = ids.len() - 1;
                assert(ids.take(i) =~= front);
                assert(ids[i] == ids.last());
                assert forall|j: int| 0 <= j < i implies utxos.contains_key(#[trigger] ids[j]) by {
                    assert(front[j] == ids[j]);
                }
            }
        }
    }
}

/// Where inputs cannot be spent, the first that is to blame is named: one that is
/// not on the ledger, or that stands in the list before.
pub proof fn spending_fails_at_the_first_fault(ids: Seq<NoteId>, utxos: Map<NoteId, Utxo>)
    ensures
        inputs_spent(ids, utxos) matches Err(e) ==> exists|i: int| #![trigger ids[i]]
            {
                &&& 0 <= i < ids.len()
                &&& e == InputsError::InexistingNote(ids[i])
                &&& !utxos.contains_key(ids[i]) || ids.take(i).contains(ids[i])
                &&& ids.take(i).no_duplicates()
                &&& forall|j: int| 0 <= j < i ==> utxos.contains_key(#[trigger] ids[j])
            },
    decreases ids.len(),
{
    if ids.len() > 0 {
        let front = ids.drop_last();
        spending_fails_at_the_first_fault(front, utxos);
        spending_takes_the_inputs_alone(front, utxos);
        if let Err(e) = inputs_spent(ids, utxos) {
            if inputs_spent(front, utxos) is Err {
                let i = choose|i: int| #![trigger front[i]]
                    {
                        &&& 0 <= i < front.len()
                        &&& e == InputsError::InexistingNote(front[i])
                        &&& !utxos.contains_key(front[i]) || front.take(i).contains(front[i])
                        &&& front.take(i).no_duplicates()
                        &&& forall|j: int| 0 <= j < i ==> utxos.contains_key(#[trigger] front[j])
                    };
                assert(front.take(i) =~= ids.take(i));
                assert(ids[i] == front[i]);
                assert forall|j: int| 0 <= j < i implies utxos.contains_key(#[trigger] ids[j]) by {
                    assert(front[j] == ids[j]);
                }
            } else {
                let i = ids.len() - 1;
                assert(ids.take(i) =~= front);
                assert(ids[i] == ids.last());
                assert forall|j: int| 0 <= j < i implies utxos.contains_key(#[trigger] ids[j]) by {
                    assert(front[j] == ids[j]);
                }
                assert(front.to_set().contains(ids.last()) == front.contains(ids.last()));
            }
        }
    }
}

/// The first missing note is in the list and not on the ledger, and all before it
/// are on the ledger.
pub proof fn missing_note_is_the_first(ids: Seq<NoteId>, utxos: Map<NoteId, Utxo>, id: NoteId)
    requires
        first_missing(ids, utxos, id),
    ensures
        !utxos.contains_key(id),
        exists|i: int| #![trigger ids[i]]
            0 <= i < ids.len() && ids[i] == id && forall|j: int|
                0 <= j < i ==> utxos.contains_key(#[trigger] ids[j]),
{
}

/// Each identifier is one that was given to the output at its place.
pub proof fn identifiers_are_those_given<F: Fn(&Utxo) -> NoteId>(
    note_id: F,
    utxos: Seq<Utxo>,
    ids: Seq<NoteId>,
)
    requires
        ids_given(note_id, utxos, ids),
    ensures
        ids.len() == utxos.len(),
        forall|i: int|
            0 <= i < utxos.len() ==> call_ensures(note_id, (&#[trigger] utxos[i],), ids[i]),
{
}

/// An operation creates one output for each note, numbered in the notes' order.
pub proof fn outputs_are_numbered(op_id: OperationId, notes: Seq<Note>)
    requires
        notes.len() <= usize::MAX,
    ensures
        created_utxos(op_id, notes).len() == notes.len(),
        forall|i: int|
            0 <= i < notes.len() ==> {
                &&& (#[trigger] created_utxos(op_id, notes)[i]).op_id == op_id
                &&& created_utxos(op_id, notes)[i].output_index == i
                &&& created_utxos(op_id, notes)[i].note == notes[i]
            },
{
}

/// Every created output is on the ledger afterwards under its identifier, unless a
/// later one has the same; all else on the ledger is as it was.
pub proof fn created_outputs_are_on_the_ledger(
    utxos: Map<NoteId, Utxo>,
    created: Seq<Utxo>,
    ids: Seq<NoteId>,
)
    requires
        ids.len() == created.len(),
    ensures
        forall|i: int|
            0 <= i < ids.len() ==> with_utxos(utxos, created, ids).contains_key(#[trigger] ids[i]),
        forall|i: int|
            0 <= i < ids.len() && !ids.skip(i + 1).contains(#[trigger] ids[i]) ==> with_utxos(
                utxos,
                created,
                ids,
            )[ids[i]] == created[i],
        forall|id: NoteId|
            !ids.contains(id) ==> (#[trigger] with_utxos(utxos, created, ids).contains_key(id)
                <==> utxos.contains_key(id)) && with_utxos(utxos, created, ids)[id] == utxos[id],
{
    let after = with_utxos(utxos, created, ids);
    assert forall|i: int| 0 <= i < ids.len() implies after.contains_key(#[trigger] ids[i]) by {
        lemma_output_is_created(utxos, created, ids, i);
    }
    assert forall|i: int|
        0 <= i < ids.len() && !ids.skip(i + 1).contains(#[trigger] ids[i]) implies after[ids[i]]
        == created[i] by {
        let tail = ids.skip(i + 1);
        let id = ids[i];
        assert forall|j: int| i < j < ids.len() implies #[trigger] ids[j] != id by {
            assert(tail[j - i - 1] == ids[j]);
        }
        lemma_output_is_created(utxos, created, ids, i);
    }
    assert forall|id: NoteId| !ids.contains(id) implies (#[trigger] after.contains_key(id)
        <==> utxos.contains_key(id)) && after[id] == utxos[id] by {
        lemma_entry_is_kept(utxos, created, ids, id);
    }
}

proof fn lemma_output_is_created(
    utxos: Map<NoteId, Utxo>,
    created: Seq<Utxo>,
    ids: Seq<NoteId>,
    i: int,
)
    requires
        ids.len() == created.len(),
        0 <= i < ids.len(),
    ensures
        with_utxos(utxos, created, ids).contains_key(ids[i]),
        (forall|j: int| i < j < ids.len() ==> #[trigger] ids[j] != ids[i]) ==> with_utxos(
            utxos,
            created,
            ids,
        )[ids[i]] == created[i],
    decreases created.len(),
{
    let front = ids.drop_last();
    let last = ids.len() - 1;
    if i < last {
        lemma_output_is_created(utxos, created.drop_last(), front, i);
        assert(front[i] == ids[i]);
        assert(ids[last] == ids.last());
        if forall|j: int| i < j < ids.len() ==> #[trigger] ids[j] != ids[i] {
            assert forall|j: int| i < j < front.len() implies #[trigger] front[j] != front[i] by {
                assert(front[j] == ids[j]);
            }
            assert(ids[last] != ids[i]);
        }
    }
}

proof fn lemma_entry_is_kept(
    utxos: Map<NoteId, Utxo>,
    created: Seq<Utxo>,
    ids: Seq<NoteId>,
    id: NoteId,
)
    requires
        ids.len() == created.len(),
        !ids.contains(id),
    ensures
        with_utxos(utxos, created, ids).contains_key(id) <==> utxos.contains_key(id),
        with_utxos(utxos, created, ids)[id] == utxos[id],
    decreases created.len(),
{
    if created.len() > 0 {
        let front = ids.drop_last();
        assert(ids[ids.len() - 1] == ids.last());
        if front.contains(id) {
            let j = choose|j: int| 0 <= j < front.len() && front[j] == id;
            assert(ids[j] == id);
        }
        lemma_entry_is_kept(utxos, created.drop_last(), front, id);
    }
}

/// `id` is the identifier of a note that is in the first map and no longer in the
/// second.
pub open spec fn given_up(
    before: Map<(u32, ZkPublicKey), NoteId>,
    after: Map<(u32, ZkPublicKey), NoteId>,
    id: NoteId,
) -> bool {
    exists|key: (u32, ZkPublicKey)| #[trigger]
        before.contains_key(key) && before[key] == id && !after.contains_key(key)
}

/// The notes that have left the channel's map, and no others, have left the frozen
/// notes and the ledger too.
pub open spec fn gives_up_notes(before: ReserveView, after: ReserveView) -> bool {
    &&& forall|key: (u32, ZkPublicKey)| #[trigger]
        after.frozen_note_map.contains_key(key) ==> before.frozen_note_map.contains_key(key)
            && after.frozen_note_map[key] == before.frozen_note_map[key]
    &&& forall|id: NoteId| #[trigger]
        after.frozen_notes.contains_key(id) <==> before.frozen_notes.contains_key(id) && !given_up(
            before.frozen_note_map,
            after.frozen_note_map,
            id,
        )
    &&& forall|id: NoteId| #[trigger]
        after.frozen_notes.contains_key(id) ==> after.frozen_notes[id] == before.frozen_notes[id]
    &&& forall|id: NoteId| #[trigger]
        after.utxos.contains_key(id) <==> before.utxos.contains_key(id) && !given_up(
            before.frozen_note_map,
            after.frozen_note_map,
            id,
        )
    &&& forall|id: NoteId| #[trigger]
        after.utxos.contains_key(id) ==> after.utxos[id] == before.utxos[id]
    &&& forall|id: NoteId| #[trigger]
        given_up(before.frozen_note_map, after.frozen_note_map, id) ==> before.utxos.contains_key(
            id,
        ) && before.frozen_notes.contains_key(id)
}

proof fn lemma_given_up_in_steps(a: ReserveView, b: ReserveView, c: ReserveView)
    requires
        gives_up_notes(a, b),
        gives_up_notes(b, c),
    ensures
        gives_up_notes(a, c),
{
    assert forall|key: (u32, ZkPublicKey)| #[trigger] c.frozen_note_map.contains_key(key) implies {
        &&& a.frozen_note_map.contains_key(key)
        &&& c.frozen_note_map[key] == a.frozen_note_map[key]
    } by {
        assert(b.frozen_note_map.contains_key(key));
    }
    assert forall|id: NoteId| #[trigger] given_up(a.frozen_note_map, c.frozen_note_map, id) == (
    given_up(a.frozen_note_map, b.frozen_note_map, id) || given_up(
        b.frozen_note_map,
        c.frozen_note_map,
        id,
    )) by {
        if given_up(a.frozen_note_map, c.frozen_note_map, id) {
            let key = choose|key: (u32, ZkPublicKey)| #[trigger]
                a.frozen_note_map.contains_key(key) && a.frozen_note_map[key] == id
                    && !c.frozen_note_map.contains_key(key);
            if b.frozen_note_map.contains_key(key) {
                assert(given_up(b.frozen_note_map, c.frozen_note_map, id));
            } else {
                assert(given_up(a.frozen_note_map, b.frozen_note_map, id));
            }
        }
        if given_up(a.frozen_note_map, b.frozen_note_map, id) {
            let key = choose|key: (u32, ZkPublicKey)| #[trigger]
                a.frozen_note_map.contains_key(key) && a.frozen_note_map[key] == id
                    && !b.frozen_note_map.contains_key(key);
            assert(!c.frozen_note_map.contains_key(key));
        }
        if given_up(b.frozen_note_map, c.frozen_note_map, id) {
            let key = choose|key: (u32, ZkPublicKey)| #[trigger]
                b.frozen_note_map.contains_key(key) && b.frozen_note_map[key] == id
                    && !c.frozen_note_map.contains_key(key);
            assert(a.frozen_note_map.contains_key(key));
        }
    }
    assert forall|id: NoteId| #[trigger] c.utxos.contains_key(id) implies c.utxos[id]
        == a.utxos[id] by {
        assert(b.utxos.contains_key(id));
    }
    assert forall|id: NoteId| #[trigger] c.frozen_notes.contains_key(id) implies c.frozen_notes[id]
        == a.frozen_notes[id] by {
        assert(b.frozen_notes.contains_key(id));
    }
    assert forall|id: NoteId| #[trigger]
        given_up(a.frozen_note_map, c.frozen_note_map, id) implies a.utxos.contains_key(id)
        && a.frozen_notes.contains_key(id) by {
        if given_up(b.frozen_note_map, c.frozen_note_map, id) {
            assert(b.utxos.contains_key(id));
            assert(b.frozen_notes.contains_key(id));
        }
    }
    assert forall|id: NoteId| #[trigger] c.utxos.contains_key(id) <==> a.utxos.contains_key(id)
        && !given_up(a.frozen_note_map, c.frozen_note_map, id) by {
        assert(b.utxos.contains_key(id) <==> a.utxos.contains_key(id) && !given_up(
            a.frozen_note_map,
            b.frozen_note_map,
            id,
        ));
    }
    assert forall|id: NoteId| #[trigger] c.frozen_notes.contains_key(id)
        <==> a.frozen_notes.contains_key(id) && !given_up(
        a.frozen_note_map,
        c.frozen_note_map,
        id,
    ) by {
        assert(b.frozen_notes.contains_key(id) <==> a.frozen_notes.contains_key(id) && !given_up(
            a.frozen_note_map,
            b.frozen_note_map,
            id,
        ));
    }
}

proof fn lemma_nothing_given_up(reserve: ReserveView)
    ensures
        gives_up_notes(reserve, reserve),
{
}

/// Releasing a note takes it, and nothing else, from the channel, the frozen notes
/// and the ledger, and adds its value to the floating balance. That fails exactly
/// if the note is not frozen, is not on the ledger, or has a value that cannot be
/// added, in this order. Where there is no note, nothing happens.
pub proof fn released_note_leaves_everywhere(reserve: ReserveView, key: (u32, ZkPublicKey))
    ensures
        ({
            let id = reserve.frozen_note_map[key];
            let value = reserve.frozen_notes[id].value;
            let r = release_note(reserve, key);
            if !reserve.frozen_note_map.contains_key(key) {
                r == Ok::<ReserveView, Error>(reserve)
            } else if !reserve.frozen_notes.contains_key(id) {
                r == Err::<ReserveView, Error>(
                    Error::FrozenNotes(
                        frozen_notes::Error::NoteNotFrozen(id),
                    ),
                )
            } else if !reserve.utxos.contains_key(id) {
                r == Err::<ReserveView, Error>(
                    Error::Inputs(InputsError::InexistingNote(id)),
                )
            } else if reserve.floating_balance + value > Value::MAX {
                r == Err::<ReserveView, Error>(Error::BalanceOverflow)
            } else {
                &&& r matches Ok(after)
                &&& after.floating_balance == reserve.floating_balance + value
                &&& forall|k: (u32, ZkPublicKey)| #[trigger]
                    after.frozen_note_map.contains_key(k) <==> k != key
                        && reserve.frozen_note_map.contains_key(k)
                &&& gives_up_notes(reserve, after)
            }
        }),
{
    let id = reserve.frozen_note_map[key];
    if let Ok(after) = release_note(reserve, key) {
        if reserve.frozen_note_map.contains_key(key) {
            assert forall|x: NoteId| #[trigger]
                given_up(reserve.frozen_note_map, after.frozen_note_map, x) == (x == id) by {
                if x == id {
                    assert(reserve.frozen_note_map.contains_key(key)
                        && !after.frozen_note_map.contains_key(key));
                }
            }
        } else {
            lemma_nothing_given_up(reserve);
        }
    }
}

/// Releasing one epoch's notes takes notes from the channel, the frozen notes and
/// the ledger alike.
pub proof fn released_epoch_leaves_everywhere(
    reserve: ReserveView,
    epoch: u32,
    sequencers: Seq<ZkPublicKey>,
)
    ensures
        release_epoch(reserve, epoch, sequencers) matches Ok(after) ==> gives_up_notes(
            reserve,
            after,
        ),
    decreases sequencers.len(),
{
    if sequencers.len() == 0 {
        lemma_nothing_given_up(reserve);
    } else {
        released_epoch_leaves_everywhere(reserve, epoch, sequencers.drop_last());
        if let Ok(before) = release_epoch(reserve, epoch, sequencers.drop_last()) {
            let key = (epoch, sequencers.last());
            released_note_leaves_everywhere(before, key);
            lemma_nothing_given_up(before);
            if let Ok(after) = release_note(before, key) {
                lemma_given_up_in_steps(reserve, before, after);
            }
        }
    }
}

/// Releasing notes until an amount is covered takes notes from the channel, the
/// frozen notes and the ledger alike, and covers the amount.
pub proof fn notes_released_for_an_amount_leave_everywhere(
    reserve: ReserveView,
    amount: Value,
    epoch: u32,
    sequencers: Seq<ZkPublicKey>,
)
    ensures
        release_until(reserve, amount, epoch, sequencers) matches Ok(after) ==> gives_up_notes(
            reserve,
            after,
        ) && amount <= after.floating_balance,
    decreases epoch,
{
    lemma_nothing_given_up(reserve);
    if amount > reserve.floating_balance {
        released_epoch_leaves_everywhere(reserve, epoch, sequencers);
        if let Ok(next) = release_epoch(reserve, epoch, sequencers) {
            if epoch > 0 {
                let earlier = (epoch - 1) as u32;
                notes_released_for_an_amount_leave_everywhere(next, amount, earlier, sequencers);
                if let Ok(after) = release_until(next, amount, earlier, sequencers) {
                    lemma_given_up_in_steps(reserve, next, after);
                }
            }
        }
    }
}

/// Releasing listed notes takes them from the channel, the frozen notes and the
/// ledger alike.
pub proof fn listed_notes_leave_everywhere(reserve: ReserveView, keys: Seq<(u32, ZkPublicKey)>)
    ensures
        release_list(reserve, keys) matches Ok(after) ==> gives_up_notes(reserve, after)
            && forall|key: (u32, ZkPublicKey)| #[trigger]
            after.frozen_note_map.contains_key(key) <==> reserve.frozen_note_map.contains_key(key)
                && !keys.contains(key),
    decreases keys.len(),
{
    if keys.len() == 0 {
        lemma_nothing_given_up(reserve);
    } else {
        let front = keys.drop_last();
        listed_notes_leave_everywhere(reserve, front);
        if let Ok(before) = release_list(reserve, front) {
            let key = keys.last();
            released_note_leaves_everywhere(before, key);
            lemma_nothing_given_up(before);
            if let Ok(after) = release_note(before, key) {
                lemma_given_up_in_steps(reserve, before, after);
                assert forall|k: (u32, ZkPublicKey)| #[trigger]
                    keys.contains(k) == (front.contains(k) || k == key) by {
                    assert(keys[keys.len() - 1] == key);
                    if front.contains(k) {
                        let i = choose|i: int| 0 <= i < front.len() && front[i] == k;
                        assert(keys[i] == k);
                    }
                    if keys.contains(k) && k != key {
                        let i = choose|i: int| 0 <= i < keys.len() && keys[i] == k;
                        assert(front[i] == k);
                    }
                }
            }
        }
    }
}

} // verus!
