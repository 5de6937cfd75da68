//! The unspent outputs of the ledger, and the inputs and outputs by which an
//! operation spends and creates them.

use vstd::prelude::*;

use crate::crypto::copy_bytes;
use crate::mantle::codec::{
    decode_32, decode_le, decode_list32, joined32, le_bytes, lemma_le_capacities,
    lemma_take_32, lemma_take_le, lemma_take_le_bound, lemma_take_list32, push_all_32, push_bytes,
    push_le, take_32, take_le, take_list32, DecodeError,
};
use crate::mantle::maps::UtxoMap;
use crate::mantle::primitives::{
    ids_given, ChannelId, Note, NoteId, OperationId, TxHash, Utxo, Value, ZkPublicKey,
};
use crate::utils::bounded::{BoundedBytes, BoundedError, BoundedVec};

verus! {

/// The most inputs or outputs that one operation has: their number is encoded
/// in one byte.
pub const MAX_TRANSFERS: usize = 255;

/// The most bytes of a deposit's metadata: their number is encoded in four bytes.
pub const MAX_METADATA_SIZE: usize = 0xffff_ffff;

/// What a depositor attaches to a deposit.
pub type Metadata = BoundedBytes<0xffff_ffff>;

/// Why the inputs of an operation are not accepted.
#[derive(Debug, Clone, Copy, PartialEq, Eq)]
pub enum InputsError {
    /// The ledger holds no such note.
    InexistingNote(NoteId),
    /// The note is on the ledger, but may not be spent.
    NotSpendable(NoteId),
    /// The values add up to more than an amount can hold.
    AmountOverflow,
}

/// Why the outputs of an operation are not accepted.
#[derive(Debug, Clone, Copy, PartialEq, Eq)]
pub enum OutputsError {
    /// The note is not one that may be created.
    InvalidNote(Note),
    /// The values add up to more than an amount can hold.
    AmountOverflow,
}

/// What happened while an operation was executed.
#[derive(Debug, PartialEq, Eq)]
pub enum EventPayload {
    Deposit { channel_id: ChannelId, amount: Value, metadata: Metadata },
}

/// An event, and the operation of a transaction that it comes from.
#[derive(Debug, PartialEq, Eq)]
pub enum Event {
    Tx { tx_hash: TxHash, op_id: OperationId, payload: EventPayload },
}

/// Events, in the order in which they happened.
pub type Events = Vec<Event>;

/// The unspent outputs, by the identifier of their note.
#[derive(Debug, PartialEq, Eq)]
pub struct Utxos {
    utxos: UtxoMap,
}

impl View for Utxos {
    type V = Map<NoteId, Utxo>;

    closed spec fn view(&self) -> Map<NoteId, Utxo> {
        self.utxos@
    }
}

impl Clone for Utxos {
    fn clone(&self) -> (r: Self)
        ensures
            r@ == self@,
    {
        Self { utxos: self.utxos.clone() }
    }
}

impl Utxos {
    /// A ledger without outputs.
    #[must_use]
    pub fn new() -> (r: Self)
        ensures
            r@ == Map::<NoteId, Utxo>::empty(),
    {
        Self { utxos: UtxoMap::new() }
    }

    /// The output with this note.
    #[must_use]
    pub fn get(&self, id: &NoteId) -> (r: Option<Utxo>)
        ensures
            r == self@.get(*id),
    {
        self.utxos.get(id)
    }

    /// Whether there is an output with this note.
    #[must_use]
    pub fn contains_key(&self, id: &NoteId) -> (r: bool)
        ensures
            r == self@.contains_key(*id),
    {
        self.utxos.contains_key(id)
    }

    /// The ledger with an output more.
    #[must_use]
    pub fn insert(self, id: NoteId, utxo: Utxo) -> (r: Self)
        ensures
            r@ == self@.insert(id, utxo),
    {
        Self { utxos: self.utxos.insert(id, utxo) }
    }

    /// The ledger without an output, and that output. If there is none, `None`.
    #[must_use]
    pub fn remove(&self, id: &NoteId) -> (r: Option<(Self, Utxo)>)
        ensures
            match r {
                Some((utxos, utxo)) => self@.contains_key(*id) && utxo == self@[*id] && utxos@
                    == self@.remove(*id),
                None => !self@.contains_key(*id),
            },
    {
        match self.utxos.get(id) {
            Some(utxo) => Some((Self { utxos: self.utxos.remove(id) }, utxo)),
            None => None,
        }
    }
}

/// The notes that an operation spends.
#[derive(Debug, PartialEq, Eq, Hash)]
pub struct Inputs(pub BoundedVec<NoteId, MAX_TRANSFERS>);

/// The notes that an operation creates.
#[derive(Debug, PartialEq, Eq, Hash)]
pub struct Outputs(pub BoundedVec<Note, MAX_TRANSFERS>);

impl Clone for Inputs {
    fn clone(&self) -> (r: Self)
        ensures
            r.0@ == self.0@,
    {
        Self(BoundedVec::new_unchecked(copy_bytes(self.0.as_slice())))
    }
}

impl Clone for Outputs {
    fn clone(&self) -> (r: Self)
        ensures
            r.0@ == self.0@,
    {
        let r = Self(self.0.clone());
        assert(r.0@ =~= self.0@);
        r
    }
}

/// What the inputs are worth, added up from the first on. The first input that
/// is not on the ledger, or that the sum cannot take, decides the error.
pub open spec fn inputs_amount(ids: Seq<NoteId>, utxos: Map<NoteId, Utxo>) -> Result<
    nat,
    InputsError,
>
    decreases ids.len(),
{
    if ids.len() == 0 {
        Ok(0)
    } else {
        match inputs_amount(ids.drop_last(), utxos) {
            Err(e) => Err(e),
            Ok(sum) => if !utxos.contains_key(ids.last()) {
                Err(InputsError::InexistingNote(ids.last()))
            } else if sum + utxos[ids.last()].note.value > Value::MAX {
                Err(InputsError::AmountOverflow)
            } else {
                Ok((sum + utxos[ids.last()].note.value) as nat)
            },
        }
    }
}

/// The ledger after the inputs are taken off it, from the first on. The first
/// input that is not there (any more) decides the error.
pub open spec fn inputs_spent(ids: Seq<NoteId>, utxos: Map<NoteId, Utxo>) -> Result<
    Map<NoteId, Utxo>,
    InputsError,
>
    decreases ids.len(),
{
    if ids.len() == 0 {
        Ok(utxos)
    } else {
        match inputs_spent(ids.drop_last(), utxos) {
            Err(e) => Err(e),
            Ok(left) => if left.contains_key(ids.last()) {
                Ok(left.remove(ids.last()))
            } else {
                Err(InputsError::InexistingNote(ids.last()))
            },
        }
    }
}

/// `id` is the first of `ids` that is not on the ledger.
pub open spec fn first_missing(ids: Seq<NoteId>, utxos: Map<NoteId, Utxo>, id: NoteId) -> bool {
    exists|i: int|
        0 <= i < ids.len() && #[trigger] ids[i] == id && !utxos.contains_key(id) && forall|j: int|
            0 <= j < i ==> utxos.contains_key(#[trigger] ids[j])
}

/// The values of notes, added up.
pub open spec fn notes_value(notes: Seq<Note>) -> nat
    decreases notes.len(),
{
    if notes.len() == 0 {
        0
    } else {
        notes_value(notes.drop_last()) + notes.last().value as nat
    }
}

/// The outputs that an operation creates: its notes, numbered.
pub open spec fn created_utxos(op_id: OperationId, notes: Seq<Note>) -> Seq<Utxo> {
    Seq::new(notes.len(), |i: int| Utxo { op_id, output_index: i as usize, note: notes[i] })
}

/// The ledger with further outputs under their identifiers.
pub open spec fn with_utxos(
    utxos: Map<NoteId, Utxo>,
    created: Seq<Utxo>,
    ids: Seq<NoteId>,
) -> Map<NoteId, Utxo>
    decreases created.len(),
{
    if created.len() == 0 {
        utxos
    } else {
        with_utxos(utxos, created.drop_last(), ids.drop_last()).insert(ids.last(), created.last())
    }
}

impl Inputs {
    /// What the inputs are worth.
    pub fn amount(&self, utxos: &Utxos) -> (r: Result<Value, InputsError>)
        ensures
            match r {
                Ok(amount) => inputs_amount(self.0@, utxos@) == Ok::<nat, InputsError>(
                    amount as nat,
                ),
                Err(e) => inputs_amount(self.0@, utxos@) == Err::<nat, InputsError>(e),
            },
    {
        let ids = self.0.as_slice();
        let mut sum: Value = 0;
        let mut i: usize = 0;
        while i < ids.len()
            invariant
                i <= ids@.len(),
                ids@ == self.0@,
                inputs_amount(ids@.take(i as int), utxos@) == Ok::<nat, InputsError>(sum as nat),
            decreases ids@.len() - i,
        {
            assert(ids@.take(i + 1).drop_last() =~= ids@.take(i as int));
            match utxos.get(&ids[i]) {
                None => {
                    let e = InputsError::InexistingNote(ids[i]);
                    proof {
                        lemma_amount_fails_early(ids@, i + 1, utxos@, e);
                    }
                    return Err(e);
                },
                Some(utxo) => match sum.checked_add(utxo.note.value) {
                    None => {
                        let e = InputsError::AmountOverflow;
                        proof {
                            lemma_amount_fails_early(ids@, i + 1, utxos@, e);
                        }
                        return Err(e);
                    },
                    Some(more) => {
                        sum = more;
                    },
                },
            }
            i = i + 1;
        }
        assert(ids@.take(i as int) =~= ids@);
        Ok(sum)
    }

    /// The keys that own the inputs, in their order.
    pub fn get_pk(&self, utxos: &Utxos) -> (r: Result<Vec<ZkPublicKey>, InputsError>)
        ensures
            match r {
                Ok(pks) => pks@.len() == self.0@.len() && forall|i: int|
                    0 <= i < self.0@.len() ==> utxos@.contains_key(#[trigger] self.0@[i])
                        && utxos@[self.0@[i]].note.pk == pks@[i],
                Err(e) => e matches InputsError::InexistingNote(id) && first_missing(
                    self.0@,
                    utxos@,
                    id,
                ),
            },
    {
        let ids = self.0.as_slice();
        let mut pks: Vec<ZkPublicKey> = Vec::new();
        let mut i: usize = 0;
        while i < ids.len()
            invariant
                i <= ids@.len(),
                ids@ == self.0@,
                pks@.len() == i,
                forall|j: int|
                    0 <= j < i ==> utxos@.contains_key(#[trigger] ids@[j])
                        && utxos@[ids@[j]].note.pk == pks@[j],
            decreases ids@.len() - i,
        {
            match utxos.get(&ids[i]) {
                None => {
                    assert(first_missing(ids@, utxos@, ids@[i as int]));
                    return Err(InputsError::InexistingNote(ids[i]));
                },
                Some(utxo) => pks.push(utxo.note.pk),
            }
            i = i + 1;
        }
        Ok(pks)
    }

    /// Takes the inputs off the ledger.
    pub fn execute(&self, utxos: Utxos) -> (r: Result<Utxos, InputsError>)
        ensures
            match r {
                Ok(left) => inputs_spent(self.0@, utxos@) == Ok::<_, InputsError>(left@),
                Err(e) => inputs_spent(self.0@, utxos@) == Err::<Map<NoteId, Utxo>, _>(e),
            },
    {
        let ghost start = utxos@;
        let ids = self.0.as_slice();
        let mut left = utxos;
        let mut i: usize = 0;
        while i < ids.len()
            invariant
                i <= ids@.len(),
                ids@ == self.0@,
                start == utxos@,
                inputs_spent(ids@.take(i as int), start) == Ok::<_, InputsError>(left@),
            decreases ids@.len() - i,
        {
            assert(ids@.take(i + 1).drop_last() =~= ids@.take(i as int));
            match left.remove(&ids[i]) {
                None => {
                    let e = InputsError::InexistingNote(ids[i]);
                    proof {
                        lemma_spend_fails_early(ids@, i + 1, start, e);
                    }
                    return Err(e);
                },
                Some((rest, _)) => {
                    left = rest;
                },
            }
            i = i + 1;
        }
        assert(ids@.take(i as int) =~= ids@);
        Ok(left)
    }
}

proof fn lemma_amount_fails_early(ids: Seq<NoteId>, n: int, utxos: Map<NoteId, Utxo>, e: InputsError)
    requires
        0 <= n <= ids.len(),
        inputs_amount(ids.take(n), utxos) == Err::<nat, InputsError>(e),
    ensures
        inputs_amount(ids, utxos) == Err::<nat, InputsError>(e),
    decreases ids.len(),
{
    if n == ids.len() {
        assert(ids.take(n) =~= ids);
    } else {
        assert(ids.drop_last().take(n) =~= ids.take(n));
        lemma_amount_fails_early(ids.drop_last(), n, utxos, e);
    }
}

proof fn lemma_spend_fails_early(ids: Seq<NoteId>, n: int, utxos: Map<NoteId, Utxo>, e: InputsError)
    requires
        0 <= n <= ids.len(),
        inputs_spent(ids.take(n), utxos) == Err::<Map<NoteId, Utxo>, InputsError>(e),
    ensures
        inputs_spent(ids, utxos) == Err::<Map<NoteId, Utxo>, InputsError>(e),
    decreases ids.len(),
{
    if n == ids.len() {
        assert(ids.take(n) =~= ids);
    } else {
        assert(ids.drop_last().take(n) =~= ids.take(n));
        lemma_spend_fails_early(ids.drop_last(), n, utxos, e);
    }
}

impl Outputs {
    /// What the outputs are worth.
    pub fn amount(&self) -> (r: Result<Value, OutputsError>)
        ensures
            match r {
                Ok(amount) => amount == notes_value(self.0@),
                Err(e) => notes_value(self.0@) > Value::MAX && e == OutputsError::AmountOverflow,
            },
    {
        let notes = self.0.as_slice();
        let mut sum: Value = 0;
        let mut i: usize = 0;
        while i < notes.len()
            invariant
                i <= notes@.len(),
                notes@ == self.0@,
                notes_value(notes@.take(i as int)) == sum,
            decreases notes@.len() - i,
        {
            assert(notes@.take(i + 1).drop_last() =~= notes@.take(i as int));
            match sum.checked_add(notes[i].value) {
                None => {
                    proof {
                        lemma_value_grows(notes@, i + 1);
                    }
                    return Err(OutputsError::AmountOverflow);
                },
                Some(more) => {
                    sum = more;
                },
            }
            i = i + 1;
        }
        assert(notes@.take(i as int) =~= notes@);
        Ok(sum)
    }

    /// Puts the outputs on the ledger, each under the identifier that `note_id`
    /// gives it.
    pub fn execute<F: Fn(&Utxo) -> NoteId>(
        &self,
        utxos: Utxos,
        op_id: OperationId,
        note_id: &F,
    ) -> (r: Utxos)
        requires
            forall|utxo: &Utxo| #[trigger] call_requires(*note_id, (utxo,)),
        ensures
            exists|ids: Seq<NoteId>|
                {
                    &&& #[trigger] ids_given(*note_id, created_utxos(op_id, self.0@), ids)
                    &&& r@ == with_utxos(utxos@, created_utxos(op_id, self.0@), ids)
                },
    {
        let ghost start = utxos@;
        let ghost mut ids: Seq<NoteId> = Seq::empty();
        let ghost created = created_utxos(op_id, self.0@);
        let notes = self.0.as_slice();
        let mut left = utxos;
        let mut i: usize = 0;
        while i < notes.len()
            invariant
                i <= notes@.len(),
                notes@ == self.0@,
                created == created_utxos(op_id, self.0@),
                forall|utxo: &Utxo| #[trigger] call_requires(*note_id, (utxo,)),
                ids_given(*note_id, created.take(i as int), ids),
                left@ == with_utxos(start, created.take(i as int), ids),
            decreases notes@.len() - i,
        {
            let utxo = Utxo::new(op_id, i, notes[i]);
            let id: NoteId = note_id(&utxo);
            left = left.insert(id, utxo);
            proof {
                let before = ids;
                ids = ids.push(id);
                assert(created.take(i + 1).drop_last() =~= created.take(i as int));
                assert(ids.drop_last() =~= before);
                assert(created.take(i + 1).last() == utxo);
                assert forall|j: int| 0 <= j < i + 1 implies call_ensures(
                    *note_id,
                    (&#[trigger] created.take(i + 1)[j],),
                    ids[j],
                ) by {
                    if j < i {
                        assert(created.take(i + 1)[j] == created.take(i as int)[j]);
                    }
                }
            }
            i = i + 1;
        }
        assert(created.take(i as int) =~= created);
        left
    }
}

proof fn lemma_value_grows(notes: Seq<Note>, n: int)
    requires
        0 <= n <= notes.len(),
    ensures
        notes_value(notes.take(n)) <= notes_value(notes),
    decreases notes.len(),
{
    if n == notes.len() {
        assert(notes.take(n) =~= notes);
    } else {
        assert(notes.drop_last().take(n) =~= notes.take(n));
        lemma_value_grows(notes.drop_last(), n);
    }
}

/// Inputs as bytes: their number in one byte, then each identifier.
pub open spec fn inputs_bytes(ids: Seq<NoteId>) -> Seq<u8> {
    le_bytes(ids.len(), 1) + joined32(ids)
}

/// Inputs off the front.
pub open spec fn take_inputs(bytes: Seq<u8>) -> Option<(Seq<NoteId>, Seq<u8>)> {
    match take_le(bytes, 1) {
        None => None,
        Some((count, rest)) => take_list32(rest, count),
    }
}

/// A note as bytes: its value in eight bytes, then its key.
pub open spec fn note_bytes(note: Note) -> Seq<u8> {
    le_bytes(note.value as nat, 8) + note.pk@
}

/// A note off the front.
pub open spec fn take_note(bytes: Seq<u8>) -> Option<(Note, Seq<u8>)> {
    match take_le(bytes, 8) {
        None => None,
        Some((value, rest)) => match take_32(rest) {
            None => None,
            Some((pk, rest)) => Some((Note { value: value as Value, pk }, rest)),
        },
    }
}

/// Notes, one behind the other.
pub open spec fn joined_notes(notes: Seq<Note>) -> Seq<u8>
    decreases notes.len(),
{
    if notes.len() == 0 {
        Seq::empty()
    } else {
        joined_notes(notes.drop_last()) + note_bytes(notes.last())
    }
}

/// `count` notes off the front.
pub open spec fn take_notes(bytes: Seq<u8>, count: nat) -> Option<(Seq<Note>, Seq<u8>)>
    decreases count,
{
    if count == 0 {
        Some((Seq::empty(), bytes))
    } else {
        match take_notes(bytes, (count - 1) as nat) {
            None => None,
            Some((notes, rest)) => match take_note(rest) {
                None => None,
                Some((note, rest)) => Some((notes.push(note), rest)),
            },
        }
    }
}

/// Outputs as bytes: their number in one byte, then each note.
pub open spec fn outputs_bytes(notes: Seq<Note>) -> Seq<u8> {
    le_bytes(notes.len(), 1) + joined_notes(notes)
}

/// Outputs off the front.
pub open spec fn take_outputs(bytes: Seq<u8>) -> Option<(Seq<Note>, Seq<u8>)> {
    match take_le(bytes, 1) {
        None => None,
        Some((count, rest)) => take_notes(rest, count),
    }
}

impl Inputs {
    /// Takes the identifiers unless there are too many.
    pub fn new(ids: Vec<NoteId>) -> (r: Result<Self, BoundedError>)
        ensures
            match r {
                Ok(inputs) => ids@.len() <= MAX_TRANSFERS && inputs.0@ == ids@,
                Err(BoundedError::TooLong { actual, max }) => ids@.len() > MAX_TRANSFERS && actual
                    == ids@.len() && max == MAX_TRANSFERS,
            },
    {
        match BoundedVec::new(ids) {
            Ok(ids) => Ok(Self(ids)),
            Err(e) => Err(e),
        }
    }

    /// The number of inputs in one byte, then each identifier.
    #[must_use]
    pub fn encode(&self) -> (r: Vec<u8>)
        ensures
            r@ == inputs_bytes(self.0@),
    {
        let mut bytes: Vec<u8> = Vec::new();
        push_le(&mut bytes, self.0.len() as u64, 1);
        push_all_32(&mut bytes, self.0.as_slice());
        assert(bytes@ =~= inputs_bytes(self.0@));
        bytes
    }

    /// Reads inputs off the front, and hands back what is left.
    pub fn decode(bytes: &[u8]) -> (r: Result<(&[u8], Self), DecodeError>)
        ensures
            match r {
                Ok((rest, inputs)) => take_inputs(bytes@) == Some((inputs.0@, rest@)),
                Err(_) => take_inputs(bytes@) is None,
            },
    {
        proof {
            lemma_le_capacities();
        }
        match decode_le(bytes, 1) {
            None => Err(DecodeError),
            Some((count, rest)) => match decode_list32(rest, count as usize) {
                None => Err(DecodeError),
                Some((ids, rest)) => Ok((rest, Self(BoundedVec::new_unchecked(ids)))),
            },
        }
    }
}

impl Outputs {
    /// Takes the notes unless there are too many.
    pub fn new(notes: Vec<Note>) -> (r: Result<Self, BoundedError>)
        ensures
            match r {
                Ok(outputs) => notes@.len() <= MAX_TRANSFERS && outputs.0@ == notes@,
                Err(BoundedError::TooLong { actual, max }) => notes@.len() > MAX_TRANSFERS && actual
                    == notes@.len() && max == MAX_TRANSFERS,
            },
    {
        match BoundedVec::new(notes) {
            Ok(notes) => Ok(Self(notes)),
            Err(e) => Err(e),
        }
    }

    /// The number of outputs in one byte, then each note.
    #[must_use]
    pub fn encode(&self) -> (r: Vec<u8>)
        ensures
            r@ == outputs_bytes(self.0@),
    {
        let notes = self.0.as_slice();
        let mut bytes: Vec<u8> = Vec::new();
        push_le(&mut bytes, notes.len() as u64, 1);
        let ghost head = le_bytes(notes@.len(), 1);
        let mut i: usize = 0;
        assert(bytes@ =~= head + joined_notes(notes@.take(0)));
        while i < notes.len()
            invariant
                i <= notes@.len(),
                bytes@ == head + joined_notes(notes@.take(i as int)),
            decreases notes@.len() - i,
        {
            push_le(&mut bytes, notes[i].value, 8);
            push_bytes(&mut bytes, notes[i].pk.as_slice());
            assert(notes@.take(i + 1).drop_last() =~= notes@.take(i as int));
            assert(bytes@ =~= head + (joined_notes(notes@.take(i as int)) + note_bytes(
                notes@[i as int],
            )));
            i = i + 1;
        }
        assert(notes@.take(i as int) =~= notes@);
        bytes
    }

    /// Reads outputs off the front, and hands back what is left.
    pub fn decode(bytes: &[u8]) -> (r: Result<(&[u8], Self), DecodeError>)
        ensures
            match r {
                Ok((rest, outputs)) => take_outputs(bytes@) == Some((outputs.0@, rest@)),
                Err(_) => take_outputs(bytes@) is None,
            },
    {
        proof {
            lemma_le_capacities();
        }
        let (count, all) = match decode_le(bytes, 1) {
            None => return Err(DecodeError),
            Some(front) => front,
        };
        let mut rest = all;
        let mut notes: Vec<Note> = Vec::new();
        let mut i: u64 = 0;
        while i < count
            invariant
                i <= count < 256,
                notes@.len() == i,
                take_le(bytes@, 1) == Some((count as nat, all@)),
                take_notes(all@, i as nat) == Some((notes@, rest@)),
            decreases count - i,
        {
            match decode_note(rest) {
                None => {
                    proof {
                        lemma_notes_fail_early(all@, (i + 1) as nat, count as nat);
                    }
                    return Err(DecodeError);
                },
                Some((note, left)) => {
                    notes.push(note);
                    rest = left;
                },
            }
            i = i + 1;
        }
        Ok((rest, Self(BoundedVec::new_unchecked(notes))))
    }
}

fn decode_note(bytes: &[u8]) -> (r: Option<(Note, &[u8])>)
    ensures
        match r {
            Some((note, rest)) => take_note(bytes@) == Some((note, rest@)),
            None => take_note(bytes@) is None,
        },
{
    match decode_le(bytes, 8) {
        None => None,
        Some((value, rest)) => match decode_32(rest) {
            None => None,
            Some((pk, rest)) => Some((Note::new(value, pk), rest)),
        },
    }
}

proof fn lemma_notes_fail_early(bytes: Seq<u8>, n: nat, count: nat)
    requires
        n <= count,
        take_notes(bytes, n) is None,
    ensures
        take_notes(bytes, count) is None,
    decreases count,
{
    if n < count {
        lemma_notes_fail_early(bytes, n, (count - 1) as nat);
    }
}

/// Reading inputs is the inverse of writing them.
pub proof fn inputs_round_trip(bytes: Seq<u8>, ids: Seq<NoteId>, rest: Seq<u8>)
    requires
        ids.len() <= MAX_TRANSFERS,
    ensures
        take_inputs(bytes) == Some((ids, rest)) <==> bytes == inputs_bytes(ids) + rest,
{
    lemma_le_capacities();
    if bytes == inputs_bytes(ids) + rest {
        assert(bytes =~= le_bytes(ids.len(), 1) + (joined32(ids) + rest));
        lemma_take_le(bytes, 1, ids.len(), joined32(ids) + rest);
        lemma_take_list32(joined32(ids) + rest, ids, rest);
    }
    if take_inputs(bytes) == Some((ids, rest)) {
        let (count, left) = take_le(bytes, 1)->0;
        lemma_take_le_bound(bytes, 1);
        lemma_take_list32(left, ids, rest);
        assert(bytes =~= inputs_bytes(ids) + rest);
    }
}

proof fn lemma_take_note(bytes: Seq<u8>, note: Note, rest: Seq<u8>)
    ensures
        take_note(bytes) == Some((note, rest)) <==> bytes == note_bytes(note) + rest,
{
    lemma_le_capacities();
    if bytes == note_bytes(note) + rest {
        assert(bytes =~= le_bytes(note.value as nat, 8) + (note.pk@ + rest));
        lemma_take_le(bytes, 8, note.value as nat, note.pk@ + rest);
        lemma_take_32(note.pk@ + rest, note.pk, rest);
    }
    if take_note(bytes) == Some((note, rest)) {
        let (value, left) = take_le(bytes, 8)->0;
        lemma_take_le_bound(bytes, 8);
        lemma_take_32(left, note.pk, rest);
        assert(bytes =~= note_bytes(note) + rest);
    }
}

proof fn lemma_take_notes(bytes: Seq<u8>, notes: Seq<Note>, rest: Seq<u8>)
    ensures
        take_notes(bytes, notes.len()) == Some((notes, rest)) <==> bytes == joined_notes(notes)
            + rest,
    decreases notes.len(),
{
    if notes.len() == 0 {
        assert(joined_notes(notes) + bytes =~= bytes);
        assert(joined_notes(notes) + rest =~= rest);
        assert(notes =~= Seq::<Note>::empty());
    } else {
        let front = notes.drop_last();
        let last = notes.last();
        assert(front.push(last) =~= notes);
        if bytes == joined_notes(notes) + rest {
            let middle = note_bytes(last) + rest;
            assert(bytes =~= joined_notes(front) + middle);
            lemma_take_notes(bytes, front, middle);
            lemma_take_note(middle, last, rest);
        }
        if take_notes(bytes, notes.len()) == Some((notes, rest)) {
            let (read, middle) = take_notes(bytes, front.len())->0;
            let (note, left) = take_note(middle)->0;
            assert(read =~= front) by {
                assert(read.push(note).drop_last() =~= read);
            }
            assert(note == last) by {
                assert(read.push(note).last() == note);
            }
            lemma_take_notes(bytes, front, middle);
            lemma_take_note(middle, last, rest);
            assert(bytes =~= joined_notes(notes) + rest);
        }
    }
}

/// Reading outputs is the inverse of writing them.
pub proof fn outputs_round_trip(bytes: Seq<u8>, notes: Seq<Note>, rest: Seq<u8>)
    requires
        notes.len() <= MAX_TRANSFERS,
    ensures
        take_outputs(bytes) == Some((notes, rest)) <==> bytes == outputs_bytes(notes) + rest,
{
    lemma_le_capacities();
    if bytes == outputs_bytes(notes) + rest {
        assert(bytes =~= le_bytes(notes.len(), 1) + (joined_notes(notes) + rest));
        lemma_take_le(bytes, 1, notes.len(), joined_notes(notes) + rest);
        lemma_take_notes(joined_notes(notes) + rest, notes, rest);
    }
    if take_outputs(bytes) == Some((notes, rest)) {
        let (count, left) = take_le(bytes, 1)->0;
        lemma_take_le_bound(bytes, 1);
        lemma_taken_count(left, count);
        lemma_take_notes(left, notes, rest);
        assert(bytes =~= outputs_bytes(notes) + rest);
    }
}

proof fn lemma_taken_count(bytes: Seq<u8>, count: nat)
    ensures
        take_notes(bytes, count) matches Some((notes, _)) ==> notes.len() == count,
    decreases count,
{
    if count > 0 {
        lemma_taken_count(bytes, (count - 1) as nat);
    }
}

/// What notes on the ledger are worth, added up.
pub open spec fn ledger_value(ids: Seq<NoteId>, utxos: Map<NoteId, Utxo>) -> nat
    decreases ids.len(),
{
    if ids.len() == 0 {
        0
    } else {
        ledger_value(ids.drop_last(), utxos) + utxos[ids.last()].note.value as nat
    }
}

/// The amount of inputs is the sum of their values, and there is one exactly if
/// they are on the ledger and the sum can be held.
pub proof fn amount_is_the_sum_of_the_inputs(ids: Seq<NoteId>, utxos: Map<NoteId, Utxo>)
    ensures
        inputs_amount(ids, utxos) is Ok <==> ledger_value(ids, utxos) <= Value::MAX && forall|i: int|
            0 <= i < ids.len() ==> utxos.contains_key(#[trigger] ids[i]),
        inputs_amount(ids, utxos) matches Ok(amount) ==> amount == ledger_value(ids, utxos),
    decreases ids.len(),
{
    if ids.len() > 0 {
        let front = ids.drop_last();
        amount_is_the_sum_of_the_inputs(front, utxos);
        assert(ids[ids.len() - 1] == ids.last());
        assert forall|i: int| 0 <= i < front.len() implies #[trigger] front[i] == ids[i] by {}
        if inputs_amount(ids, utxos) is Ok {
            assert forall|i: int| 0 <= i < ids.len() implies utxos.contains_key(
                #[trigger] ids[i],
            ) by {
                if i < front.len() {
                    assert(utxos.contains_key(front[i]));
                }
            }
        }
    }
}

/// Inputs can be spent exactly if they are distinct and on the ledger, and then
/// they and nothing else leave it.
pub proof fn spending_takes_the_inputs_alone(ids: Seq<NoteId>, utxos: Map<NoteId, Utxo>)
    ensures
        inputs_spent(ids, utxos) is Ok <==> ids.no_duplicates() && forall|i: int|
            0 <= i < ids.len() ==> utxos.contains_key(#[trigger] ids[i]),
        inputs_spent(ids, utxos) matches Ok(left) ==> left == utxos.remove_keys(ids.to_set()),
    decreases ids.len(),
{
    if ids.len() == 0 {
        assert(utxos.remove_keys(ids.to_set()) =~= utxos);
    } else {
        let front = ids.drop_last();
        let last = ids.last();
        spending_takes_the_inputs_alone(front, utxos);
        assert(forall|i: int| 0 <= i < front.len() ==> #[trigger] front[i] == ids[i]);
        assert(ids[ids.len() - 1] == last);
        assert(ids.no_duplicates() <==> front.no_duplicates() && !front.contains(last)) by {
            if front.no_duplicates() && !front.contains(last) {
                assert forall|i: int, j: int|
                    0 <= i < ids.len() && 0 <= j < ids.len() && i != j implies ids[i] != ids[j] by {
                    if i < front.len() {
                        assert(front[i] == ids[i]);
                    }
                    if j < front.len() {
                        assert(front[j] == ids[j]);
                    }
                }
            }
            if ids.no_duplicates() && front.contains(last) {
                let i = choose|i: int| 0 <= i < front.len() && front[i] == last;
                assert(ids[i] == ids[ids.len() - 1]);
            }
        }
        assert forall|id: NoteId| #[trigger]
            ids.to_set().contains(id) == (front.to_set().contains(id) || id == last) by {
            if front.contains(id) {
                let i = choose|i: int| 0 <= i < front.len() && front[i] == id;
                assert(ids[i] == id);
            }
            if ids.contains(id) && id != last {
                let i = choose|i: int| 0 <= i < ids.len() && ids[i] == id;
                assert(front[i] == id);
            }
        }
        if let Ok(left) = inputs_spent(front, utxos) {
            assert(left.contains_key(last) <==> utxos.contains_key(last) && !front.contains(last));
            assert(left.remove(last) =~= utxos.remove_keys(ids.to_set()));
            assert(forall|i: int| 0 <= i < front.len() ==> utxos.contains_key(#[trigger] front[i]));
            assert(utxos.contains_key(last) ==> forall|i: int|
                0 <= i < ids.len() ==> utxos.contains_key(#[trigger] ids[i])) by {
                assert forall|i: int| utxos.contains_key(last) && 0 <= i < ids.len() implies utxos.contains_key(
                    #[trigger] ids[i],
                ) by {
                    if i < front.len() {
                        assert(utxos.contains_key(front[i]));
                    }
                }
            }
        }
    }
}

} // verus!
