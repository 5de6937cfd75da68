//! Where each part of an operation stands in its bytes.

use vstd::arithmetic::power::pow;
use vstd::prelude::*;

use crate::crypto::blake2b_256;
use crate::mantle::codec::{
    joined32, le_bytes, le_value, lemma_array32, lemma_le_bytes_len, take_32, take_bytes, take_le,
    take_list32,
};
use crate::mantle::ledger::{inputs_bytes, joined_notes, note_bytes, outputs_bytes};
use crate::mantle::ops::channel::config::{config_bytes, keys_bytes, ConfigView};
use crate::mantle::ops::channel::deposit::{deposit_bytes, DepositOp, DepositView};
use crate::mantle::ops::channel::withdraw::{withdraw_bytes, ChannelWithdrawOp, WithdrawView};
use crate::mantle::ops::{
    is_handed_on, op_bytes, op_gas, op_name, op_payload, operation_id, operation_label,
    take_op, GasConstants, OpId, OpView,
};
use crate::mantle::primitives::Note;

verus! {

/// The number in the `width` bytes from `at` on, the lowest byte first.
pub open spec fn number_at(bytes: Seq<u8>, at: int, width: nat) -> nat
    decreases width,
{
    if width == 0 {
        0
    } else {
        bytes[at] as nat + 256 * number_at(bytes, at + 1, (width - 1) as nat)
    }
}

/// The bytes of `part` stand in `bytes` from `at` on.
pub open spec fn stands_at(bytes: Seq<u8>, at: int, part: Seq<u8>) -> bool {
    &&& 0 <= at
    &&& at + part.len() <= bytes.len()
    &&& forall|j: int| 0 <= j < part.len() ==> bytes[at + j] == #[trigger] part[j]
}

/// A note stands in `bytes` from `at` on: its value in eight bytes, then its key.
pub open spec fn note_at(bytes: Seq<u8>, at: int, note: Note) -> bool {
    &&& number_at(bytes, at, 8) == note.value
    &&& stands_at(bytes, at + 8, note.pk@)
}

/// Keys stand in `bytes` from `at` on: their number in two bytes, then each key.
pub open spec fn keys_at(bytes: Seq<u8>, at: int, keys: Seq<[u8; 32]>) -> bool {
    &&& number_at(bytes, at, 2) == keys.len()
    &&& forall|i: int|
        0 <= i < keys.len() ==> stands_at(bytes, at + 2 + 32 * i, (#[trigger] keys[i])@)
}

proof fn lemma_quotients(n: nat, i: nat)
    ensures
        pow(256, i) > 0,
        (n as int / 256) / pow(256, i) == n as int / pow(256, i + 1),
{
    vstd::arithmetic::power::lemma_pow_positive(256, i);
    vstd::arithmetic::power::lemma_pow_adds(256, 1, i);
    vstd::arithmetic::power::lemma_pow1(256);
    vstd::arithmetic::div_mod::lemma_div_denominator(n as int, 256, pow(256, i));
}

/// Each byte of an encoded number is one of its digits to the base of 256, the
/// lowest first.
pub proof fn bytes_of_a_number_are_its_digits(n: nat, width: nat)
    ensures
        le_bytes(n, width).len() == width,
        forall|i: int|
            0 <= i < width ==> #[trigger] le_bytes(n, width)[i] as int == (n as int / pow(
                256,
                i as nat,
            )) % 256,
    decreases width,
{
    if width > 0 {
        let rest = (width - 1) as nat;
        bytes_of_a_number_are_its_digits(n / 256, rest);
        assert forall|i: int| 0 <= i < width implies #[trigger] le_bytes(n, width)[i] as int == (
        n as int / pow(256, i as nat)) % 256 by {
            if i == 0 {
                vstd::arithmetic::power::lemma_pow0(256);
            } else {
                assert(le_bytes(n, width)[i] == le_bytes(n / 256, rest)[i - 1]);
                lemma_quotients(n, (i - 1) as nat);
            }
        }
    }
}

/// A number that fits into the bytes is read back from where it stands.
proof fn lemma_number_stands(bytes: Seq<u8>, at: int, n: nat, width: nat)
    requires
        stands_at(bytes, at, le_bytes(n, width)),
        n < pow(256, width),
    ensures
        number_at(bytes, at, width) == n,
    decreases width,
{
    lemma_le_bytes_len(n, width);
    if width > 0 {
        let rest = (width - 1) as nat;
        let part = le_bytes(n, width);
        let later = le_bytes(n / 256, rest);
        lemma_le_bytes_len(n / 256, rest);
        assert(bytes[at + 0] == part[0]);
        assert forall|j: int| 0 <= j < later.len() implies bytes[at + 1 + j] == #[trigger] later[j] by {
            assert(part[j + 1] == later[j]);
        }
        vstd::arithmetic::power::lemma_pow_adds(256, 1, rest);
        vstd::arithmetic::power::lemma_pow1(256);
        assert(n / 256 < pow(256, rest)) by (nonlinear_arith)
            requires
                n < pow(256, width),
                pow(256, width) == 256 * pow(256, rest),
        ;
        lemma_number_stands(bytes, at + 1, n / 256, rest);
    } else {
        vstd::arithmetic::power::lemma_pow0(256);
    }
}

proof fn lemma_capacities()
    ensures
        pow(256, 1) == 0x100,
        pow(256, 2) == 0x1_0000,
        pow(256, 4) == 0x1_0000_0000,
        pow(256, 8) == 0x1_0000_0000_0000_0000,
{
    reveal_with_fuel(pow, 9);
}

proof fn lemma_taken_value(bytes: Seq<u8>, at: int, width: nat)
    requires
        0 <= at,
        at + width <= bytes.len(),
    ensures
        le_value(bytes.subrange(at, at + width)) == number_at(
            bytes,
            at,
            width,
        ),
    decreases width,
{
    if width > 0 {
        let piece = bytes.subrange(at, at + width);
        assert(piece.skip(1) =~= bytes.subrange(at + 1, at + width));
        lemma_taken_value(bytes, at + 1, (width - 1) as nat);
    }
}

/// Reading takes off the front just what it reads, and fails exactly if the front
/// is too short.
pub proof fn reading_takes_off_the_front(bytes: Seq<u8>, n: nat)
    ensures
        take_le(bytes, n) == if bytes.len() < n {
            None::<(nat, Seq<u8>)>
        } else {
            Some((number_at(bytes, 0, n), bytes.skip(n as int)))
        },
        take_bytes(bytes, n) == if bytes.len() < n {
            None::<(Seq<u8>, Seq<u8>)>
        } else {
            Some((bytes.take(n as int), bytes.skip(n as int)))
        },
        take_32(bytes) is None <==> bytes.len() < 32,
        take_32(bytes) matches Some((item, rest)) ==> item@ == bytes.take(32) && rest
            == bytes.skip(32),
        take_list32(bytes, n) is None <==> bytes.len() < 32 * n,
        take_list32(bytes, n) matches Some((items, rest)) ==> {
            &&& items.len() == n
            &&& rest == bytes.skip(32 * n as int)
            &&& forall|i: int| 0 <= i < n ==> stands_at(bytes, 32 * i, (#[trigger] items[i])@)
        },
{
    if bytes.len() >= n {
        lemma_taken_value(bytes, 0, n);
        assert(bytes.take(n as int) =~= bytes.subrange(0, n as int));
    }
    if bytes.len() >= 32 {
        lemma_array32(bytes.take(32));
    }
    if let Some((items, rest)) = take_list32(bytes, n) {
        assert forall|i: int| 0 <= i < n implies stands_at(
            bytes,
            32 * i,
            (#[trigger] items[i])@,
        ) by {
            lemma_array32(bytes.subrange(32 * i, 32 * i + 32));
        }
    }
}

/// 32-byte strings stand one behind the other.
pub proof fn strings_stand_in_a_row(items: Seq<[u8; 32]>)
    ensures
        joined32(items).len() == 32 * items.len(),
        forall|i: int|
            0 <= i < items.len() ==> stands_at(joined32(items), 32 * i, (#[trigger] items[i])@),
{
    assert forall|i: int| 0 <= i < items.len() implies stands_at(
        joined32(items),
        32 * i,
        (#[trigger] items[i])@,
    ) by {
        assert forall|j: int| 0 <= j < 32 implies joined32(items)[32 * i + j]
            == #[trigger] items[i]@[j] by {
            assert((32 * i + j) / 32 == i);
            assert((32 * i + j) % 32 == j);
        }
    }
}

proof fn lemma_stands_within(bytes: Seq<u8>, at: int, part: Seq<u8>, inner: int, piece: Seq<u8>)
    requires
        stands_at(bytes, at, part),
        stands_at(part, inner, piece),
    ensures
        stands_at(bytes, at + inner, piece),
{
    assert forall|j: int| 0 <= j < piece.len() implies bytes[at + inner + j]
        == #[trigger] piece[j] by {
        assert(part[inner + j] == piece[j]);
        assert(bytes[at + (inner + j)] == part[inner + j]);
    }
}

proof fn lemma_parts_stand(a: Seq<u8>, b: Seq<u8>)
    ensures
        stands_at(a + b, 0, a),
        stands_at(a + b, a.len() as int, b),
{
}

proof fn lemma_number_within(bytes: Seq<u8>, at: int, part: Seq<u8>, inner: int, width: nat)
    requires
        stands_at(bytes, at, part),
        0 <= inner,
        inner + width <= part.len(),
    ensures
        number_at(bytes, at + inner, width) == number_at(part, inner, width),
    decreases width,
{
    if width > 0 {
        assert(bytes[at + inner] == part[inner]);
        lemma_number_within(bytes, at, part, inner + 1, (width - 1) as nat);
    }
}

/// A note takes forty bytes: its value, then its key.
pub proof fn note_is_value_and_key(note: Note)
    ensures
        note_bytes(note).len() == 40,
        note_at(note_bytes(note), 0, note),
{
    lemma_capacities();
    let value = le_bytes(note.value as nat, 8);
    lemma_le_bytes_len(note.value as nat, 8);
    lemma_parts_stand(value, note.pk@);
    lemma_number_stands(note_bytes(note), 0, note.value as nat, 8);
}

proof fn lemma_notes_in_a_row(notes: Seq<Note>)
    ensures
        joined_notes(notes).len() == 40 * notes.len(),
        forall|i: int|
            0 <= i < notes.len() ==> note_at(joined_notes(notes), 40 * i, #[trigger] notes[i]),
    decreases notes.len(),
{
    if notes.len() > 0 {
        let front = joined_notes(notes.drop_last());
        let last = note_bytes(notes.last());
        let bytes = joined_notes(notes);
        lemma_notes_in_a_row(notes.drop_last());
        note_is_value_and_key(notes.last());
        lemma_parts_stand(front, last);
        assert forall|i: int| 0 <= i < notes.len() implies note_at(
            bytes,
            40 * i,
            #[trigger] notes[i],
        ) by {
            if i < notes.len() - 1 {
                assert(notes.drop_last()[i] == notes[i]);
                lemma_number_within(bytes, 0, front, 40 * i, 8);
                lemma_stands_within(bytes, 0, front, 40 * i + 8, notes[i].pk@);
            } else {
                lemma_number_within(bytes, front.len() as int, last, 0, 8);
                lemma_stands_within(bytes, front.len() as int, last, 8, notes[i].pk@);
            }
        }
    }
}

/// Inputs are their number in one byte, then the identifiers in a row.
pub proof fn inputs_are_count_and_identifiers(ids: Seq<[u8; 32]>)
    requires
        ids.len() <= 255,
    ensures
        inputs_bytes(ids).len() == 1 + 32 * ids.len(),
        number_at(inputs_bytes(ids), 0, 1) == ids.len(),
        forall|i: int|
            0 <= i < ids.len() ==> stands_at(
                inputs_bytes(ids),
                1 + 32 * i,
                (#[trigger] ids[i])@,
            ),
{
    lemma_capacities();
    let count = le_bytes(ids.len(), 1);
    let bytes = inputs_bytes(ids);
    lemma_le_bytes_len(ids.len(), 1);
    strings_stand_in_a_row(ids);
    lemma_parts_stand(count, joined32(ids));
    lemma_number_stands(bytes, 0, ids.len(), 1);
    assert forall|i: int| 0 <= i < ids.len() implies stands_at(
        bytes,
        1 + 32 * i,
        (#[trigger] ids[i])@,
    ) by {
        lemma_stands_within(bytes, 1, joined32(ids), 32 * i, ids[i]@);
    }
}

/// Outputs are their number in one byte, then the notes in a row.
pub proof fn outputs_are_count_and_notes(notes: Seq<Note>)
    requires
        notes.len() <= 255,
    ensures
        outputs_bytes(notes).len() == 1 + 40 * notes.len(),
        number_at(outputs_bytes(notes), 0, 1) == notes.len(),
        forall|i: int|
            0 <= i < notes.len() ==> note_at(
                outputs_bytes(notes),
                1 + 40 * i,
                #[trigger] notes[i],
            ),
{
    lemma_capacities();
    let count = le_bytes(notes.len(), 1);
    let row = joined_notes(notes);
    let bytes = outputs_bytes(notes);
    lemma_le_bytes_len(notes.len(), 1);
    lemma_notes_in_a_row(notes);
    lemma_parts_stand(count, row);
    lemma_number_stands(bytes, 0, notes.len(), 1);
    assert forall|i: int| 0 <= i < notes.len() implies note_at(
        bytes,
        1 + 40 * i,
        #[trigger] notes[i],
    ) by {
        lemma_number_within(bytes, 1, row, 40 * i, 8);
        assert(stands_at(row, 40 * i + 8, notes[i].pk@));
        lemma_stands_within(bytes, 1, row, 40 * i + 8, notes[i].pk@);
    }
}

/// A withdrawal is the channel, the outputs, and the nonce in four bytes.
pub proof fn withdrawal_is_channel_outputs_and_nonce(op: WithdrawView)
    requires
        op.outputs.len() <= 255,
    ensures
        ({
            let bytes = withdraw_bytes(op);
            let n = op.outputs.len() as int;
            &&& bytes.len() == 32 + 1 + 40 * n + 4
            &&& stands_at(bytes, 0, op.channel_id@)
            &&& number_at(bytes, 32, 1) == n
            &&& forall|i: int|
                0 <= i < n ==> note_at(bytes, 33 + 40 * i, #[trigger] op.outputs[i])
            &&& number_at(bytes, 33 + 40 * n, 4) == op.withdraw_nonce
        }),
{
    lemma_capacities();
    let bytes = withdraw_bytes(op);
    let n = op.outputs.len() as int;
    let outputs = outputs_bytes(op.outputs);
    let nonce = le_bytes(op.withdraw_nonce as nat, 4);
    outputs_are_count_and_notes(op.outputs);
    lemma_le_bytes_len(op.withdraw_nonce as nat, 4);
    lemma_parts_stand(op.channel_id@, outputs);
    lemma_parts_stand(op.channel_id@ + outputs, nonce);
    lemma_stands_within(bytes, 0, op.channel_id@ + outputs, 0, op.channel_id@);
    lemma_stands_within(bytes, 0, op.channel_id@ + outputs, 32, outputs);
    lemma_number_within(bytes, 32, outputs, 0, 1);
    assert forall|i: int| 0 <= i < n implies note_at(
        bytes,
        33 + 40 * i,
        #[trigger] op.outputs[i],
    ) by {
        lemma_number_within(bytes, 32, outputs, 1 + 40 * i, 8);
        assert(stands_at(outputs, 1 + 40 * i + 8, op.outputs[i].pk@));
        lemma_stands_within(bytes, 32, outputs, 1 + 40 * i + 8, op.outputs[i].pk@);
    }
    lemma_number_stands(bytes, 33 + 40 * n, op.withdraw_nonce as nat, 4);
}

/// A deposit is the channel, the inputs, and the metadata behind its length in
/// four bytes.
pub proof fn deposit_is_channel_inputs_and_metadata(op: DepositView)
    requires
        op.inputs.len() <= 255,
        op.metadata.len() <= 0xffff_ffff,
    ensures
        ({
            let bytes = deposit_bytes(op);
            let n = op.inputs.len() as int;
            &&& bytes.len() == 32 + 1 + 32 * n + 4 + op.metadata.len()
            &&& stands_at(bytes, 0, op.channel_id@)
            &&& number_at(bytes, 32, 1) == n
            &&& forall|i: int|
                0 <= i < n ==> stands_at(bytes, 33 + 32 * i, (#[trigger] op.inputs[i])@)
            &&& number_at(bytes, 33 + 32 * n, 4) == op.metadata.len()
            &&& stands_at(bytes, 37 + 32 * n, op.metadata)
        }),
{
    lemma_capacities();
    let bytes = deposit_bytes(op);
    let n = op.inputs.len() as int;
    let inputs = inputs_bytes(op.inputs);
    let length = le_bytes(op.metadata.len(), 4);
    let tail = length + op.metadata;
    inputs_are_count_and_identifiers(op.inputs);
    lemma_le_bytes_len(op.metadata.len(), 4);
    lemma_parts_stand(op.channel_id@, inputs);
    lemma_parts_stand(op.channel_id@ + inputs, tail);
    lemma_parts_stand(length, op.metadata);
    lemma_stands_within(bytes, 0, op.channel_id@ + inputs, 0, op.channel_id@);
    lemma_stands_within(bytes, 0, op.channel_id@ + inputs, 32, inputs);
    lemma_number_within(bytes, 32, inputs, 0, 1);
    assert forall|i: int| 0 <= i < n implies stands_at(
        bytes,
        33 + 32 * i,
        (#[trigger] op.inputs[i])@,
    ) by {
        lemma_stands_within(bytes, 32, inputs, 1 + 32 * i, op.inputs[i]@);
    }
    lemma_stands_within(bytes, 33 + 32 * n, tail, 0, length);
    lemma_stands_within(bytes, 33 + 32 * n, tail, 4, op.metadata);
    lemma_number_stands(bytes, 33 + 32 * n, op.metadata.len(), 4);
}

proof fn lemma_keys_stand(keys: Seq<[u8; 32]>)
    requires
        keys.len() <= 0xffff,
    ensures
        keys_bytes(keys).len() == 2 + 32 * keys.len(),
        keys_at(keys_bytes(keys), 0, keys),
{
    lemma_capacities();
    let count = le_bytes(keys.len(), 2);
    let bytes = keys_bytes(keys);
    lemma_le_bytes_len(keys.len(), 2);
    strings_stand_in_a_row(keys);
    lemma_parts_stand(count, joined32(keys));
    lemma_number_stands(bytes, 0, keys.len(), 2);
    assert forall|i: int| 0 <= i < keys.len() implies stands_at(
        bytes,
        0 + 2 + 32 * i,
        (#[trigger] keys[i])@,
    ) by {
        lemma_stands_within(bytes, 2, joined32(keys), 32 * i, keys[i]@);
    }
}

proof fn lemma_keys_within(bytes: Seq<u8>, at: int, keys: Seq<[u8; 32]>)
    requires
        keys.len() <= 0xffff,
        stands_at(bytes, at, keys_bytes(keys)),
    ensures
        keys_at(bytes, at, keys),
{
    lemma_keys_stand(keys);
    let part = keys_bytes(keys);
    lemma_number_within(bytes, at, part, 0, 2);
    assert forall|i: int| 0 <= i < keys.len() implies stands_at(
        bytes,
        at + 2 + 32 * i,
        (#[trigger] keys[i])@,
    ) by {
        assert(stands_at(part, 0 + 2 + 32 * i, keys[i]@));
        lemma_stands_within(bytes, at, part, 2 + 32 * i, keys[i]@);
    }
}

/// A configuration is the channel, the accredited keys, the timeframe and the
/// timeout in four bytes each, the threshold for configurations and that for
/// withdrawals in two bytes each, and the sequencers' keys.
pub proof fn configuration_is_channel_keys_numbers_and_sequencers(op: ConfigView)
    requires
        op.keys.len() <= 0xffff,
        op.sequencer_zk_pks.len() <= 0xffff,
    ensures
        ({
            let bytes = config_bytes(op);
            let at = 34 + 32 * op.keys.len() as int;
            &&& bytes.len() == at + 12 + 2 + 32 * op.sequencer_zk_pks.len()
            &&& stands_at(bytes, 0, op.channel@)
            &&& keys_at(bytes, 32, op.keys)
            &&& number_at(bytes, at, 4) == op.posting_timeframe.0
            &&& number_at(bytes, at + 4, 4) == op.posting_timeout.0
            &&& number_at(bytes, at + 8, 2) == op.configuration_threshold
            &&& number_at(bytes, at + 10, 2) == op.withdraw_threshold
            &&& keys_at(bytes, at + 12, op.sequencer_zk_pks)
        }),
{
    lemma_capacities();
    let bytes = config_bytes(op);
    let at = 34 + 32 * op.keys.len() as int;
    let keys = keys_bytes(op.keys);
    let a = le_bytes(op.posting_timeframe.0 as nat, 4);
    let b = le_bytes(op.posting_timeout.0 as nat, 4);
    let c = le_bytes(op.configuration_threshold as nat, 2);
    let d = le_bytes(op.withdraw_threshold as nat, 2);
    let numbers = a + b + c + d;
    let sequencers = keys_bytes(op.sequencer_zk_pks);
    lemma_keys_stand(op.keys);
    lemma_keys_stand(op.sequencer_zk_pks);
    lemma_le_bytes_len(op.posting_timeframe.0 as nat, 4);
    lemma_le_bytes_len(op.posting_timeout.0 as nat, 4);
    lemma_le_bytes_len(op.configuration_threshold as nat, 2);
    lemma_le_bytes_len(op.withdraw_threshold as nat, 2);
    assert(bytes == op.channel@ + keys + numbers + sequencers);
    assert(stands_at(bytes, 0, op.channel@));
    assert(stands_at(bytes, 32, keys));
    assert(stands_at(bytes, at, a));
    assert(stands_at(bytes, at + 4, b));
    assert(stands_at(bytes, at + 8, c));
    assert(stands_at(bytes, at + 10, d));
    assert(stands_at(bytes, at + 12, sequencers));
    lemma_keys_within(bytes, 32, op.keys);
    lemma_keys_within(bytes, at + 12, op.sequencer_zk_pks);
    lemma_number_stands(bytes, at, op.posting_timeframe.0 as nat, 4);
    lemma_number_stands(bytes, at + 4, op.posting_timeout.0 as nat, 4);
    lemma_number_stands(bytes, at + 8, op.configuration_threshold as nat, 2);
    lemma_number_stands(bytes, at + 10, op.withdraw_threshold as nat, 2);
}

/// An operation's bytes are one byte that tells its kind, and its encoding.
/// Operations that are handed on are their encoding.
pub proof fn operation_is_code_and_encoding(op: OpView)
    ensures
        op_bytes(op).len() == 1 + op_payload(op).len(),
        op_bytes(op).skip(1) == op_payload(op),
        match op {
            OpView::Transfer(payload) => op_bytes(op)[0] == 0x00 && op_payload(op) == payload,
            OpView::ChannelConfig(config) => op_bytes(op)[0] == 0x10 && op_payload(op)
                == config_bytes(config),
            OpView::ChannelInscribe(payload) => op_bytes(op)[0] == 0x11 && op_payload(op)
                == payload,
            OpView::ChannelDeposit(deposit) => op_bytes(op)[0] == 0x12 && op_payload(op)
                == deposit_bytes(deposit),
            OpView::ChannelWithdraw(withdrawal) => op_bytes(op)[0] == 0x13 && op_payload(op)
                == withdraw_bytes(withdrawal),
            OpView::SDPDeclare(payload) => op_bytes(op)[0] == 0x20 && op_payload(op) == payload,
            OpView::SDPWithdraw(payload) => op_bytes(op)[0] == 0x21 && op_payload(op) == payload,
            OpView::SDPActive(payload) => op_bytes(op)[0] == 0x22 && op_payload(op) == payload,
            OpView::LeaderClaim(payload) => op_bytes(op)[0] == 0x30 && op_payload(op) == payload,
        },
{
    reveal_with_fuel(le_bytes, 2);
    assert(op_bytes(op).skip(1) =~= op_payload(op));
}

/// No operation is read off bytes that begin with another code than the nine. An
/// operation that is handed on is read as the kind that the code tells, and keeps
/// the bytes behind the code, as many as were told.
pub proof fn operation_is_read_by_its_code(bytes: Seq<u8>, length: Option<usize>)
    requires
        bytes.len() > 0,
    ensures
        ({
            let code = bytes[0];
            let taken = take_op(bytes, length);
            &&& is_handed_on(code) <==> code == 0x00 || code == 0x11 || code == 0x20 || code == 0x21
                || code == 0x22 || code == 0x30
            &&& !is_handed_on(code) && code != 0x10 && code != 0x12 && code != 0x13
                ==> taken is None
            &&& is_handed_on(code) ==> (taken is Some <==> length is Some && length->0
                < bytes.len())
            &&& is_handed_on(code) && taken is Some ==> {
                let payload = bytes.subrange(1, 1 + length->0);
                &&& (taken->0).1 == bytes.skip(1 + length->0)
                &&& (taken->0).0 == match code {
                    0x00 => OpView::Transfer(payload),
                    0x11 => OpView::ChannelInscribe(payload),
                    0x20 => OpView::SDPDeclare(payload),
                    0x21 => OpView::SDPWithdraw(payload),
                    0x22 => OpView::SDPActive(payload),
                    _ => OpView::LeaderClaim(payload),
                }
            }
            &&& code == 0x10 && taken is Some ==> (taken->0).0 is ChannelConfig
            &&& code == 0x12 && taken is Some ==> (taken->0).0 is ChannelDeposit
            &&& code == 0x13 && taken is Some ==> (taken->0).0 is ChannelWithdraw
        }),
{
    reading_takes_off_the_front(bytes, 1);
    reveal_with_fuel(number_at, 2);
    let rest = bytes.skip(1);
    if let Some(n) = length {
        if n <= rest.len() {
            assert(rest.take(n as int) =~= bytes.subrange(1, 1 + n));
            assert(rest.skip(n as int) =~= bytes.skip(1 + n));
        }
    }
}

/// An operation is named and charged for by its kind.
pub proof fn operation_has_the_name_and_cost_of_its_kind(op: OpView, constants: GasConstants)
    ensures
        op is Transfer ==> op_name(op) == "Transfer"@ && op_gas(op, constants)
            == constants.transfer,
        op is ChannelConfig ==> op_name(op) == "ChannelConfig"@ && op_gas(op, constants)
            == constants.channel_config,
        op is ChannelInscribe ==> op_name(op) == "ChannelInscribe"@ && op_gas(op, constants)
            == constants.channel_inscribe,
        op is ChannelDeposit ==> op_name(op) == "ChannelDeposit"@ && op_gas(op, constants)
            == constants.channel_deposit,
        op is ChannelWithdraw ==> op_name(op) == "ChannelWithdraw"@ && op_gas(op, constants)
            == constants.channel_withdraw,
        op is SDPDeclare ==> op_name(op) == "SDPDeclare"@ && op_gas(op, constants)
            == constants.sdp_declare,
        op is SDPWithdraw ==> op_name(op) == "SDPWithdraw"@ && op_gas(op, constants)
            == constants.sdp_withdraw,
        op is SDPActive ==> op_name(op) == "SDPActive"@ && op_gas(op, constants)
            == constants.sdp_active,
        op is LeaderClaim ==> op_name(op) == "LeaderClaim"@ && op_gas(op, constants)
            == constants.leader_claim,
{
}

/// An operation's identifier is the hash of the text `OPERATION_ID_V1` and the
/// encoding, without the code.
pub proof fn identifier_is_the_hash_of_label_and_encoding(
    deposit: DepositOp,
    withdrawal: ChannelWithdrawOp,
)
    ensures
        operation_label().map_values(|b: u8| b as char) == "OPERATION_ID_V1"@,
        operation_id(deposit.op_encoding()) == blake2b_256(
            operation_label() + deposit_bytes(deposit@),
        ),
        operation_id(withdrawal.op_encoding()) == blake2b_256(
            operation_label() + withdraw_bytes(withdrawal@),
        ),
{
    reveal_strlit("OPERATION_ID_V1");
    assert(operation_label().map_values(|b: u8| b as char) =~= "OPERATION_ID_V1"@);
}

} // verus!
