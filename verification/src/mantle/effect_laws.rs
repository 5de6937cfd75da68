//! What each operation on a channel leaves behind: in the channel, on the ledger,
//! among the frozen notes and in the list of marked channels.

use vstd::prelude::*;

use crate::crypto::blake2b_256;
use crate::mantle::backing::{frozen_total, holds_its_notes, release_until_keeps_worth};
use crate::mantle::channel::{ChannelsView, Error};
use crate::mantle::ledger::{
    amount_is_the_sum_of_the_inputs, created_utxos, inputs_amount, inputs_spent, ledger_value,
    notes_value, spending_takes_the_inputs_alone, with_utxos, Event, EventPayload, OutputsError,
};
use crate::mantle::ledger_laws::{
    created_outputs_are_on_the_ledger, given_up, gives_up_notes, listed_notes_leave_everywhere,
    notes_released_for_an_amount_leave_everywhere,
};
use crate::mantle::operation_laws::{can_release, release_order_does_not_matter};
use crate::mantle::ops::channel::config::{
    config_bytes, config_outcome, config_releases, dropped_keys, ConfigView,
};
use crate::mantle::ops::channel::deposit::{
    deposit_bytes, deposit_outcome, owned_by, tells_of_deposit, DepositView,
};
use crate::mantle::ops::channel::withdraw::{
    reserve_of, withdraw_bytes, withdraw_outcome, WithdrawView,
};
use crate::mantle::ops::operation_id;
use crate::mantle::primitives::{
    ChannelId, Note, NoteId, Slot, TxHash, Utxo, Value, ZkPublicKey,
};
use crate::mantle::release::{
    orders, release_epoch, release_list, release_until, ReserveView,
};

verus! {

/// A withdrawal puts every one of its outputs on the ledger: under the identifier
/// given to it, with the operation's identifier, its number and its note, unless a
/// later output has the same identifier. All else on the ledger stays, but for the
/// notes that the channel gives up.
pub proof fn withdrawal_pays_every_output(
    op: WithdrawView,
    channels: ChannelsView,
    utxos: Map<NoteId, Utxo>,
    epoch: u32,
    ids: Seq<NoteId>,
)
    requires
        ids.len() == op.outputs.len(),
        op.outputs.len() <= usize::MAX,
    ensures
        withdraw_outcome(op, channels, utxos, epoch) matches Ok((after, left)) ==> {
            let op_id = operation_id(withdraw_bytes(op));
            let ledger = with_utxos(left, created_utxos(op_id, op.outputs), ids);
            let before_map = channels.channels[op.channel_id].frozen_note_map;
            let after_map = after.channels[op.channel_id].frozen_note_map;
            &&& forall|i: int|
                0 <= i < ids.len() ==> ledger.contains_key(#[trigger] ids[i])
            &&& forall|i: int|
                0 <= i < ids.len() && !ids.skip(i + 1).contains(#[trigger] ids[i]) ==> {
                    &&& ledger[ids[i]].op_id == op_id
                    &&& ledger[ids[i]].output_index == i
                    &&& ledger[ids[i]].note == op.outputs[i]
                }
            &&& forall|id: NoteId|
                !ids.contains(id) ==> (#[trigger] ledger.contains_key(id) <==> utxos.contains_key(id)
                    && !given_up(before_map, after_map, id))
            &&& forall|id: NoteId|
                !ids.contains(id) && #[trigger] ledger.contains_key(id) ==> ledger[id] == utxos[id]
        },
{
    if let Ok((after, left)) = withdraw_outcome(op, channels, utxos, epoch) {
        let op_id = operation_id(withdraw_bytes(op));
        let created = created_utxos(op_id, op.outputs);
        let channel = channels.channels[op.channel_id];
        let reserve = reserve_of(channels, utxos, op.channel_id);
        notes_released_for_an_amount_leave_everywhere(
            reserve,
            notes_value(op.outputs) as Value,
            epoch,
            channel.sequencers_zk_pks,
        );
        created_outputs_are_on_the_ledger(left, created, ids);
        let ledger = with_utxos(left, created, ids);
        assert forall|id: NoteId| !ids.contains(id) implies (#[trigger] ledger.contains_key(id)
            <==> utxos.contains_key(id) && !given_up(
            channel.frozen_note_map,
            after.channels[op.channel_id].frozen_note_map,
            id,
        )) by {
            assert(ledger.contains_key(id) <==> left.contains_key(id));
        }
        assert forall|id: NoteId|
            !ids.contains(id) && #[trigger] ledger.contains_key(id) implies ledger[id]
            == utxos[id] by {
            assert(left.contains_key(id));
        }
    }
}

/// What a withdrawal puts on the ledger is worth what the channel's solvency loses.
pub proof fn withdrawal_creates_what_it_takes(
    op: WithdrawView,
    channels: ChannelsView,
    utxos: Map<NoteId, Utxo>,
    epoch: u32,
    ids: Seq<NoteId>,
)
    requires
        ids.len() == op.outputs.len(),
        op.outputs.len() <= usize::MAX,
        ids.no_duplicates(),
    ensures
        withdraw_outcome(op, channels, utxos, epoch) matches Ok((after, left)) ==> ledger_value(
            ids,
            with_utxos(left, created_utxos(operation_id(withdraw_bytes(op)), op.outputs), ids),
        ) == channels.channels[op.channel_id].solvency - after.channels[op.channel_id].solvency,
{
    withdrawal_pays_every_output(op, channels, utxos, epoch, ids);
    if let Ok((after, left)) = withdraw_outcome(op, channels, utxos, epoch) {
        let op_id = operation_id(withdraw_bytes(op));
        let ledger = with_utxos(left, created_utxos(op_id, op.outputs), ids);
        assert forall|i: int| 0 <= i < ids.len() implies ledger[#[trigger] ids[i]].note
            == op.outputs[i] by {
            let tail = ids.skip(i + 1);
            if tail.contains(ids[i]) {
                let j = choose|j: int| 0 <= j < tail.len() && tail[j] == ids[i];
                assert(ids[i + 1 + j] == ids[i]);
            }
        }
        lemma_worth_of_created(ids, op.outputs, ledger);
    }
}

proof fn lemma_worth_of_created(ids: Seq<NoteId>, notes: Seq<Note>, ledger: Map<NoteId, Utxo>)
    requires
        ids.len() == notes.len(),
        forall|i: int| 0 <= i < ids.len() ==> ledger[#[trigger] ids[i]].note == notes[i],
    ensures
        ledger_value(ids, ledger) == notes_value(notes),
    decreases ids.len(),
{
    if ids.len() > 0 {
        let front = ids.drop_last();
        assert forall|i: int| 0 <= i < front.len() implies ledger[#[trigger] front[i]].note
            == notes.drop_last()[i] by {
            assert(front[i] == ids[i]);
        }
        lemma_worth_of_created(front, notes.drop_last(), ledger);
        assert(ids[ids.len() - 1] == ids.last());
    }
}

/// A withdrawal lowers solvency by the amount and raises the nonce by one. What the
/// channel holds otherwise loses the amount too, and the notes that it gives up are
/// no longer frozen. Its keys, thresholds, timing, tip and sequencers stay, and so
/// do the other channels, the marks and the other frozen notes.
pub proof fn withdrawal_changes_funds_and_nonce_alone(
    op: WithdrawView,
    channels: ChannelsView,
    utxos: Map<NoteId, Utxo>,
    epoch: u32,
)
    ensures
        withdraw_outcome(op, channels, utxos, epoch) matches Ok((after, left)) ==> {
            let before = channels.channels[op.channel_id];
            let now = after.channels[op.channel_id];
            &&& channels.channels.contains_key(op.channel_id)
            &&& notes_value(op.outputs) <= before.solvency
            &&& now.solvency == before.solvency - notes_value(op.outputs)
            &&& now.withdrawal_nonce == before.withdrawal_nonce + 1
            &&& holds_its_notes(before.frozen_note_map, channels.frozen_notes)
                ==> now.floating_balance + frozen_total(now.frozen_note_map, after.frozen_notes)
                + notes_value(op.outputs) == before.floating_balance + frozen_total(
                before.frozen_note_map,
                channels.frozen_notes,
            )
            &&& now.accredited_keys == before.accredited_keys
            &&& now.configuration_threshold == before.configuration_threshold
            &&& now.withdraw_threshold == before.withdraw_threshold
            &&& now.tip_message == before.tip_message
            &&& now.tip_slot == before.tip_slot
            &&& now.tip_sequencer == before.tip_sequencer
            &&& now.tip_sequencer_starting_slot == before.tip_sequencer_starting_slot
            &&& now.posting_timeframe == before.posting_timeframe
            &&& now.posting_timeout == before.posting_timeout
            &&& now.sequencers_zk_pks == before.sequencers_zk_pks
            &&& forall|id: NoteId| #[trigger]
                after.frozen_notes.contains_key(id) <==> channels.frozen_notes.contains_key(id)
                    && !given_up(before.frozen_note_map, now.frozen_note_map, id)
            &&& forall|id: NoteId| #[trigger]
                after.frozen_notes.contains_key(id) ==> after.frozen_notes[id]
                    == channels.frozen_notes[id]
            &&& after.mint_eligible_channels == channels.mint_eligible_channels
            &&& forall|id: ChannelId| #[trigger]
                after.channels.contains_key(id) <==> channels.channels.contains_key(id)
            &&& forall|id: ChannelId|
                id != op.channel_id ==> #[trigger] after.channels[id] == channels.channels[id]
        },
{
    if let Ok((after, left)) = withdraw_outcome(op, channels, utxos, epoch) {
        let channel = channels.channels[op.channel_id];
        let reserve = reserve_of(channels, utxos, op.channel_id);
        let amount = notes_value(op.outputs) as Value;
        notes_released_for_an_amount_leave_everywhere(
            reserve,
            amount,
            epoch,
            channel.sequencers_zk_pks,
        );
        if holds_its_notes(channel.frozen_note_map, channels.frozen_notes) {
            release_until_keeps_worth(reserve, amount, epoch, channel.sequencers_zk_pks);
        }
        let released = release_until(reserve, amount, epoch, channel.sequencers_zk_pks)->Ok_0;
        assert(gives_up_notes(reserve, released));
    }
}

/// A withdrawal whose outputs add up to too much, or from a channel that there is
/// not, fails. One that the floating balance covers goes through if the solvency
/// does too and the nonce can be raised.
pub proof fn withdrawal_goes_through_where_the_balance_covers_it(
    op: WithdrawView,
    channels: ChannelsView,
    utxos: Map<NoteId, Utxo>,
    epoch: u32,
)
    ensures
        ({
            let r = withdraw_outcome(op, channels, utxos, epoch);
            let channel = channels.channels[op.channel_id];
            let amount = notes_value(op.outputs);
            &&& amount > Value::MAX <==> r == Err::<(ChannelsView, Map<NoteId, Utxo>), Error>(
                Error::Outputs(OutputsError::AmountOverflow),
            )
            &&& amount <= Value::MAX && !channels.channels.contains_key(op.channel_id) <==> r == Err::<
                (ChannelsView, Map<NoteId, Utxo>),
                Error,
            >(Error::ChannelNotFound { channel_id: op.channel_id })
            &&& channels.channels.contains_key(op.channel_id) && amount <= channel.floating_balance
                && amount <= channel.solvency && channel.withdrawal_nonce < u32::MAX ==> r is Ok
            &&& r is Ok ==> amount <= channel.solvency && channel.withdrawal_nonce < u32::MAX
        }),
{
    let channel = channels.channels[op.channel_id];
    let amount = notes_value(op.outputs);
    if amount <= Value::MAX && channels.channels.contains_key(op.channel_id) {
        lemma_release_error_kinds(
            reserve_of(channels, utxos, op.channel_id),
            amount as Value,
            epoch,
            channel.sequencers_zk_pks,
        );
    }
}

proof fn lemma_release_error_kinds(
    reserve: ReserveView,
    amount: Value,
    epoch: u32,
    sequencers: Seq<ZkPublicKey>,
)
    ensures
        release_until(reserve, amount, epoch, sequencers) matches Err(e) ==> e is FrozenNotes
            || e is Inputs || e is BalanceOverflow || e is InsufficientFunds,
    decreases epoch,
{
    if amount > reserve.floating_balance {
        lemma_epoch_error_kinds(reserve, epoch, sequencers);
        if let Ok(next) = release_epoch(reserve, epoch, sequencers) {
            if epoch > 0 {
                lemma_release_error_kinds(next, amount, (epoch - 1) as u32, sequencers);
            }
        }
    }
}

proof fn lemma_epoch_error_kinds(
    reserve: ReserveView,
    epoch: u32,
    sequencers: Seq<ZkPublicKey>,
)
    ensures
        release_epoch(reserve, epoch, sequencers) matches Err(e) ==> e is FrozenNotes
            || e is Inputs || e is BalanceOverflow,
    decreases sequencers.len(),
{
    if sequencers.len() > 0 {
        lemma_epoch_error_kinds(reserve, epoch, sequencers.drop_last());
    }
}

/// After a configuration the channel has the keys, thresholds, timing and
/// sequencers that the operation gives, whether it existed before or not; the
/// operation is its tip, at the block's slot, and the first sequencer's turn begins
/// there.
pub proof fn configuration_takes_effect(
    op: ConfigView,
    channels: ChannelsView,
    utxos: Map<NoteId, Utxo>,
    slot: Slot,
    order: Seq<(u32, ZkPublicKey)>,
)
    ensures
        config_outcome(op, channels, utxos, slot, order) matches Ok((after, left)) ==> {
            let now = after.channels[op.channel];
            &&& after.channels.contains_key(op.channel)
            &&& now.accredited_keys == op.keys
            &&& now.configuration_threshold == op.configuration_threshold
            &&& now.withdraw_threshold == op.withdraw_threshold
            &&& now.posting_timeframe == op.posting_timeframe
            &&& now.posting_timeout == op.posting_timeout
            &&& now.sequencers_zk_pks == op.sequencer_zk_pks
            &&& now.tip_message == blake2b_256(config_bytes(op))
            &&& now.tip_slot == slot
            &&& now.tip_sequencer == 0
            &&& now.tip_sequencer_starting_slot == slot
            &&& forall|id: ChannelId|
                id != op.channel ==> (#[trigger] after.channels.contains_key(id)
                    <==> channels.channels.contains_key(id))
            &&& forall|id: ChannelId|
                id != op.channel ==> #[trigger] after.channels[id] == channels.channels[id]
        },
{
}

/// A configuration always creates a channel that there is not yet. The new channel
/// holds nothing and has paid nothing out, and nothing else changes.
pub proof fn configuration_creates_an_empty_channel(
    op: ConfigView,
    channels: ChannelsView,
    utxos: Map<NoteId, Utxo>,
    slot: Slot,
    order: Seq<(u32, ZkPublicKey)>,
)
    requires
        !channels.channels.contains_key(op.channel),
    ensures
        config_outcome(op, channels, utxos, slot, order) matches Ok((after, left)) && {
            let now = after.channels[op.channel];
            &&& now.floating_balance == 0
            &&& now.solvency == 0
            &&& now.withdrawal_nonce == 0
            &&& forall|key: (u32, ZkPublicKey)| !#[trigger] now.frozen_note_map.contains_key(key)
            &&& left == utxos
            &&& after.frozen_notes == channels.frozen_notes
            &&& after.mint_eligible_channels == channels.mint_eligible_channels
        },
{
}

/// A configuration of an existing channel goes through exactly if the notes of the
/// sequencers that it drops can be released. Then those notes, and no others, leave
/// the channel, the frozen notes and the ledger; the solvency and the nonce stay;
/// and the channel is marked for minting, unless it is already, exactly if its
/// floating balance then amounts to one unit at least for each sequencer.
pub proof fn configuration_keeps_funds_and_marks(
    op: ConfigView,
    channels: ChannelsView,
    utxos: Map<NoteId, Utxo>,
    slot: Slot,
    order: Seq<(u32, ZkPublicKey)>,
)
    requires
        channels.channels.contains_key(op.channel),
        orders(order, config_releases(op, channels)),
    ensures
        config_outcome(op, channels, utxos, slot, order) is Ok <==> can_release(
            reserve_of(channels, utxos, op.channel),
            dropped_keys(channels.channels[op.channel], op.sequencer_zk_pks),
        ),
        config_outcome(op, channels, utxos, slot, order) matches Ok((after, left)) ==> {
            let before = channels.channels[op.channel];
            let now = after.channels[op.channel];
            &&& now.solvency == before.solvency
            &&& now.withdrawal_nonce == before.withdrawal_nonce
            &&& forall|key: (u32, ZkPublicKey)| #[trigger]
                now.frozen_note_map.contains_key(key) <==> before.frozen_note_map.contains_key(key)
                    && (op.sequencer_zk_pks.contains(key.1) || !before.sequencers_zk_pks.contains(
                    key.1,
                ))
            &&& forall|key: (u32, ZkPublicKey)| #[trigger]
                now.frozen_note_map.contains_key(key) ==> now.frozen_note_map[key]
                    == before.frozen_note_map[key]
            &&& forall|id: NoteId| #[trigger]
                left.contains_key(id) <==> utxos.contains_key(id) && !given_up(
                    before.frozen_note_map,
                    now.frozen_note_map,
                    id,
                )
            &&& forall|id: NoteId| #[trigger] left.contains_key(id) ==> left[id] == utxos[id]
            &&& forall|id: NoteId| #[trigger]
                after.frozen_notes.contains_key(id) <==> channels.frozen_notes.contains_key(id)
                    && !given_up(before.frozen_note_map, now.frozen_note_map, id)
            &&& forall|id: NoteId| #[trigger]
                after.frozen_notes.contains_key(id) ==> after.frozen_notes[id]
                    == channels.frozen_notes[id]
            &&& now.floating_balance >= op.sequencer_zk_pks.len()
                && !channels.mint_eligible_channels.contains(op.channel)
                ==> after.mint_eligible_channels == channels.mint_eligible_channels.push(op.channel)
            &&& now.floating_balance < op.sequencer_zk_pks.len()
                || channels.mint_eligible_channels.contains(op.channel)
                ==> after.mint_eligible_channels == channels.mint_eligible_channels
        },
{
    let channel = channels.channels[op.channel];
    let reserve = reserve_of(channels, utxos, op.channel);
    let dropped = dropped_keys(channel, op.sequencer_zk_pks);
    assert forall|i: int| 0 <= i < order.len() implies reserve.frozen_note_map.contains_key(
        #[trigger] order[i],
    ) by {
        assert(order.to_set().contains(order[i]));
        assert(dropped.contains(order[i]));
    }
    release_order_does_not_matter(reserve, order);
    listed_notes_leave_everywhere(reserve, order);
    if let Ok((after, left)) = config_outcome(op, channels, utxos, slot, order) {
        let now = after.channels[op.channel];
        let released = release_list(reserve, order)->Ok_0;
        assert(gives_up_notes(reserve, released));
        assert forall|key: (u32, ZkPublicKey)| #[trigger] now.frozen_note_map.contains_key(key)
            <==> channel.frozen_note_map.contains_key(key) && (op.sequencer_zk_pks.contains(key.1)
            || !channel.sequencers_zk_pks.contains(key.1)) by {
            assert(order.to_set().contains(key) == order.contains(key));
            assert(dropped.contains(key) <==> channel.frozen_note_map.contains_key(key)
                && channel.sequencers_zk_pks.contains(key.1) && !op.sequencer_zk_pks.contains(
                key.1,
            ));
        }
    }
}

/// A deposit goes through exactly if its inputs are different notes on the ledger,
/// the channel is there, and neither the sum of the inputs nor the channel's
/// balances with it are too large.
pub proof fn deposit_goes_through_exactly_when(
    op: DepositView,
    channels: ChannelsView,
    utxos: Map<NoteId, Utxo>,
)
    ensures
        deposit_outcome(op, channels, utxos) is Ok <==> {
            let channel = channels.channels[op.channel_id];
            let amount = ledger_value(op.inputs, utxos);
            &&& op.inputs.no_duplicates()
            &&& forall|i: int|
                0 <= i < op.inputs.len() ==> utxos.contains_key(#[trigger] op.inputs[i])
            &&& amount <= Value::MAX
            &&& channels.channels.contains_key(op.channel_id)
            &&& channel.floating_balance + amount <= Value::MAX
            &&& channel.solvency + amount <= Value::MAX
        },
        deposit_outcome(op, channels, utxos) matches Err(e) ==> {
            ||| e matches Error::Inputs(fault) && (inputs_amount(op.inputs, utxos) == Err::<
                nat,
                _,
            >(fault) || inputs_amount(op.inputs, utxos) is Ok && inputs_spent(op.inputs, utxos)
                == Err::<Map<NoteId, Utxo>, _>(fault))
            ||| e == (Error::ChannelNotFound { channel_id: op.channel_id })
                && !channels.channels.contains_key(op.channel_id)
            ||| e == Error::BalanceOverflow && channels.channels.contains_key(op.channel_id)
        },
{
    amount_is_the_sum_of_the_inputs(op.inputs, utxos);
    spending_takes_the_inputs_alone(op.inputs, utxos);
}

/// A deposit takes its inputs, and nothing else, off the ledger, and adds what they
/// are worth to the channel's floating balance and solvency. The channel is marked
/// for minting, unless it is already, exactly if it has sequencers and one unit at
/// least for each of them. All else stays.
pub proof fn deposit_moves_the_inputs_into_the_channel(
    op: DepositView,
    channels: ChannelsView,
    utxos: Map<NoteId, Utxo>,
)
    ensures
        deposit_outcome(op, channels, utxos) matches Ok((after, left)) ==> {
            let before = channels.channels[op.channel_id];
            let now = after.channels[op.channel_id];
            let amount = ledger_value(op.inputs, utxos);
            let list = channels.mint_eligible_channels;
            &&& forall|id: NoteId| #[trigger]
                left.contains_key(id) <==> utxos.contains_key(id) && !op.inputs.contains(id)
            &&& forall|id: NoteId| #[trigger] left.contains_key(id) ==> left[id] == utxos[id]
            &&& now.floating_balance == before.floating_balance + amount
            &&& now.solvency == before.solvency + amount
            &&& now.accredited_keys == before.accredited_keys
            &&& now.configuration_threshold == before.configuration_threshold
            &&& now.withdraw_threshold == before.withdraw_threshold
            &&& now.tip_message == before.tip_message
            &&& now.tip_slot == before.tip_slot
            &&& now.tip_sequencer == before.tip_sequencer
            &&& now.tip_sequencer_starting_slot == before.tip_sequencer_starting_slot
            &&& now.posting_timeframe == before.posting_timeframe
            &&& now.posting_timeout == before.posting_timeout
            &&& now.sequencers_zk_pks == before.sequencers_zk_pks
            &&& now.withdrawal_nonce == before.withdrawal_nonce
            &&& now.frozen_note_map == before.frozen_note_map
            &&& after.frozen_notes == channels.frozen_notes
            &&& forall|id: ChannelId| #[trigger]
                after.channels.contains_key(id) <==> channels.channels.contains_key(id)
            &&& forall|id: ChannelId|
                id != op.channel_id ==> #[trigger] after.channels[id] == channels.channels[id]
            &&& 0 < now.sequencers_zk_pks.len() <= now.floating_balance && !list.contains(
                op.channel_id,
            ) ==> after.mint_eligible_channels == list.push(op.channel_id)
            &&& now.sequencers_zk_pks.len() == 0 || now.floating_balance
                < now.sequencers_zk_pks.len() || list.contains(op.channel_id)
                ==> after.mint_eligible_channels == list
        },
{
    amount_is_the_sum_of_the_inputs(op.inputs, utxos);
    spending_takes_the_inputs_alone(op.inputs, utxos);
    if let Ok((after, left)) = deposit_outcome(op, channels, utxos) {
        assert forall|id: NoteId| #[trigger] left.contains_key(id) <==> utxos.contains_key(id)
            && !op.inputs.contains(id) by {
            assert(op.inputs.to_set().contains(id) == op.inputs.contains(id));
        }
    }
}

/// The event of a deposit names the transaction, the operation, the channel, what
/// the inputs are worth, and the metadata.
pub proof fn event_tells_of_the_deposit(
    event: Event,
    tx_hash: TxHash,
    op: DepositView,
    utxos: Map<NoteId, Utxo>,
)
    requires
        inputs_amount(op.inputs, utxos) is Ok,
        tells_of_deposit(event, tx_hash, op, inputs_amount(op.inputs, utxos)->Ok_0),
    ensures
        event matches Event::Tx { tx_hash: hash, op_id, payload } && hash == tx_hash && op_id
            == operation_id(deposit_bytes(op)) && (payload matches EventPayload::Deposit {
            channel_id,
            amount,
            metadata,
        } && channel_id == op.channel_id && amount == ledger_value(op.inputs, utxos) && metadata@
            == op.metadata),
{
    amount_is_the_sum_of_the_inputs(op.inputs, utxos);
}

/// The owners of inputs are those that the ledger names, one for each input in
/// their order.
pub proof fn owners_are_those_on_the_ledger(
    ids: Seq<NoteId>,
    utxos: Map<NoteId, Utxo>,
    pks: Seq<ZkPublicKey>,
)
    requires
        owned_by(ids, utxos, pks),
    ensures
        pks.len() == ids.len(),
        forall|i: int|
            0 <= i < ids.len() ==> utxos.contains_key(#[trigger] ids[i]) && utxos[ids[i]].note.pk
                == pks[i],
{
}

} // verus!
