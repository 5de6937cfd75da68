//! How releases of several notes are made up of releases of single ones, and what
//! withdrawals and configurations take from them.

use vstd::prelude::*;

use crate::mantle::channel::{
    genesis_result, no_channels, Channels, ChannelsView, Error, InscriptionExecutionContext,
};
use crate::mantle::ledger::{inputs_amount, inputs_spent, notes_value, Events};
use crate::mantle::ops::channel::config::{config_outcome, ConfigView};
use crate::mantle::ops::channel::deposit::{deposit_outcome, DepositView};
use crate::mantle::ops::channel::withdraw::{
    lemma_released_covers, reserve_of, withdraw_outcome, WithdrawView,
};
use crate::mantle::primitives::{ChannelId, NoteId, Slot, Utxo, Value, ZkPublicKey};
use crate::mantle::release::{
    release_epoch, release_list, release_note, release_until, ReserveView,
};

verus! {

/// Releasing one list of notes and then another is releasing both as one list; no
/// notes are released without change, and one as a single one. The first that
/// cannot be released ends it with its error.
pub proof fn lists_are_released_note_by_note(
    reserve: ReserveView,
    first: Seq<(u32, ZkPublicKey)>,
    second: Seq<(u32, ZkPublicKey)>,
    key: (u32, ZkPublicKey),
)
    ensures
        release_list(reserve, Seq::empty()) == Ok::<ReserveView, Error>(reserve),
        release_list(reserve, seq![key]) == release_note(reserve, key),
        release_list(reserve, first + second) == match release_list(reserve, first) {
            Ok(between) => release_list(between, second),
            Err(e) => Err(e),
        },
    decreases second.len(),
{
    reveal_with_fuel(release_list, 2);
    assert(seq![key].drop_last() =~= Seq::empty());
    if second.len() == 0 {
        assert(first + second =~= first);
        if let Ok(between) = release_list(reserve, first) {
            assert(release_list(between, second) == Ok::<ReserveView, Error>(between));
        }
    } else {
        lists_are_released_note_by_note(reserve, first, second.drop_last(), key);
        assert((first + second).drop_last() =~= first + second.drop_last());
        assert((first + second).last() == second.last());
    }
}

/// An epoch's notes of some sequencers are those under the epoch and each of them,
/// in their order.
pub proof fn epoch_is_released_sequencer_by_sequencer(
    reserve: ReserveView,
    epoch: u32,
    sequencers: Seq<ZkPublicKey>,
)
    ensures
        release_epoch(reserve, epoch, sequencers) == release_list(
            reserve,
            sequencers.map_values(|pk: ZkPublicKey| (epoch, pk)),
        ),
    decreases sequencers.len(),
{
    let keys = sequencers.map_values(|pk: ZkPublicKey| (epoch, pk));
    if sequencers.len() > 0 {
        let front = sequencers.drop_last();
        epoch_is_released_sequencer_by_sequencer(reserve, epoch, front);
        assert(keys.drop_last() =~= front.map_values(|pk: ZkPublicKey| (epoch, pk)));
    }
}

/// What the floating balance covers releases nothing. What it does not releases
/// the epoch's notes first, and then whatever the earlier epochs release; if there
/// is no earlier epoch and the amount is still not covered, there is not enough.
pub proof fn amount_is_released_epoch_by_epoch(
    reserve: ReserveView,
    amount: Value,
    epoch: u32,
    sequencers: Seq<ZkPublicKey>,
)
    ensures
        amount <= reserve.floating_balance ==> release_until(reserve, amount, epoch, sequencers)
            == Ok::<ReserveView, Error>(reserve),
        amount > reserve.floating_balance ==> release_until(reserve, amount, epoch, sequencers)
            == match release_epoch(reserve, epoch, sequencers) {
            Err(e) => Err(e),
            Ok(after) => if amount <= after.floating_balance {
                Ok(after)
            } else if epoch == 0 {
                Err(Error::InsufficientFunds)
            } else {
                release_until(after, amount, (epoch - 1) as u32, sequencers)
            },
        },
{
    reveal_with_fuel(release_until, 2);
}

/// A withdrawal from a channel takes what is released for its amount from the
/// channel's own notes and balance, and from the ledger. It fails as the release
/// does, and after it if the channel's solvency is too small or the nonce cannot
/// be raised.
pub proof fn withdrawal_is_paid_from_what_is_released(
    op: WithdrawView,
    channels: ChannelsView,
    utxos: Map<NoteId, Utxo>,
    epoch: u32,
)
    requires
        channels.channels.contains_key(op.channel_id),
        notes_value(op.outputs) <= Value::MAX,
    ensures
        ({
            let channel = channels.channels[op.channel_id];
            let reserve = ReserveView {
                frozen_note_map: channel.frozen_note_map,
                frozen_notes: channels.frozen_notes,
                utxos,
                floating_balance: channel.floating_balance,
            };
            let amount = notes_value(op.outputs) as Value;
            let r = withdraw_outcome(op, channels, utxos, epoch);
            match release_until(reserve, amount, epoch, channel.sequencers_zk_pks) {
                Err(e) => r == Err::<(ChannelsView, Map<NoteId, Utxo>), Error>(e),
                Ok(released) => {
                    &&& amount > channel.solvency ==> r == Err::<
                        (ChannelsView, Map<NoteId, Utxo>),
                        Error,
                    >(Error::InsufficientFunds)
                    &&& amount <= channel.solvency && channel.withdrawal_nonce == u32::MAX
                        ==> r == Err::<(ChannelsView, Map<NoteId, Utxo>), Error>(
                        Error::WithdrawNonceOverflow,
                    )
                    &&& amount <= channel.solvency && channel.withdrawal_nonce < u32::MAX ==> {
                        &&& r matches Ok((after, left))
                        &&& left == released.utxos
                        &&& after.frozen_notes == released.frozen_notes
                        &&& after.channels[op.channel_id].frozen_note_map
                            == released.frozen_note_map
                        &&& after.channels[op.channel_id].floating_balance + amount
                            == released.floating_balance
                    }
                },
            }
        }),
{
    let channel = channels.channels[op.channel_id];
    lemma_released_covers(
        reserve_of(channels, utxos, op.channel_id),
        notes_value(op.outputs) as Value,
        epoch,
        channel.sequencers_zk_pks,
    );
}

/// A configuration of an existing channel takes what is released of its notes from
/// the channel, the frozen notes and the ledger, and fails as the release does.
pub proof fn configuration_keeps_what_is_not_released(
    op: ConfigView,
    channels: ChannelsView,
    utxos: Map<NoteId, Utxo>,
    slot: Slot,
    order: Seq<(u32, ZkPublicKey)>,
)
    requires
        channels.channels.contains_key(op.channel),
    ensures
        ({
            let channel = channels.channels[op.channel];
            let reserve = ReserveView {
                frozen_note_map: channel.frozen_note_map,
                frozen_notes: channels.frozen_notes,
                utxos,
                floating_balance: channel.floating_balance,
            };
            let r = config_outcome(op, channels, utxos, slot, order);
            match release_list(reserve, order) {
                Err(e) => r == Err::<(ChannelsView, Map<NoteId, Utxo>), Error>(e),
                Ok(released) => {
                    &&& r matches Ok((after, left))
                    &&& left == released.utxos
                    &&& after.frozen_notes == released.frozen_notes
                    &&& after.channels[op.channel].frozen_note_map == released.frozen_note_map
                    &&& after.channels[op.channel].floating_balance == released.floating_balance
                },
            }
        }),
{
}

/// A deposit fails for the first of: its inputs have no amount, they cannot be
/// spent, there is no such channel, a balance would be too large.
pub proof fn deposit_fails_for_the_first_fault(
    op: DepositView,
    channels: ChannelsView,
    utxos: Map<NoteId, Utxo>,
)
    ensures
        ({
            let r = deposit_outcome(op, channels, utxos);
            let channel = channels.channels[op.channel_id];
            let amount = inputs_amount(op.inputs, utxos);
            let spent = inputs_spent(op.inputs, utxos);
            &&& amount matches Err(e) ==> r == Err::<(ChannelsView, Map<NoteId, Utxo>), Error>(
                Error::Inputs(e),
            )
            &&& amount is Ok ==> (spent matches Err(e) ==> r == Err::<
                (ChannelsView, Map<NoteId, Utxo>),
                Error,
            >(Error::Inputs(e)))
            &&& amount is Ok && spent is Ok && !channels.channels.contains_key(op.channel_id)
                ==> r == Err::<(ChannelsView, Map<NoteId, Utxo>), Error>(
                Error::ChannelNotFound { channel_id: op.channel_id },
            )
            &&& amount is Ok && spent is Ok && channels.channels.contains_key(op.channel_id) && (
            channel.floating_balance + amount->Ok_0 > Value::MAX || channel.solvency
                + amount->Ok_0 > Value::MAX) ==> r == Err::<
                (ChannelsView, Map<NoteId, Utxo>),
                Error,
            >(Error::BalanceOverflow)
        }),
{
}

/// Before the genesis block there is no channel, no mark and no frozen note.
pub proof fn nothing_comes_before_genesis(id: ChannelId, note_id: NoteId)
    ensures
        !no_channels().channels.contains_key(id),
        !no_channels().frozen_notes.contains_key(note_id),
        no_channels().mint_eligible_channels.len() == 0,
{
}

/// What the genesis block's inscription comes to is what its execution came to:
/// the same channels and events, or the same error.
pub proof fn genesis_is_what_its_inscription_does(
    r: Result<(Channels, Events), Error>,
    slot: Slot,
    context: InscriptionExecutionContext,
    events: Events,
    e: Error,
)
    ensures
        genesis_result(r, slot) == Ok::<_, Error>((context, events)) <==> r == Ok::<_, Error>(
            (context.channels, events),
        ) && context.block_slot == slot,
        genesis_result(r, slot) == Err::<(InscriptionExecutionContext, Events), _>(e) <==> r
            == Err::<(Channels, Events), _>(e),
{
}

} // verus!
