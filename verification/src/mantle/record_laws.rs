//! What records say, and how numbers and errors are carried over from one type to
//! another.

use vstd::prelude::*;
use vstd::std_specs::convert::FromSpec;

use crate::mantle::channel::{ChannelState, Channels, Error, SlotTimeframe, SlotTimeout};
use crate::mantle::frozen_notes;
use crate::mantle::ledger::{InputsError, OutputsError};
use crate::mantle::ops::channel::config::ChannelConfigOp;
use crate::mantle::ops::channel::deposit::DepositOp;
use crate::mantle::ops::channel::withdraw::ChannelWithdrawOp;
use crate::mantle::primitives::{Epoch, Slot};
use crate::mantle::release::Reserve;
use crate::sdp::{Declaration, DeclarationMessage};

verus! {

/// Numbers of slots, epochs and slots are the numbers that they are made from,
/// and give them back.
pub proof fn numbers_are_carried_over_unchanged(n: u32, m: u64)
    ensures
        <SlotTimeframe as FromSpec<u32>>::from_spec(n).0 == n,
        <u32 as FromSpec<SlotTimeframe>>::from_spec(SlotTimeframe(n)) == n,
        <SlotTimeout as FromSpec<u32>>::from_spec(n).0 == n,
        <u32 as FromSpec<SlotTimeout>>::from_spec(SlotTimeout(n)) == n,
        <Epoch as FromSpec<u32>>::from_spec(n).0 == n,
        <Slot as FromSpec<u64>>::from_spec(m).0 == m,
{
}

/// The errors of inputs, outputs and frozen notes are told from each other, and
/// keep what they say.
pub proof fn errors_are_carried_over_whole(
    inputs: InputsError,
    outputs: OutputsError,
    frozen: frozen_notes::Error,
)
    ensures
        <Error as FromSpec<InputsError>>::from_spec(inputs) matches Error::Inputs(e) && e == inputs,
        <Error as FromSpec<OutputsError>>::from_spec(outputs) matches Error::Outputs(e) && e
            == outputs,
        <Error as FromSpec<frozen_notes::Error>>::from_spec(frozen) matches Error::FrozenNotes(e)
            && e == frozen,
{
}

/// A channel's record says what each of its fields holds.
pub proof fn channel_says_what_it_holds(state: ChannelState)
    ensures
        state@.accredited_keys == state.accredited_keys@,
        state@.configuration_threshold == state.configuration_threshold,
        state@.withdraw_threshold == state.withdraw_threshold,
        state@.tip_message == state.tip_message,
        state@.tip_slot == state.tip_slot,
        state@.tip_sequencer == state.tip_sequencer,
        state@.tip_sequencer_starting_slot == state.tip_sequencer_starting_slot,
        state@.posting_timeframe == state.posting_timeframe,
        state@.posting_timeout == state.posting_timeout,
        state@.floating_balance == state.floating_balance,
        state@.solvency == state.solvency,
        state@.frozen_note_map == state.frozen_note_map@,
        state@.sequencers_zk_pks == state.sequencers_zk_pks@,
        state@.withdrawal_nonce == state.withdrawal_nonce,
{
}

/// The channels as a whole, and what a release works on, say what each of their
/// fields holds.
pub proof fn channels_say_what_they_hold(channels: Channels, reserve: Reserve)
    ensures
        channels@.channels == channels.channels@,
        channels@.mint_eligible_channels == channels.mint_eligible_channels@,
        channels@.frozen_notes == channels.frozen_notes@,
        reserve@.frozen_note_map == reserve.frozen_note_map@,
        reserve@.frozen_notes == reserve.frozen_notes@,
        reserve@.utxos == reserve.utxos@,
        reserve@.floating_balance == reserve.floating_balance,
{
}

/// The operations on channels say what each of their fields holds.
pub proof fn operations_say_what_they_hold(
    config: ChannelConfigOp,
    deposit: DepositOp,
    withdrawal: ChannelWithdrawOp,
)
    ensures
        config@.channel == config.channel,
        config@.keys == config.keys@,
        config@.posting_timeframe == config.posting_timeframe,
        config@.posting_timeout == config.posting_timeout,
        config@.configuration_threshold == config.configuration_threshold,
        config@.withdraw_threshold == config.withdraw_threshold,
        config@.sequencer_zk_pks == config.sequencer_zk_pks@,
        deposit@.channel_id == deposit.channel_id,
        deposit@.inputs == deposit.inputs.0@,
        deposit@.metadata == deposit.metadata@,
        withdrawal@.channel_id == withdrawal.channel_id,
        withdrawal@.outputs == withdrawal.outputs.0@,
        withdrawal@.withdraw_nonce == withdrawal.withdraw_nonce,
{
}

/// A declaration says what each of its fields holds.
pub proof fn declaration_says_what_it_holds(declaration: Declaration, message: DeclarationMessage)
    ensures
        declaration@.created == declaration.created,
        declaration@.message == declaration.message@,
        message@.service_type == message.service_type,
        message@.provider_id == message.provider_id,
        message@.zk_id == message.zk_id,
        message@.locked_note_id == message.locked_note_id,
        message@.locators.len() == message.locators@.len(),
        forall|i: int|
            0 <= i < message.locators@.len() ==> #[trigger] message@.locators[i]
                == message.locators@[i]@,
{
}

} // verus!
