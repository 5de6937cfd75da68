//! When operations are in order, and what speaks against them when they are not.

use vstd::prelude::*;

use crate::mantle::channel::{ChannelsView, Error};
use crate::mantle::ledger::{notes_value, OutputsError, MAX_METADATA_SIZE, MAX_TRANSFERS};
use crate::mantle::ledger_laws::value_of_notes_is_their_sum;
use crate::mantle::multisig::{distinct_signers, judged, stand, IndexedSignature};
use crate::mantle::ops::channel::config::{well_formed_config, ConfigView, CHANNEL_MAX_KEYS};
use crate::mantle::ops::channel::withdraw::{withdraw_refusal, WithdrawView};
use crate::mantle::ops::sdp::declare::{
    declare_refusal, verdict, SdpError, MAX_DECLARATION_LOCATOR,
};
use crate::mantle::primitives::{
    Ed25519PublicKey, Ed25519Signature, Note, NoteId, TxHash, Value,
};
use crate::sdp::{DeclarationId, DeclarationView, MessageView, MinStake, ServiceType};

verus! {

/// How long the lists of operations can be: what the width of their encoded
/// lengths allows for, and eight addresses in a declaration.
pub proof fn lists_are_bounded()
    ensures
        CHANNEL_MAX_KEYS == 65535,
        MAX_TRANSFERS == 255,
        MAX_METADATA_SIZE == 4294967295,
        MAX_DECLARATION_LOCATOR == 8,
{
}

/// Nothing speaks against a withdrawal exactly if the channel exists, the nonce
/// is the channel's, the outputs are worth no more than the channel's solvency,
/// and there are as many signatures as the channel asks for.
pub proof fn withdrawal_is_in_order_exactly_when(
    op: WithdrawView,
    channels: ChannelsView,
    signatures: Seq<IndexedSignature>,
)
    ensures
        withdraw_refusal(op, channels, signatures) is None <==> {
            let channel = channels.channels[op.channel_id];
            &&& channels.channels.contains_key(op.channel_id)
            &&& op.withdraw_nonce == channel.withdrawal_nonce
            &&& op.outputs.fold_left(0int, |sum: int, note: Note| sum + note.value)
                <= channel.solvency
            &&& signatures.len() == channel.withdraw_threshold
        },
{
    value_of_notes_is_their_sum(op.outputs);
}

/// What speaks against a withdrawal is the first of: no such channel, another
/// nonce, outputs worth more than can be held, outputs worth more than the
/// channel's solvency, too few or too many signatures.
pub proof fn withdrawal_is_refused_exactly_for(
    op: WithdrawView,
    channels: ChannelsView,
    signatures: Seq<IndexedSignature>,
)
    ensures
        ({
            let channel = channels.channels[op.channel_id];
            let known = channels.channels.contains_key(op.channel_id);
            let due = op.withdraw_nonce == channel.withdrawal_nonce;
            let amount = notes_value(op.outputs);
            let refusal = withdraw_refusal(op, channels, signatures);
            &&& refusal matches Some(Error::ChannelNotFound { channel_id }) ==> channel_id
                == op.channel_id
            &&& refusal matches Some(Error::ThresholdUnmet { channel_id, threshold, actual }) ==> {
                &&& channel_id == op.channel_id
                &&& threshold == channel.withdraw_threshold
                &&& actual == signatures.len() as usize
            }
            &&& refusal is Some && refusal->0 is ChannelNotFound <==> !known
            &&& refusal == Some(Error::InvalidWithdrawNonce) <==> known && !due
            &&& refusal == Some(Error::Outputs(OutputsError::AmountOverflow)) <==> known && due
                && amount > Value::MAX
            &&& refusal == Some(Error::InsufficientFunds) <==> known && due && channel.solvency
                < amount <= Value::MAX
            &&& refusal is Some && refusal->0 is ThresholdUnmet <==> known && due && amount
                <= channel.solvency && signatures.len() != channel.withdraw_threshold
        }),
{
}

/// A configuration is well formed exactly if both thresholds are above zero and
/// there are as many keys of sequencers as accredited keys, of which there is one
/// at least.
pub proof fn configuration_is_well_formed_exactly_when(op: ConfigView)
    ensures
        well_formed_config(op) <==> {
            &&& 1 <= op.configuration_threshold
            &&& 1 <= op.withdraw_threshold
            &&& 1 <= op.keys.len()
            &&& op.sequencer_zk_pks.len() == op.keys.len()
        },
{
}

/// Signatures stand if each claims a key that there is, and is by that key.
pub proof fn signatures_stand_exactly_when<
    V: Fn(&Ed25519PublicKey, &TxHash, &Ed25519Signature) -> bool,
>(
    verify: V,
    keys: Seq<Ed25519PublicKey>,
    tx_hash: TxHash,
    signatures: Seq<IndexedSignature>,
    n: int,
)
    requires
        0 <= n <= signatures.len(),
    ensures
        stand(verify, keys, tx_hash, signatures, n) <==> forall|i: int|
            0 <= i < n ==> {
                let signature = #[trigger] signatures[i];
                &&& signature.channel_key_index < keys.len()
                &&& call_ensures(
                    verify,
                    (
                        &keys[signature.channel_key_index as int],
                        &tx_hash,
                        &signature.signature,
                    ),
                    true,
                )
            },
{
}

/// A signature is rejected if it claims a key that there is, and is not by that
/// key.
pub proof fn signature_is_rejected_exactly_when<
    V: Fn(&Ed25519PublicKey, &TxHash, &Ed25519Signature) -> bool,
>(verify: V, keys: Seq<Ed25519PublicKey>, tx_hash: TxHash, signature: IndexedSignature)
    ensures
        judged(verify, keys, tx_hash, signature, false) <==> signature.channel_key_index
            < keys.len() && call_ensures(
            verify,
            (&keys[signature.channel_key_index as int], &tx_hash, &signature.signature),
            false,
        ),
{
}

/// Signatures are by different keys exactly if no key is claimed at two places.
pub proof fn signers_differ_exactly_when(signatures: Seq<IndexedSignature>)
    ensures
        distinct_signers(signatures) <==> signatures.map_values(
            |signature: IndexedSignature| signature.channel_key_index,
        ).no_duplicates(),
{
    let indices = signatures.map_values(
        |signature: IndexedSignature| signature.channel_key_index,
    );
    if distinct_signers(signatures) {
        assert forall|i: int, j: int|
            0 <= i < indices.len() && 0 <= j < indices.len() && i != j implies indices[i]
            != indices[j] by {
            if i < j {
                assert(signatures[i].channel_key_index != signatures[j].channel_key_index);
            } else {
                assert(signatures[j].channel_key_index != signatures[i].channel_key_index);
            }
        }
    }
    if indices.no_duplicates() {
        assert forall|i: int, j: int| 0 <= i < j < signatures.len() implies (
        #[trigger] signatures[i]).channel_key_index != (
        #[trigger] signatures[j]).channel_key_index by {
            assert(indices[i] != indices[j]);
        }
    }
}

/// Nothing speaks against a declaration exactly if none with its identifier is on
/// record, it gives eight addresses at most, and its collateral is not frozen, is
/// worth the minimum stake at least, and does not stand for the same service
/// already.
pub proof fn declaration_is_in_order_exactly_when(
    op: MessageView,
    id: DeclarationId,
    note: Note,
    declarations: Map<DeclarationId, DeclarationView>,
    locked_notes: Set<(NoteId, ServiceType)>,
    frozen_notes: Map<NoteId, Note>,
    min_stake: MinStake,
)
    ensures
        verdict(
            Ok(()),
            declare_refusal(op, id, note, declarations, locked_notes, frozen_notes, min_stake),
        ) <==> {
            &&& !declarations.contains_key(id)
            &&& op.locators.len() <= 8
            &&& !frozen_notes.contains_key(op.locked_note_id)
            &&& note.value >= min_stake.threshold
            &&& !locked_notes.contains((op.locked_note_id, op.service_type))
        },
{
}

/// A declaration is refused with the first that speaks against it: it is on
/// record, gives too many addresses, or its collateral is frozen, worth too
/// little or in use for the service.
pub proof fn declaration_is_refused_exactly_for(
    op: MessageView,
    id: DeclarationId,
    note: Note,
    declarations: Map<DeclarationId, DeclarationView>,
    locked_notes: Set<(NoteId, ServiceType)>,
    frozen_notes: Map<NoteId, Note>,
    min_stake: MinStake,
    e: SdpError,
)
    ensures
        verdict(
            Err(e),
            declare_refusal(op, id, note, declarations, locked_notes, frozen_notes, min_stake),
        ) <==> {
            let on_record = declarations.contains_key(id);
            let too_many = op.locators.len() > 8;
            let frozen = frozen_notes.contains_key(op.locked_note_id);
            let too_little = note.value < min_stake.threshold;
            let in_use = locked_notes.contains((op.locked_note_id, op.service_type));
            match e {
                SdpError::DuplicateDeclaration(told) => on_record && told == id,
                SdpError::TooMuchLocators => !on_record && too_many,
                SdpError::NoteFrozen { note_id } => !on_record && !too_many && frozen && note_id
                    == op.locked_note_id,
                SdpError::NoteInsufficientValue { note_id, value } => !on_record && !too_many
                    && !frozen && too_little && note_id == op.locked_note_id && value
                    == note.value,
                SdpError::NoteAlreadyUsedForService { note_id, service_type } => !on_record
                    && !too_many && !frozen && !too_little && in_use && note_id
                    == op.locked_note_id && service_type == op.service_type,
                _ => false,
            }
        },
{
}

} // verus!
