//! Withdrawing funds from a channel.

use vstd::prelude::*;

use crate::mantle::channel::{ChannelView, Channels, ChannelsView, Error};
use crate::mantle::codec::{
    accept_all, all_accepted, decode_32, decode_le, le_bytes, lemma_le_capacities, lemma_take_32,
    lemma_take_le, lemma_take_le_bound, push_bytes, push_le, some_refused, take_32, take_le,
    DecodeError,
};
use crate::mantle::ledger::{
    created_utxos, notes_value, outputs_bytes, outputs_round_trip, take_outputs,
    with_utxos, Events, Outputs, OutputsError, Utxos, MAX_TRANSFERS,
};
use crate::mantle::multisig::{
    check_signatures, judged, stand, ChannelMultiSigProof, IndexedSignature, SignatureFault,
};
use crate::mantle::ops::{operation_id, OpId};
use crate::mantle::primitives::{
    ids_given, ChannelId, Ed25519PublicKey, Ed25519Signature, Epoch, Note, NoteId, TxHash, Utxo,
    Value, ZkPublicKey,
};
use crate::mantle::release::{release_until, Reserve, ReserveView};

verus! {

/// Pays notes out of a channel.
#[derive(Debug, PartialEq, Eq)]
pub struct ChannelWithdrawOp {
    pub channel_id: ChannelId,
    pub outputs: Outputs,
    /// How many withdrawals the channel has made before this one.
    pub withdraw_nonce: u32,
}

/// What a [`ChannelWithdrawOp`] says.
#[verifier::ext_equal]
pub struct WithdrawView {
    pub channel_id: ChannelId,
    pub outputs: Seq<Note>,
    pub withdraw_nonce: u32,
}

impl View for ChannelWithdrawOp {
    type V = WithdrawView;

    open spec fn view(&self) -> WithdrawView {
        WithdrawView {
            channel_id: self.channel_id,
            outputs: self.outputs.0@,
            withdraw_nonce: self.withdraw_nonce,
        }
    }
}

impl Clone for ChannelWithdrawOp {
    fn clone(&self) -> (r: Self)
        ensures
            r@ == self@,
    {
        Self {
            channel_id: self.channel_id,
            outputs: self.outputs.clone(),
            withdraw_nonce: self.withdraw_nonce,
        }
    }
}

/// A withdrawal as bytes: the channel, the outputs, the nonce.
pub open spec fn withdraw_bytes(op: WithdrawView) -> Seq<u8> {
    op.channel_id@ + outputs_bytes(op.outputs) + le_bytes(op.withdraw_nonce as nat, 4)
}

/// A withdrawal off the front.
pub open spec fn take_withdraw(bytes: Seq<u8>) -> Option<(WithdrawView, Seq<u8>)> {
    match take_32(bytes) {
        None => None,
        Some((channel_id, rest)) => match take_outputs(rest) {
            None => None,
            Some((outputs, rest)) => match take_le(rest, 4) {
                None => None,
                Some((nonce, rest)) => Some(
                    (WithdrawView { channel_id, outputs, withdraw_nonce: nonce as u32 }, rest),
                ),
            },
        },
    }
}

/// The owners of notes.
pub open spec fn owners(notes: Seq<Note>) -> Seq<ZkPublicKey> {
    notes.map_values(|note: Note| note.pk)
}

fn owners_of(notes: &[Note]) -> (r: Vec<ZkPublicKey>)
    ensures
        r@ == owners(notes@),
{
    let mut pks: Vec<ZkPublicKey> = Vec::new();
    let mut i: usize = 0;
    while i < notes.len()
        invariant
            i <= notes@.len(),
            pks@ == owners(notes@.take(i as int)),
        decreases notes@.len() - i,
    {
        pks.push(notes[i].pk);
        i = i + 1;
        assert(pks@ =~= owners(notes@.take(i as int)));
    }
    assert(notes@.take(i as int) =~= notes@);
    pks
}

impl OpId for ChannelWithdrawOp {
    open spec fn op_encoding(&self) -> Seq<u8> {
        withdraw_bytes(self@)
    }

    fn op_bytes(&self) -> (r: Vec<u8>) {
        self.encode()
    }
}

impl ChannelWithdrawOp {
    /// The channel, the outputs and the nonce as bytes.
    #[must_use]
    pub fn encode(&self) -> (r: Vec<u8>)
        ensures
            r@ == withdraw_bytes(self@),
    {
        let mut bytes: Vec<u8> = Vec::new();
        push_bytes(&mut bytes, self.channel_id.as_slice());
        push_bytes(&mut bytes, self.outputs.encode().as_slice());
        push_le(&mut bytes, self.withdraw_nonce as u64, 4);
        assert(bytes@ =~= withdraw_bytes(self@));
        bytes
    }

    /// Reads a withdrawal off the front, and hands back what is left. `accepts`
    /// decides which 32-byte strings can own a note.
    pub fn decode<'a, A: Fn(&ZkPublicKey) -> bool>(bytes: &'a [u8], accepts: A) -> (r: Result<
        (&'a [u8], Self),
        DecodeError,
    >)
        requires
            forall|pk: &ZkPublicKey| #[trigger] call_requires(accepts, (pk,)),
        ensures
            match r {
                Ok((rest, op)) => take_withdraw(bytes@) == Some((op@, rest@)) && all_accepted(
                    accepts,
                    owners(op@.outputs),
                ),
                Err(_) => take_withdraw(bytes@) matches Some((op, _)) ==> some_refused(
                    accepts,
                    owners(op.outputs),
                ),
            },
    {
        proof {
            lemma_le_capacities();
        }
        let (channel_id, rest) = match decode_32(bytes) {
            None => return Err(DecodeError),
            Some(front) => front,
        };
        let (rest, outputs) = match Outputs::decode(rest) {
            Err(_) => return Err(DecodeError),
            Ok(front) => front,
        };
        let (nonce, rest) = match decode_le(rest, 4) {
            None => return Err(DecodeError),
            Some(front) => front,
        };
        if !accept_all(&accepts, owners_of(outputs.0.as_slice()).as_slice()) {
            return Err(DecodeError);
        }
        Ok((rest, Self { channel_id, outputs, withdraw_nonce: nonce as u32 }))
    }
}

/// Reading a withdrawal is the inverse of writing one.
pub proof fn withdraw_round_trip(bytes: Seq<u8>, op: WithdrawView, rest: Seq<u8>)
    requires
        op.outputs.len() <= MAX_TRANSFERS,
    ensures
        take_withdraw(bytes) == Some((op, rest)) <==> bytes == withdraw_bytes(op) + rest,
{
    lemma_le_capacities();
    let nonce = op.withdraw_nonce as nat;
    if bytes == withdraw_bytes(op) + rest {
        let last = le_bytes(nonce, 4) + rest;
        let middle = outputs_bytes(op.outputs) + last;
        assert(bytes =~= op.channel_id@ + middle);
        lemma_take_32(bytes, op.channel_id, middle);
        outputs_round_trip(middle, op.outputs, last);
        lemma_take_le(last, 4, nonce, rest);
    }
    if take_withdraw(bytes) == Some((op, rest)) {
        let (channel_id, middle) = take_32(bytes)->0;
        let (outputs, last) = take_outputs(middle)->0;
        lemma_take_32(bytes, channel_id, middle);
        outputs_round_trip(middle, outputs, last);
        lemma_take_le_bound(last, 4);
        assert(bytes =~= withdraw_bytes(op) + rest);
    }
}

/// What the validity of a withdrawal depends on.
pub struct WithdrawValidationContext<'a> {
    pub channels: &'a Channels,
    pub tx_hash: &'a TxHash,
    pub withdraw_sigs: &'a ChannelMultiSigProof,
}

/// What a withdrawal changes.
#[derive(Debug, PartialEq, Eq)]
pub struct WithdrawExecutionContext {
    pub channels: Channels,
    pub utxos: Utxos,
    pub current_epoch: Epoch,
}

/// Why a withdrawal is refused before anyone looks at its signatures, given that
/// its outputs are in order.
pub open spec fn withdraw_refusal(
    op: WithdrawView,
    channels: ChannelsView,
    signatures: Seq<IndexedSignature>,
) -> Option<Error> {
    let channel = channels.channels[op.channel_id];
    if !channels.channels.contains_key(op.channel_id) {
        Some(Error::ChannelNotFound { channel_id: op.channel_id })
    } else if channel.withdrawal_nonce != op.withdraw_nonce {
        Some(Error::InvalidWithdrawNonce)
    } else if notes_value(op.outputs) > Value::MAX {
        Some(Error::Outputs(OutputsError::AmountOverflow))
    } else if notes_value(op.outputs) > channel.solvency {
        Some(Error::InsufficientFunds)
    } else if signatures.len() != channel.withdraw_threshold {
        Some(
            Error::ThresholdUnmet {
                channel_id: op.channel_id,
                threshold: channel.withdraw_threshold,
                actual: signatures.len() as usize,
            },
        )
    } else {
        None
    }
}

/// The channel after a withdrawal of `amount`, which the reserve covers.
pub open spec fn paid_out(channel: ChannelView, reserve: ReserveView, amount: nat) -> ChannelView {
    ChannelView {
        floating_balance: (reserve.floating_balance - amount) as Value,
        frozen_note_map: reserve.frozen_note_map,
        solvency: (channel.solvency - amount) as Value,
        withdrawal_nonce: (channel.withdrawal_nonce + 1) as u32,
        ..channel
    }
}

/// The channel's notes, balance and the ledger as a withdrawal finds them.
pub open spec fn reserve_of(
    channels: ChannelsView,
    utxos: Map<NoteId, Utxo>,
    channel_id: ChannelId,
) -> ReserveView {
    ReserveView {
        frozen_note_map: channels.channels[channel_id].frozen_note_map,
        frozen_notes: channels.frozen_notes,
        utxos,
        floating_balance: channels.channels[channel_id].floating_balance,
    }
}

/// The channels after a withdrawal, and the ledger without the outputs yet.
pub open spec fn withdraw_outcome(
    op: WithdrawView,
    channels: ChannelsView,
    utxos: Map<NoteId, Utxo>,
    epoch: u32,
) -> Result<(ChannelsView, Map<NoteId, Utxo>), Error> {
    let amount = notes_value(op.outputs);
    let channel = channels.channels[op.channel_id];
    if amount > Value::MAX {
        Err(Error::Outputs(OutputsError::AmountOverflow))
    } else if !channels.channels.contains_key(op.channel_id) {
        Err(Error::ChannelNotFound { channel_id: op.channel_id })
    } else {
        match release_until(
            reserve_of(channels, utxos, op.channel_id),
            amount as Value,
            epoch,
            channel.sequencers_zk_pks,
        ) {
            Err(e) => Err(e),
            Ok(reserve) => if amount > channel.solvency {
                Err(Error::InsufficientFunds)
            } else if channel.withdrawal_nonce == u32::MAX {
                Err(Error::WithdrawNonceOverflow)
            } else {
                Ok(
                    (
                        ChannelsView {
                            channels: channels.channels.insert(
                                op.channel_id,
                                paid_out(channel, reserve, amount),
                            ),
                            frozen_notes: reserve.frozen_notes,
                            ..channels
                        },
                        reserve.utxos,
                    ),
                )
            },
        }
    }
}

impl ChannelWithdrawOp {
    /// Whether the withdrawal may go ahead. `outputs_valid` says whether the
    /// outputs are in order, `verify` whether a signature is by a key.
    pub fn validate<
        O: Fn(&Outputs) -> Result<(), OutputsError>,
        V: Fn(&Ed25519PublicKey, &TxHash, &Ed25519Signature) -> bool,
    >(&self, ctx: &WithdrawValidationContext<'_>, outputs_valid: O, verify: V) -> (r: Result<
        (),
        Error,
    >)
        requires
            call_requires(outputs_valid, (&self.outputs,)),
            forall|key: &Ed25519PublicKey, hash: &TxHash, signature: &Ed25519Signature| #[trigger]
                call_requires(verify, (key, hash, signature)),
            // A signature that claims a key that there is not stands behind one
            // that is rejected.
            withdraw_refusal(self@, ctx.channels@, ctx.withdraw_sigs@) is None ==> forall|i: int|
                0 <= i < ctx.withdraw_sigs@.len() && (
                #[trigger] ctx.withdraw_sigs@[i]).channel_key_index
                    >= ctx.channels@.channels[self.channel_id].accredited_keys.len() ==> !stand(
                    verify,
                    ctx.channels@.channels[self.channel_id].accredited_keys,
                    *ctx.tx_hash,
                    ctx.withdraw_sigs@,
                    i,
                ),
        ensures
            ({
                let keys = ctx.channels@.channels[self.channel_id].accredited_keys;
                let signatures = ctx.withdraw_sigs@;
                let refusal = withdraw_refusal(self@, ctx.channels@, signatures);
                match r {
                    Ok(()) => {
                        &&& call_ensures(
                            outputs_valid,
                            (&self.outputs,),
                            Ok::<(), OutputsError>(()),
                        )
                        &&& refusal is None
                        &&& stand(verify, keys, *ctx.tx_hash, signatures, signatures.len() as int)
                    },
                    Err(e) => {
                        ||| e matches Error::Outputs(fault) && call_ensures(
                            outputs_valid,
                            (&self.outputs,),
                            Err::<(), OutputsError>(fault),
                        )
                        ||| {
                            &&& call_ensures(
                                outputs_valid,
                                (&self.outputs,),
                                Ok::<(), OutputsError>(()),
                            )
                            &&& refusal == Some(e)
                        }
                        ||| {
                            &&& call_ensures(
                                outputs_valid,
                                (&self.outputs,),
                                Ok::<(), OutputsError>(()),
                            )
                            &&& refusal is None
                            &&& e == Error::InvalidSignature
                            &&& exists|i: int|
                                0 <= i < signatures.len() && #[trigger] stand(
                                    verify,
                                    keys,
                                    *ctx.tx_hash,
                                    signatures,
                                    i,
                                ) && judged(verify, keys, *ctx.tx_hash, signatures[i], false)
                        }
                    },
                }
            }),
    {
        let outputs_verdict: Result<(), OutputsError> = outputs_valid(&self.outputs);
        match outputs_verdict {
            Ok(()) => {},
            Err(e) => return Err(Error::Outputs(e)),
        }
        assert(outputs_verdict->Ok_0 == ());
        let channel = match ctx.channels.channels.get(&self.channel_id) {
            Some(channel) => channel,
            None => return Err(Error::ChannelNotFound { channel_id: self.channel_id }),
        };
        if channel.withdrawal_nonce != self.withdraw_nonce {
            return Err(Error::InvalidWithdrawNonce);
        }
        let amount: Value = match self.outputs.amount() {
            Ok(amount) => amount,
            Err(e) => return Err(Error::Outputs(e)),
        };
        if amount > channel.solvency {
            return Err(Error::InsufficientFunds);
        }
        let signatures = ctx.withdraw_sigs.signatures();
        if signatures.len() != channel.withdraw_threshold as usize {
            return Err(
                Error::ThresholdUnmet {
                    channel_id: self.channel_id,
                    threshold: channel.withdraw_threshold,
                    actual: signatures.len(),
                },
            );
        }
        match check_signatures(&channel.accredited_keys, ctx.tx_hash, signatures, &verify) {
            Ok(()) => Ok(()),
            Err(SignatureFault::Rejected(_)) => Err(Error::InvalidSignature),
            Err(SignatureFault::NoSuchKey(i)) => {
                assert(signatures@[i as int] == ctx.withdraw_sigs@[i as int]);
                assert(false);
                Err(Error::InvalidSignature)
            },
        }
    }

    /// Pays the outputs out of the channel and puts them on the ledger under the
    /// identifiers that `note_id` gives them.
    ///
    /// What the floating balance does not cover comes out of the frozen notes,
    /// epoch by epoch and back from the current one.
    pub fn execute<F: Fn(&Utxo) -> NoteId>(&self, ctx: WithdrawExecutionContext, note_id: F) -> (r:
        Result<(WithdrawExecutionContext, Events), Error>)
        requires
            forall|utxo: &Utxo| #[trigger] call_requires(note_id, (utxo,)),
        ensures
            ({
                let created = created_utxos(operation_id(withdraw_bytes(self@)), self@.outputs);
                let outcome = withdraw_outcome(
                    self@,
                    ctx.channels@,
                    ctx.utxos@,
                    ctx.current_epoch.0,
                );
                match r {
                    Ok((after, events)) => {
                        &&& outcome matches Ok((channels, utxos)) && after.channels@ == channels
                            && exists|ids: Seq<NoteId>| #[trigger]
                            ids_given(note_id, created, ids) && after.utxos@ == with_utxos(
                                utxos,
                                created,
                                ids,
                            )
                        &&& after.current_epoch == ctx.current_epoch
                        &&& events@.len() == 0
                    },
                    Err(e) => outcome == Err::<(ChannelsView, Map<NoteId, Utxo>), Error>(e),
                }
            }),
    {
        let amount: Value = match self.outputs.amount() {
            Ok(amount) => amount,
            Err(e) => return Err(Error::Outputs(e)),
        };
        let ghost before = ctx.channels@;
        let mut channels = ctx.channels;
        let mut channel = match channels.channels.get(&self.channel_id) {
            Some(channel) => channel.clone(),
            None => return Err(Error::ChannelNotFound { channel_id: self.channel_id }),
        };
        let ghost view = channel@;
        let mut reserve = Reserve {
            frozen_note_map: channel.frozen_note_map.clone(),
            frozen_notes: channels.frozen_notes.clone(),
            utxos: ctx.utxos,
            floating_balance: channel.floating_balance,
        };
        assert(reserve@ =~= reserve_of(before, ctx.utxos@, self.channel_id));
        match reserve.release_until(
            amount,
            ctx.current_epoch.0,
            channel.sequencers_zk_pks.as_slice(),
        ) {
            Ok(()) => {},
            Err(e) => return Err(e),
        }
        proof {
            lemma_released_covers(
                reserve_of(before, ctx.utxos@, self.channel_id),
                amount,
                ctx.current_epoch.0,
                view.sequencers_zk_pks,
            );
        }
        channel.floating_balance = reserve.floating_balance - amount;
        channel.solvency = match channel.solvency.checked_sub(amount) {
            Some(solvency) => solvency,
            None => return Err(Error::InsufficientFunds),
        };
        channel.withdrawal_nonce = match channel.withdrawal_nonce.checked_add(1) {
            Some(nonce) => nonce,
            None => return Err(Error::WithdrawNonceOverflow),
        };
        channel.frozen_note_map = reserve.frozen_note_map;
        let ghost spent = reserve.utxos@;
        assert(channel@ =~= paid_out(view, reserve@, amount as nat));
        channels.frozen_notes = reserve.frozen_notes;
        channels.channels = channels.channels.insert(self.channel_id, channel);
        let utxos = self.outputs.execute(reserve.utxos, self.op_id(), &note_id);
        Ok((WithdrawExecutionContext { channels, utxos, current_epoch: ctx.current_epoch }, Vec::new()))
    }
}

/// A release that succeeds leaves enough floating.
pub proof fn lemma_released_covers(
    reserve: ReserveView,
    amount: Value,
    epoch: u32,
    sequencers: Seq<ZkPublicKey>,
)
    ensures
        release_until(reserve, amount, epoch, sequencers) matches Ok(after) ==> amount
            <= after.floating_balance,
    decreases epoch,
{
    if amount > reserve.floating_balance {
        if let Ok(after) = crate::mantle::release::release_epoch(reserve, epoch, sequencers) {
            if epoch > 0 {
                lemma_released_covers(after, amount, (epoch - 1) as u32, sequencers);
            }
        }
    }
}

} // verus!
