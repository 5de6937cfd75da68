//! Depositing notes into a channel.

use vstd::prelude::*;

use crate::crypto::holds_bytes;
use crate::mantle::channel::{ChannelView, Channels, ChannelsView, Error};
use crate::mantle::codec::{
    accept_all, all_accepted, decode_32, decode_bytes, decode_le, le_bytes, lemma_joins,
    lemma_le_capacities, lemma_take_32, lemma_take_bytes, lemma_take_le, lemma_take_le_bound,
    push_bytes, push_le, some_refused, take_32, take_bytes, take_le, DecodeError,
};
use crate::mantle::frozen_notes::FrozenNotes;
use crate::mantle::ledger::{
    first_missing, inputs_amount, inputs_bytes, inputs_round_trip, inputs_spent, take_inputs, Event,
    EventPayload, Events, Inputs, InputsError, Metadata, Utxos, MAX_METADATA_SIZE, MAX_TRANSFERS,
};
use crate::mantle::ops::channel::config::marked;
use crate::mantle::ops::{operation_id, OpId};
use crate::mantle::primitives::{ChannelId, NoteId, TxHash, Utxo, Value, ZkPublicKey};
use crate::sdp::LockedNotes;
use crate::utils::bounded::BoundedBytes;

verus! {

/// Pays notes into a channel.
#[derive(Debug, PartialEq, Eq, Hash)]
pub struct DepositOp {
    pub channel_id: ChannelId,
    pub inputs: Inputs,
    pub metadata: Metadata,
}

/// What a [`DepositOp`] says.
#[verifier::ext_equal]
pub struct DepositView {
    pub channel_id: ChannelId,
    pub inputs: Seq<NoteId>,
    pub metadata: Seq<u8>,
}

impl View for DepositOp {
    type V = DepositView;

    open spec fn view(&self) -> DepositView {
        DepositView {
            channel_id: self.channel_id,
            inputs: self.inputs.0@,
            metadata: self.metadata@,
        }
    }
}

impl Clone for DepositOp {
    fn clone(&self) -> (r: Self)
        ensures
            r@ == self@,
    {
        Self {
            channel_id: self.channel_id,
            inputs: self.inputs.clone(),
            metadata: self.metadata.clone(),
        }
    }
}

/// Metadata as bytes: their number in four bytes, then they.
pub open spec fn metadata_bytes(metadata: Seq<u8>) -> Seq<u8> {
    le_bytes(metadata.len(), 4) + metadata
}

/// Metadata off the front.
pub open spec fn take_metadata(bytes: Seq<u8>) -> Option<(Seq<u8>, Seq<u8>)> {
    match take_le(bytes, 4) {
        None => None,
        Some((count, rest)) => take_bytes(rest, count),
    }
}

/// A deposit as bytes: the channel, the inputs, the metadata.
pub open spec fn deposit_bytes(op: DepositView) -> Seq<u8> {
    op.channel_id@ + inputs_bytes(op.inputs) + metadata_bytes(op.metadata)
}

/// A deposit off the front.
pub open spec fn take_deposit(bytes: Seq<u8>) -> Option<(DepositView, Seq<u8>)> {
    match take_32(bytes) {
        None => None,
        Some((channel_id, rest)) => match take_inputs(rest) {
            None => None,
            Some((inputs, rest)) => match take_metadata(rest) {
                None => None,
                Some((metadata, rest)) => Some(
                    (DepositView { channel_id, inputs, metadata }, rest),
                ),
            },
        },
    }
}

impl OpId for DepositOp {
    open spec fn op_encoding(&self) -> Seq<u8> {
        deposit_bytes(self@)
    }

    fn op_bytes(&self) -> (r: Vec<u8>) {
        self.encode()
    }
}

impl DepositOp {
    /// The channel, the inputs and the metadata as bytes.
    #[must_use]
    pub fn encode(&self) -> (r: Vec<u8>)
        ensures
            r@ == deposit_bytes(self@),
    {
        let mut bytes: Vec<u8> = Vec::new();
        push_bytes(&mut bytes, self.channel_id.as_slice());
        push_bytes(&mut bytes, self.inputs.encode().as_slice());
        let ghost head = bytes@;
        push_le(&mut bytes, self.metadata.len() as u64, 4);
        push_bytes(&mut bytes, self.metadata.as_slice());
        assert(head =~= self.channel_id@ + inputs_bytes(self.inputs.0@));
        assert(bytes@ =~= head + metadata_bytes(self.metadata@));
        bytes
    }

    /// Reads a deposit off the front, and hands back what is left. `accepts`
    /// decides which 32-byte strings identify notes.
    pub fn decode<'a, A: Fn(&NoteId) -> bool>(bytes: &'a [u8], accepts: A) -> (r: Result<
        (&'a [u8], Self),
        DecodeError,
    >)
        requires
            forall|id: &NoteId| #[trigger] call_requires(accepts, (id,)),
        ensures
            match r {
                Ok((rest, op)) => take_deposit(bytes@) == Some((op@, rest@)) && all_accepted(
                    accepts,
                    op@.inputs,
                ),
                Err(_) => take_deposit(bytes@) matches Some((op, _)) ==> some_refused(
                    accepts,
                    op.inputs,
                ),
            },
    {
        proof {
            lemma_le_capacities();
        }
        let (channel_id, rest) = match decode_32(bytes) {
            None => return Err(DecodeError),
            Some(front) => front,
        };
        let (rest, inputs) = match Inputs::decode(rest) {
            Err(_) => return Err(DecodeError),
            Ok(front) => front,
        };
        let (count, rest) = match decode_le(rest, 4) {
            None => return Err(DecodeError),
            Some(front) => front,
        };
        let (metadata, rest) = match decode_bytes(rest, count as usize) {
            None => return Err(DecodeError),
            Some(front) => front,
        };
        if !accept_all(&accepts, inputs.0.as_slice()) {
            return Err(DecodeError);
        }
        Ok((rest, Self { channel_id, inputs, metadata: BoundedBytes::new_unchecked(metadata) }))
    }
}

proof fn lemma_take_metadata(bytes: Seq<u8>, metadata: Seq<u8>, rest: Seq<u8>)
    requires
        metadata.len() <= MAX_METADATA_SIZE,
    ensures
        take_metadata(bytes) == Some((metadata, rest)) <==> bytes == metadata_bytes(metadata)
            + rest,
{
    lemma_le_capacities();
    lemma_joins(le_bytes(metadata.len(), 4), metadata, rest);
    if bytes == metadata_bytes(metadata) + rest {
        lemma_take_le(bytes, 4, metadata.len(), metadata + rest);
        lemma_take_bytes(metadata + rest, metadata, rest);
    }
    if take_metadata(bytes) == Some((metadata, rest)) {
        let (count, left) = take_le(bytes, 4)->0;
        lemma_take_le_bound(bytes, 4);
        lemma_take_bytes(left, metadata, rest);
    }
}

/// Reading a deposit is the inverse of writing one.
pub proof fn deposit_round_trip(bytes: Seq<u8>, op: DepositView, rest: Seq<u8>)
    requires
        op.inputs.len() <= MAX_TRANSFERS,
        op.metadata.len() <= MAX_METADATA_SIZE,
    ensures
        take_deposit(bytes) == Some((op, rest)) <==> bytes == deposit_bytes(op) + rest,
{
    let inputs = inputs_bytes(op.inputs);
    let metadata = metadata_bytes(op.metadata);
    lemma_joins(op.channel_id@ + inputs, metadata, rest);
    lemma_joins(op.channel_id@, inputs, metadata + rest);
    if bytes == deposit_bytes(op) + rest {
        lemma_take_32(bytes, op.channel_id, inputs + (metadata + rest));
        inputs_round_trip(inputs + (metadata + rest), op.inputs, metadata + rest);
        lemma_take_metadata(metadata + rest, op.metadata, rest);
    }
    if take_deposit(bytes) == Some((op, rest)) {
        let (_, a) = take_32(bytes)->0;
        let (_, b) = take_inputs(a)->0;
        lemma_take_32(bytes, op.channel_id, a);
        inputs_round_trip(a, op.inputs, b);
        lemma_take_metadata(b, op.metadata, rest);
    }
}

/// What the validity of a deposit depends on. `S` is the type of signatures by
/// the owners of notes.
pub struct DepositValidationContext<'a, S> {
    pub channels: &'a Channels,
    pub locked_notes: &'a LockedNotes,
    pub frozen_notes: &'a FrozenNotes,
    pub utxos: &'a Utxos,
    pub tx_hash: &'a TxHash,
    pub deposit_sig: &'a S,
}

/// What a deposit changes.
#[derive(Debug, PartialEq, Eq)]
pub struct DepositExecutionContext {
    pub channels: Channels,
    pub locked_notes: LockedNotes,
    pub utxos: Utxos,
    pub tx_hash: TxHash,
}

/// A channel after a deposit.
pub open spec fn credited(channel: ChannelView, amount: nat) -> ChannelView {
    ChannelView {
        floating_balance: (channel.floating_balance + amount) as Value,
        solvency: (channel.solvency + amount) as Value,
        ..channel
    }
}

/// Whether a channel has sequencers, and one unit at least for each of them.
pub open spec fn can_mint(channel: ChannelView) -> bool {
    0 < channel.sequencers_zk_pks.len() <= channel.floating_balance
}

/// The channels and the ledger after a deposit.
pub open spec fn deposit_outcome(
    op: DepositView,
    channels: ChannelsView,
    utxos: Map<NoteId, Utxo>,
) -> Result<(ChannelsView, Map<NoteId, Utxo>), Error> {
    let channel = channels.channels[op.channel_id];
    match (inputs_amount(op.inputs, utxos), inputs_spent(op.inputs, utxos)) {
        (Err(e), _) => Err(Error::Inputs(e)),
        (_, Err(e)) => Err(Error::Inputs(e)),
        (Ok(amount), Ok(left)) => if !channels.channels.contains_key(op.channel_id) {
            Err(Error::ChannelNotFound { channel_id: op.channel_id })
        } else if channel.floating_balance + amount > Value::MAX || channel.solvency + amount
            > Value::MAX {
            Err(Error::BalanceOverflow)
        } else {
            Ok(
                (
                    ChannelsView {
                        channels: channels.channels.insert(
                            op.channel_id,
                            credited(channel, amount),
                        ),
                        mint_eligible_channels: if can_mint(credited(channel, amount)) {
                            marked(channels.mint_eligible_channels, op.channel_id)
                        } else {
                            channels.mint_eligible_channels
                        },
                        ..channels
                    },
                    left,
                ),
            )
        },
    }
}

/// `event` tells of a deposit.
pub open spec fn tells_of_deposit(
    event: Event,
    tx_hash: TxHash,
    op: DepositView,
    amount: nat,
) -> bool {
    match event {
        Event::Tx {
            tx_hash: hash,
            op_id,
            payload: EventPayload::Deposit { channel_id, amount: told, metadata },
        } => {
            &&& hash == tx_hash
            &&& op_id == operation_id(deposit_bytes(op))
            &&& channel_id == op.channel_id
            &&& told == amount
            &&& metadata@ == op.metadata
        },
    }
}

/// The notes that are spent are on the ledger, and these are their owners.
pub open spec fn owned_by(ids: Seq<NoteId>, utxos: Map<NoteId, Utxo>, pks: Seq<ZkPublicKey>) -> bool {
    &&& pks.len() == ids.len()
    &&& forall|i: int|
        0 <= i < ids.len() ==> utxos.contains_key(#[trigger] ids[i]) && utxos[ids[i]].note.pk
            == pks[i]
}

impl DepositOp {
    /// Whether the deposit may go ahead. `inputs_valid` says whether the inputs
    /// may be spent, `verify_multi` whether a signature is by all of the keys.
    pub fn validate<
        S,
        I: Fn(&Inputs, &LockedNotes, &FrozenNotes, &Utxos) -> Result<(), InputsError>,
        V: Fn(&Vec<ZkPublicKey>, &TxHash, &S) -> bool,
    >(
        &self,
        ctx: &DepositValidationContext<'_, S>,
        inputs_valid: I,
        verify_multi: V,
    ) -> (r: Result<(), Error>)
        requires
            call_requires(
                inputs_valid,
                (&self.inputs, ctx.locked_notes, ctx.frozen_notes, ctx.utxos),
            ),
            forall|pks: &Vec<ZkPublicKey>| #[trigger]
                call_requires(verify_multi, (pks, ctx.tx_hash, ctx.deposit_sig)),
        ensures
            ({
                let known = ctx.channels@.channels.contains_key(self.channel_id);
                let arguments = (&self.inputs, ctx.locked_notes, ctx.frozen_notes, ctx.utxos);
                let valid = call_ensures(inputs_valid, arguments, Ok::<(), InputsError>(()));
                match r {
                    Ok(()) => known && valid && exists|pks: &Vec<ZkPublicKey>|
                        owned_by(self@.inputs, ctx.utxos@, pks@) && #[trigger] call_ensures(
                            verify_multi,
                            (pks, ctx.tx_hash, ctx.deposit_sig),
                            true,
                        ),
                    Err(Error::ChannelNotFound { channel_id }) => !known && channel_id
                        == self.channel_id,
                    Err(Error::Inputs(e)) => known && (call_ensures(
                        inputs_valid,
                        arguments,
                        Err::<(), InputsError>(e),
                    ) || valid && (e matches InputsError::InexistingNote(id) && first_missing(
                        self@.inputs,
                        ctx.utxos@,
                        id,
                    ))),
                    Err(Error::InvalidSignature) => known && valid && exists|pks: &Vec<ZkPublicKey>|
                        owned_by(self@.inputs, ctx.utxos@, pks@) && #[trigger] call_ensures(
                            verify_multi,
                            (pks, ctx.tx_hash, ctx.deposit_sig),
                            false,
                        ),
                    Err(_) => false,
                }
            }),
    {
        if !ctx.channels.channels.contains_key(&self.channel_id) {
            return Err(Error::ChannelNotFound { channel_id: self.channel_id });
        }
        let inputs_verdict: Result<(), InputsError> = inputs_valid(
            &self.inputs,
            ctx.locked_notes,
            ctx.frozen_notes,
            ctx.utxos,
        );
        match inputs_verdict {
            Ok(()) => {},
            Err(e) => return Err(Error::Inputs(e)),
        }
        assert(inputs_verdict->Ok_0 == ());
        let pks: Vec<ZkPublicKey> = match self.inputs.get_pk(ctx.utxos) {
            Ok(pks) => pks,
            Err(e) => return Err(Error::Inputs(e)),
        };
        assert(owned_by(self@.inputs, ctx.utxos@, pks@));
        if verify_multi(&pks, ctx.tx_hash, ctx.deposit_sig) {
            Ok(())
        } else {
            Err(Error::InvalidSignature)
        }
    }

    /// Takes the inputs off the ledger and credits the channel with what they
    /// are worth.
    ///
    /// The channel is marked for minting, once, if it has sequencers and its
    /// floating balance amounts to one unit at least for each of them.
    pub fn execute(&self, ctx: DepositExecutionContext) -> (r: Result<
        (DepositExecutionContext, Events),
        Error,
    >)
        ensures
            ({
                let outcome = deposit_outcome(self@, ctx.channels@, ctx.utxos@);
                match r {
                    Ok((after, events)) => {
                        &&& outcome == Ok::<_, Error>((after.channels@, after.utxos@))
                        &&& after.locked_notes == ctx.locked_notes
                        &&& after.tx_hash == ctx.tx_hash
                        &&& events@.len() == 1
                        &&& tells_of_deposit(
                            events@[0],
                            ctx.tx_hash,
                            self@,
                            inputs_amount(self@.inputs, ctx.utxos@)->Ok_0,
                        )
                    },
                    Err(e) => outcome == Err::<(ChannelsView, Map<NoteId, Utxo>), _>(e),
                }
            }),
    {
        let amount: Value = match self.inputs.amount(&ctx.utxos) {
            Ok(amount) => amount,
            Err(e) => return Err(Error::Inputs(e)),
        };
        let utxos = match self.inputs.execute(ctx.utxos) {
            Ok(utxos) => utxos,
            Err(e) => return Err(Error::Inputs(e)),
        };
        let mut channels = ctx.channels;
        let mut channel = match channels.channels.get(&self.channel_id) {
            Some(channel) => channel.clone(),
            None => return Err(Error::ChannelNotFound { channel_id: self.channel_id }),
        };
        let ghost view = channel@;
        channel.floating_balance = match channel.floating_balance.checked_add(amount) {
            Some(balance) => balance,
            None => return Err(Error::BalanceOverflow),
        };
        channel.solvency = match channel.solvency.checked_add(amount) {
            Some(solvency) => solvency,
            None => return Err(Error::BalanceOverflow),
        };
        assert(channel@ =~= credited(view, amount as nat));
        if !channel.sequencers_zk_pks.is_empty() && channel.sequencers_zk_pks.len() as u64
            <= channel.floating_balance && !holds_bytes(
            channels.mint_eligible_channels.as_slice(),
            &self.channel_id,
        ) {
            channels.mint_eligible_channels.push(self.channel_id);
        }
        channels.channels = channels.channels.insert(self.channel_id, channel);
        let mut events: Events = Vec::new();
        events.push(
            Event::Tx {
                tx_hash: ctx.tx_hash,
                op_id: self.op_id(),
                payload: EventPayload::Deposit {
                    channel_id: self.channel_id,
                    amount,
                    metadata: self.metadata.clone(),
                },
            },
        );
        Ok(
            (
                DepositExecutionContext {
                    channels,
                    locked_notes: ctx.locked_notes,
                    utxos,
                    tx_hash: ctx.tx_hash,
                },
                events,
            ),
        )
    }
}

} // verus!
