//! Creating a channel, and changing its configuration.

use vstd::prelude::*;

use crate::crypto::{blake2b, blake2b_256, copy_bytes, holds_bytes};
use crate::mantle::channel::{
    ChannelState, ChannelView, Channels, ChannelsView, Error, SlotTimeframe, SlotTimeout,
};
use crate::mantle::codec::{
    accept_all, all_accepted, decode_32, decode_le, decode_list32, joined32, le_bytes,
    lemma_joins, lemma_le_capacities, lemma_take_32, lemma_take_le, lemma_take_le_bound, lemma_take_list32,
    push_all_32, push_bytes, push_le, some_refused, take_32, take_le, take_list32, DecodeError,
};
use crate::mantle::ledger::{Events, Utxos};
use crate::mantle::maps::{lists, FrozenNoteMap};
use crate::mantle::multisig::{
    check_signatures, judged, stand, ChannelMultiSigProof, SignatureFault,
};
use crate::mantle::ops::channel::withdraw::reserve_of;
use crate::mantle::primitives::{
    ChannelId, Ed25519PublicKey, Ed25519Signature, MsgId, NoteId, Slot, TxHash, Utxo,
    ZkPublicKey,
};
use crate::mantle::release::{orders, release_list, Reserve, ReserveView};
use crate::utils::bounded::BoundedVec;

verus! {

/// The most keys that a channel has: a key's index is two bytes wide.
pub const CHANNEL_MAX_KEYS: usize = 0xffff;

/// Why keys cannot be the accredited keys of a channel.
#[derive(Debug, Clone, Copy, PartialEq, Eq, Structural)]
pub enum KeysError {
    Empty,
    TooMany,
}

/// The accredited keys of a channel: at least one, and no more than
/// [`CHANNEL_MAX_KEYS`].
#[derive(Debug, PartialEq, Eq, Hash)]
pub struct Keys(Vec<Ed25519PublicKey>);

/// The keys that the sequencers of a channel are paid to, in the sequencers'
/// order.
pub type ZkKeys = BoundedVec<ZkPublicKey, CHANNEL_MAX_KEYS>;

impl View for Keys {
    type V = Seq<Ed25519PublicKey>;

    closed spec fn view(&self) -> Seq<Ed25519PublicKey> {
        self.0@
    }
}

impl Keys {
    #[verifier::type_invariant]
    spec fn within_bounds(&self) -> bool {
        0 < self.0@.len() <= CHANNEL_MAX_KEYS
    }

    /// The number of keys.
    #[must_use]
    pub fn len(&self) -> (r: usize)
        ensures
            r == self@.len(),
            0 < r <= CHANNEL_MAX_KEYS,
    {
        proof {
            use_type_invariant(self);
        }
        self.0.len()
    }

    /// Whether there is no key, which is never so.
    #[must_use]
    pub fn is_empty(&self) -> (r: bool)
        ensures
            !r,
            self@.len() > 0,
    {
        proof {
            use_type_invariant(self);
        }
        self.0.len() == 0
    }

    /// The key at an index.
    #[must_use]
    pub fn get(&self, index: usize) -> (r: Option<&Ed25519PublicKey>)
        ensures
            match r {
                Some(key) => index < self@.len() && *key == self@[index as int],
                None => index >= self@.len(),
            },
    {
        if index < self.0.len() {
            Some(&self.0[index])
        } else {
            None
        }
    }

    /// The keys as a slice.
    #[must_use]
    pub fn as_slice(&self) -> (r: &[Ed25519PublicKey])
        ensures
            r@ == self@,
            0 < r@.len() <= CHANNEL_MAX_KEYS,
    {
        proof {
            use_type_invariant(self);
        }
        self.0.as_slice()
    }
}

impl Clone for Keys {
    fn clone(&self) -> (r: Self)
        ensures
            r@ == self@,
    {
        proof {
            use_type_invariant(self);
        }
        Self(copy_bytes(self.0.as_slice()))
    }
}

impl TryFrom<Vec<Ed25519PublicKey>> for Keys {
    type Error = KeysError;

    fn try_from(keys: Vec<Ed25519PublicKey>) -> (r: Result<Self, KeysError>)
        ensures
            match r {
                Ok(v) => 0 < keys@.len() <= CHANNEL_MAX_KEYS && v@ == keys@,
                Err(KeysError::Empty) => keys@.len() == 0,
                Err(KeysError::TooMany) => keys@.len() > CHANNEL_MAX_KEYS,
            },
    {
        if keys.len() == 0 {
            Err(KeysError::Empty)
        } else if keys.len() > CHANNEL_MAX_KEYS {
            Err(KeysError::TooMany)
        } else {
            Ok(Self(keys))
        }
    }
}

impl vstd::std_specs::convert::TryFromSpecImpl<Vec<Ed25519PublicKey>> for Keys {
    open spec fn obeys_try_from_spec() -> bool {
        true
    }

    closed spec fn try_from_spec(keys: Vec<Ed25519PublicKey>) -> Result<Self, Self::Error> {
        if keys@.len() == 0 {
            Err(KeysError::Empty)
        } else if keys@.len() > CHANNEL_MAX_KEYS {
            Err(KeysError::TooMany)
        } else {
            Ok(Self(keys))
        }
    }
}

/// A copy of the sequencers' keys.
pub fn clone_zk_keys(keys: &ZkKeys) -> (r: ZkKeys)
    ensures
        r@ == keys@,
{
    BoundedVec::new_unchecked(copy_bytes(keys.as_slice()))
}

/// Creates a channel, or gives it a new configuration.
#[derive(Debug, PartialEq, Eq, Hash)]
pub struct ChannelConfigOp {
    pub channel: ChannelId,
    pub keys: Keys,
    pub posting_timeframe: SlotTimeframe,
    pub posting_timeout: SlotTimeout,
    pub configuration_threshold: u16,
    pub withdraw_threshold: u16,
    pub sequencer_zk_pks: ZkKeys,
}

/// What a [`ChannelConfigOp`] says.
#[verifier::ext_equal]
pub struct ConfigView {
    pub channel: ChannelId,
    pub keys: Seq<Ed25519PublicKey>,
    pub posting_timeframe: SlotTimeframe,
    pub posting_timeout: SlotTimeout,
    pub configuration_threshold: u16,
    pub withdraw_threshold: u16,
    pub sequencer_zk_pks: Seq<ZkPublicKey>,
}

impl View for ChannelConfigOp {
    type V = ConfigView;

    open spec fn view(&self) -> ConfigView {
        ConfigView {
            channel: self.channel,
            keys: self.keys@,
            posting_timeframe: self.posting_timeframe,
            posting_timeout: self.posting_timeout,
            configuration_threshold: self.configuration_threshold,
            withdraw_threshold: self.withdraw_threshold,
            sequencer_zk_pks: self.sequencer_zk_pks@,
        }
    }
}

impl Clone for ChannelConfigOp {
    fn clone(&self) -> (r: Self)
        ensures
            r@ == self@,
    {
        Self {
            channel: self.channel,
            keys: self.keys.clone(),
            posting_timeframe: self.posting_timeframe,
            posting_timeout: self.posting_timeout,
            configuration_threshold: self.configuration_threshold,
            withdraw_threshold: self.withdraw_threshold,
            sequencer_zk_pks: clone_zk_keys(&self.sequencer_zk_pks),
        }
    }
}

/// A list of keys as bytes: their number in two bytes, then each key.
pub open spec fn keys_bytes(keys: Seq<[u8; 32]>) -> Seq<u8> {
    le_bytes(keys.len(), 2) + joined32(keys)
}

/// A list of keys off the front.
pub open spec fn take_keys(bytes: Seq<u8>) -> Option<(Seq<[u8; 32]>, Seq<u8>)> {
    match take_le(bytes, 2) {
        None => None,
        Some((count, rest)) => take_list32(rest, count),
    }
}

/// The four numbers of a configuration.
#[verifier::ext_equal]
pub struct ConfigNumbers {
    pub posting_timeframe: nat,
    pub posting_timeout: nat,
    pub configuration_threshold: nat,
    pub withdraw_threshold: nat,
}

/// The four numbers of a configuration as bytes.
pub open spec fn numbers_bytes(numbers: ConfigNumbers) -> Seq<u8> {
    le_bytes(numbers.posting_timeframe, 4) + le_bytes(numbers.posting_timeout, 4) + le_bytes(
        numbers.configuration_threshold,
        2,
    ) + le_bytes(numbers.withdraw_threshold, 2)
}

/// The numbers that a configuration holds.
pub open spec fn config_numbers(op: ConfigView) -> ConfigNumbers {
    ConfigNumbers {
        posting_timeframe: op.posting_timeframe.0 as nat,
        posting_timeout: op.posting_timeout.0 as nat,
        configuration_threshold: op.configuration_threshold as nat,
        withdraw_threshold: op.withdraw_threshold as nat,
    }
}

/// A configuration as bytes: the channel, the accredited keys, the timeframe, the
/// timeout, the two thresholds, the sequencers' keys.
pub open spec fn config_bytes(op: ConfigView) -> Seq<u8> {
    op.channel@ + keys_bytes(op.keys) + numbers_bytes(config_numbers(op)) + keys_bytes(
        op.sequencer_zk_pks,
    )
}

/// The four numbers of a configuration off the front.
pub open spec fn take_numbers(bytes: Seq<u8>) -> Option<(ConfigNumbers, Seq<u8>)> {
    match take_le(bytes, 4) {
        None => None,
        Some((posting_timeframe, rest)) => match take_le(rest, 4) {
            None => None,
            Some((posting_timeout, rest)) => match take_le(rest, 2) {
                None => None,
                Some((configuration_threshold, rest)) => match take_le(rest, 2) {
                    None => None,
                    Some((withdraw_threshold, rest)) => Some(
                        (
                            ConfigNumbers {
                                posting_timeframe,
                                posting_timeout,
                                configuration_threshold,
                                withdraw_threshold,
                            },
                            rest,
                        ),
                    ),
                },
            },
        },
    }
}

/// A configuration off the front. One without an accredited key is none.
pub open spec fn take_config(bytes: Seq<u8>) -> Option<(ConfigView, Seq<u8>)> {
    match take_32(bytes) {
        None => None,
        Some((channel, rest)) => match take_keys(rest) {
            None => None,
            Some((keys, rest)) => if keys.len() == 0 {
                None
            } else {
                match take_numbers(rest) {
                    None => None,
                    Some((numbers, rest)) => match take_keys(rest) {
                        None => None,
                        Some((sequencer_zk_pks, rest)) => Some(
                            (
                                ConfigView {
                                    channel,
                                    keys,
                                    posting_timeframe: SlotTimeframe(
                                        numbers.posting_timeframe as u32,
                                    ),
                                    posting_timeout: SlotTimeout(numbers.posting_timeout as u32),
                                    configuration_threshold: numbers.configuration_threshold as u16,
                                    withdraw_threshold: numbers.withdraw_threshold as u16,
                                    sequencer_zk_pks,
                                },
                                rest,
                            ),
                        ),
                    },
                }
            },
        },
    }
}

fn decode_keys(bytes: &[u8]) -> (r: Option<(Vec<[u8; 32]>, &[u8])>)
    ensures
        match r {
            Some((keys, rest)) => take_keys(bytes@) == Some((keys@, rest@)) && keys@.len()
                <= CHANNEL_MAX_KEYS,
            None => take_keys(bytes@) is None,
        },
{
    proof {
        lemma_le_capacities();
    }
    match decode_le(bytes, 2) {
        None => None,
        Some((count, rest)) => decode_list32(rest, count as usize),
    }
}

impl ChannelConfigOp {
    /// The hash of the encoding, which is the configuration's message
    /// identifier.
    #[must_use]
    pub fn id(&self) -> (r: MsgId)
        ensures
            r == blake2b_256(config_bytes(self@)),
    {
        blake2b(self.encode().as_slice())
    }

    /// The configuration as bytes.
    #[must_use]
    pub fn encode(&self) -> (r: Vec<u8>)
        ensures
            r@ == config_bytes(self@),
    {
        let mut bytes: Vec<u8> = Vec::new();
        push_bytes(&mut bytes, self.channel.as_slice());
        push_le(&mut bytes, self.keys.len() as u64, 2);
        push_all_32(&mut bytes, self.keys.as_slice());
        assert(bytes@ =~= self.channel@ + keys_bytes(self.keys@));
        let ghost head = bytes@;
        push_le(&mut bytes, self.posting_timeframe.0 as u64, 4);
        push_le(&mut bytes, self.posting_timeout.0 as u64, 4);
        push_le(&mut bytes, self.configuration_threshold as u64, 2);
        push_le(&mut bytes, self.withdraw_threshold as u64, 2);
        assert(bytes@ =~= head + numbers_bytes(config_numbers(self@)));
        let ghost head = bytes@;
        push_le(&mut bytes, self.sequencer_zk_pks.len() as u64, 2);
        push_all_32(&mut bytes, self.sequencer_zk_pks.as_slice());
        assert(bytes@ =~= head + keys_bytes(self.sequencer_zk_pks@));
        bytes
    }

    /// Reads a configuration off the front, and hands back what is left.
    /// `accepts_key` decides which 32-byte strings are keys that sign,
    /// `accepts_zk_key` which are keys that own notes.
    pub fn decode<'a, A: Fn(&Ed25519PublicKey) -> bool, Z: Fn(&ZkPublicKey) -> bool>(
        bytes: &'a [u8],
        accepts_key: A,
        accepts_zk_key: Z,
    ) -> (r: Result<(&'a [u8], Self), DecodeError>)
        requires
            forall|key: &Ed25519PublicKey| #[trigger] call_requires(accepts_key, (key,)),
            forall|key: &ZkPublicKey| #[trigger] call_requires(accepts_zk_key, (key,)),
        ensures
            match r {
                Ok((rest, op)) => {
                    &&& take_config(bytes@) == Some((op@, rest@))
                    &&& all_accepted(accepts_key, op@.keys)
                    &&& all_accepted(accepts_zk_key, op@.sequencer_zk_pks)
                },
                Err(_) => take_config(bytes@) matches Some((op, _)) ==> some_refused(
                    accepts_key,
                    op.keys,
                ) || some_refused(accepts_zk_key, op.sequencer_zk_pks),
            },
    {
        proof {
            lemma_le_capacities();
        }
        let (channel, rest) = match decode_32(bytes) {
            None => return Err(DecodeError),
            Some(front) => front,
        };
        let (keys, rest) = match decode_keys(rest) {
            None => return Err(DecodeError),
            Some(front) => front,
        };
        if keys.len() == 0 {
            return Err(DecodeError);
        }
        let (posting_timeframe, rest) = match decode_le(rest, 4) {
            None => return Err(DecodeError),
            Some(front) => front,
        };
        let (posting_timeout, rest) = match decode_le(rest, 4) {
            None => return Err(DecodeError),
            Some(front) => front,
        };
        let (configuration_threshold, rest) = match decode_le(rest, 2) {
            None => return Err(DecodeError),
            Some(front) => front,
        };
        let (withdraw_threshold, rest) = match decode_le(rest, 2) {
            None => return Err(DecodeError),
            Some(front) => front,
        };
        let (sequencer_zk_pks, rest) = match decode_keys(rest) {
            None => return Err(DecodeError),
            Some(front) => front,
        };
        if !accept_all(&accepts_key, keys.as_slice()) {
            return Err(DecodeError);
        }
        if !accept_all(&accepts_zk_key, sequencer_zk_pks.as_slice()) {
            return Err(DecodeError);
        }
        Ok(
            (
                rest,
                Self {
                    channel,
                    keys: Keys(keys),
                    posting_timeframe: SlotTimeframe(posting_timeframe as u32),
                    posting_timeout: SlotTimeout(posting_timeout as u32),
                    configuration_threshold: configuration_threshold as u16,
                    withdraw_threshold: withdraw_threshold as u16,
                    sequencer_zk_pks: BoundedVec::new_unchecked(sequencer_zk_pks),
                },
            ),
        )
    }
}

proof fn lemma_take_keys(bytes: Seq<u8>, keys: Seq<[u8; 32]>, rest: Seq<u8>)
    requires
        keys.len() <= CHANNEL_MAX_KEYS,
    ensures
        take_keys(bytes) == Some((keys, rest)) <==> bytes == keys_bytes(keys) + rest,
{
    lemma_le_capacities();
    if bytes == keys_bytes(keys) + rest {
        assert(bytes =~= le_bytes(keys.len(), 2) + (joined32(keys) + rest));
        lemma_take_le(bytes, 2, keys.len(), joined32(keys) + rest);
        lemma_take_list32(joined32(keys) + rest, keys, rest);
    }
    if take_keys(bytes) == Some((keys, rest)) {
        let (count, left) = take_le(bytes, 2)->0;
        lemma_take_le_bound(bytes, 2);
        lemma_take_list32(left, keys, rest);
        assert(bytes =~= keys_bytes(keys) + rest);
    }
}

proof fn lemma_take_numbers(bytes: Seq<u8>, numbers: ConfigNumbers, rest: Seq<u8>)
    requires
        numbers.posting_timeframe <= u32::MAX,
        numbers.posting_timeout <= u32::MAX,
        numbers.configuration_threshold <= u16::MAX,
        numbers.withdraw_threshold <= u16::MAX,
    ensures
        take_numbers(bytes) == Some((numbers, rest)) <==> bytes == numbers_bytes(numbers) + rest,
{
    lemma_le_capacities();
    let n0 = le_bytes(numbers.posting_timeframe, 4);
    let n1 = le_bytes(numbers.posting_timeout, 4);
    let n2 = le_bytes(numbers.configuration_threshold, 2);
    let n3 = le_bytes(numbers.withdraw_threshold, 2);
    assert(numbers_bytes(numbers) + rest == n0 + (n1 + (n2 + (n3 + rest)))) by {
        lemma_joins(n0 + n1 + n2, n3, rest);
        lemma_joins(n0 + n1, n2, n3 + rest);
        lemma_joins(n0, n1, n2 + (n3 + rest));
    }
    if bytes == numbers_bytes(numbers) + rest {
        lemma_take_le(bytes, 4, numbers.posting_timeframe, n1 + (n2 + (n3 + rest)));
        lemma_take_le(n1 + (n2 + (n3 + rest)), 4, numbers.posting_timeout, n2 + (n3 + rest));
        lemma_take_le(n2 + (n3 + rest), 2, numbers.configuration_threshold, n3 + rest);
        lemma_take_le(n3 + rest, 2, numbers.withdraw_threshold, rest);
    }
    if take_numbers(bytes) == Some((numbers, rest)) {
        let (_, a) = take_le(bytes, 4)->0;
        let (_, b) = take_le(a, 4)->0;
        let (_, c) = take_le(b, 2)->0;
        lemma_take_le_bound(bytes, 4);
        lemma_take_le_bound(a, 4);
        lemma_take_le_bound(b, 2);
        lemma_take_le_bound(c, 2);
    }
}

/// Reading a configuration is the inverse of writing one.
pub proof fn config_round_trip(bytes: Seq<u8>, op: ConfigView, rest: Seq<u8>)
    requires
        0 < op.keys.len() <= CHANNEL_MAX_KEYS,
        op.sequencer_zk_pks.len() <= CHANNEL_MAX_KEYS,
    ensures
        take_config(bytes) == Some((op, rest)) <==> bytes == config_bytes(op) + rest,
{
    let numbers = config_numbers(op);
    let keys = keys_bytes(op.keys);
    let middle = numbers_bytes(numbers);
    let zk_keys = keys_bytes(op.sequencer_zk_pks);
    assert(config_bytes(op) + rest == op.channel@ + (keys + (middle + (zk_keys + rest)))) by {
        lemma_joins(op.channel@ + keys + middle, zk_keys, rest);
        lemma_joins(op.channel@ + keys, middle, zk_keys + rest);
        lemma_joins(op.channel@, keys, middle + (zk_keys + rest));
    }
    if bytes == config_bytes(op) + rest {
        lemma_take_32(bytes, op.channel, keys + (middle + (zk_keys + rest)));
        lemma_take_keys(keys + (middle + (zk_keys + rest)), op.keys, middle + (zk_keys + rest));
        lemma_take_numbers(middle + (zk_keys + rest), numbers, zk_keys + rest);
        lemma_take_keys(zk_keys + rest, op.sequencer_zk_pks, rest);
    }
    if take_config(bytes) == Some((op, rest)) {
        let (_, a) = take_32(bytes)->0;
        let (_, b) = take_keys(a)->0;
        let (read, c) = take_numbers(b)->0;
        lemma_take_32(bytes, op.channel, a);
        lemma_take_keys(a, op.keys, b);
        lemma_numbers_bound(b);
        assert(read =~= numbers);
        lemma_take_numbers(b, numbers, c);
        lemma_take_keys(c, op.sequencer_zk_pks, rest);
    }
}

proof fn lemma_numbers_bound(bytes: Seq<u8>)
    ensures
        take_numbers(bytes) matches Some((numbers, _)) ==> {
            &&& numbers.posting_timeframe <= u32::MAX
            &&& numbers.posting_timeout <= u32::MAX
            &&& numbers.configuration_threshold <= u16::MAX
            &&& numbers.withdraw_threshold <= u16::MAX
        },
{
    lemma_le_capacities();
    if take_numbers(bytes) is Some {
        let (_, a) = take_le(bytes, 4)->0;
        let (_, b) = take_le(a, 4)->0;
        let (_, c) = take_le(b, 2)->0;
        lemma_take_le_bound(bytes, 4);
        lemma_take_le_bound(a, 4);
        lemma_take_le_bound(b, 2);
        lemma_take_le_bound(c, 2);
    }
}

/// What the validity of a configuration depends on.
pub struct ChannelConfigValidationContext<'a> {
    pub channels: &'a Channels,
    pub tx_hash: &'a TxHash,
    pub config_sigs: &'a ChannelMultiSigProof,
}

/// What a configuration changes.
#[derive(Debug, PartialEq, Eq)]
pub struct ChannelConfigExecutionContext {
    pub channels: Channels,
    pub block_slot: Slot,
    pub utxos: Utxos,
}

/// The thresholds are not zero, and each accredited key comes with a key that
/// notes can be minted to.
pub open spec fn well_formed_config(op: ConfigView) -> bool {
    &&& op.configuration_threshold != 0
    &&& op.withdraw_threshold != 0
    &&& op.keys.len() > 0
    &&& op.keys.len() == op.sequencer_zk_pks.len()
}

/// The keys of the channel's notes whose owner the new configuration drops.
pub open spec fn dropped_keys(channel: ChannelView, sequencers: Seq<ZkPublicKey>) -> Set<
    (u32, ZkPublicKey),
> {
    channel.frozen_note_map.dom().filter(
        |key: (u32, ZkPublicKey)|
            channel.sequencers_zk_pks.contains(key.1) && !sequencers.contains(key.1),
    )
}

/// The keys of the notes that a configuration releases.
pub open spec fn config_releases(op: ConfigView, channels: ChannelsView) -> Set<
    (u32, ZkPublicKey),
> {
    if channels.channels.contains_key(op.channel) {
        dropped_keys(channels.channels[op.channel], op.sequencer_zk_pks)
    } else {
        Set::empty()
    }
}

/// A channel under a new configuration.
pub open spec fn configured(
    channel: ChannelView,
    op: ConfigView,
    slot: Slot,
    reserve: ReserveView,
) -> ChannelView {
    ChannelView {
        accredited_keys: op.keys,
        configuration_threshold: op.configuration_threshold,
        tip_message: blake2b_256(config_bytes(op)),
        tip_slot: slot,
        tip_sequencer: 0,
        tip_sequencer_starting_slot: slot,
        posting_timeframe: op.posting_timeframe,
        posting_timeout: op.posting_timeout,
        floating_balance: reserve.floating_balance,
        solvency: channel.solvency,
        frozen_note_map: reserve.frozen_note_map,
        sequencers_zk_pks: op.sequencer_zk_pks,
        withdrawal_nonce: channel.withdrawal_nonce,
        withdraw_threshold: op.withdraw_threshold,
    }
}

/// A channel that a configuration creates: one that holds nothing.
pub open spec fn created_channel(op: ConfigView, slot: Slot) -> ChannelView {
    ChannelView {
        accredited_keys: op.keys,
        configuration_threshold: op.configuration_threshold,
        tip_message: blake2b_256(config_bytes(op)),
        tip_slot: slot,
        tip_sequencer: 0,
        tip_sequencer_starting_slot: slot,
        posting_timeframe: op.posting_timeframe,
        posting_timeout: op.posting_timeout,
        floating_balance: 0,
        solvency: 0,
        frozen_note_map: Map::empty(),
        sequencers_zk_pks: op.sequencer_zk_pks,
        withdrawal_nonce: 0,
        withdraw_threshold: op.withdraw_threshold,
    }
}

/// The list of marked channels with one more, unless it is on the list.
pub open spec fn marked(list: Seq<ChannelId>, channel_id: ChannelId) -> Seq<ChannelId> {
    if list.contains(channel_id) {
        list
    } else {
        list.push(channel_id)
    }
}

/// The channels and the ledger after a configuration that releases notes in the
/// given order.
///
/// An existing channel is marked for minting if its floating balance amounts to
/// one unit at least for each sequencer.
pub open spec fn config_outcome(
    op: ConfigView,
    channels: ChannelsView,
    utxos: Map<NoteId, Utxo>,
    slot: Slot,
    order: Seq<(u32, ZkPublicKey)>,
) -> Result<(ChannelsView, Map<NoteId, Utxo>), Error> {
    let channel = channels.channels[op.channel];
    if !channels.channels.contains_key(op.channel) {
        Ok(
            (
                ChannelsView {
                    channels: channels.channels.insert(op.channel, created_channel(op, slot)),
                    ..channels
                },
                utxos,
            ),
        )
    } else {
        match release_list(reserve_of(channels, utxos, op.channel), order) {
            Err(e) => Err(e),
            Ok(reserve) => Ok(
                (
                    ChannelsView {
                        channels: channels.channels.insert(
                            op.channel,
                            configured(channel, op, slot, reserve),
                        ),
                        mint_eligible_channels: if op.sequencer_zk_pks.len()
                            <= reserve.floating_balance {
                            marked(channels.mint_eligible_channels, op.channel)
                        } else {
                            channels.mint_eligible_channels
                        },
                        frozen_notes: reserve.frozen_notes,
                    },
                    reserve.utxos,
                ),
            ),
        }
    }
}

/// The keys of the channel's notes whose owner is dropped, in some order.
fn collect_dropped(
    frozen_note_map: &FrozenNoteMap,
    before: &ZkKeys,
    sequencers: &ZkKeys,
) -> (r: Vec<(u32, ZkPublicKey)>)
    ensures
        r@.no_duplicates(),
        forall|key: (u32, ZkPublicKey)|
            r@.contains(key) <==> #[trigger] frozen_note_map@.contains_key(key) && before@.contains(
                key.1,
            ) && !sequencers@.contains(key.1),
{
    let entries = frozen_note_map.entries();
    let mut dropped: Vec<(u32, ZkPublicKey)> = Vec::new();
    let mut i: usize = 0;
    while i < entries.len()
        invariant
            i <= entries@.len(),
            lists(entries@, frozen_note_map@),
            dropped@.no_duplicates(),
            forall|j: int|
                0 <= j < dropped@.len() ==> exists|k: int|
                    0 <= k < i && #[trigger] entries@[k].0 == #[trigger] dropped@[j] && before@.contains(
                        dropped@[j].1,
                    ) && !sequencers@.contains(dropped@[j].1),
            forall|k: int|
                0 <= k < i && before@.contains((#[trigger] entries@[k]).0.1)
                    && !sequencers@.contains(entries@[k].0.1) ==> dropped@.contains(
                    entries@[k].0,
                ),
        decreases entries@.len() - i,
    {
        let key: (u32, ZkPublicKey) = entries[i].0;
        if holds_bytes(before.as_slice(), &key.1) && !holds_bytes(sequencers.as_slice(), &key.1) {
            let ghost earlier = dropped@;
            proof {
                if earlier.contains(key) {
                    let j = choose|j: int| 0 <= j < earlier.len() && earlier[j] == key;
                    let k = choose|k: int|
                        0 <= k < i && #[trigger] entries@[k].0 == earlier[j] && before@.contains(
                            earlier[j].1,
                        ) && !sequencers@.contains(earlier[j].1);
                    assert(entries@[k].0 != entries@[i as int].0);
                }
            }
            dropped.push(key);
            assert(dropped@[earlier.len() as int] == key);
            assert(forall|x: (u32, ZkPublicKey)|
                earlier.contains(x) ==> #[trigger] dropped@.contains(x)) by {
                assert forall|x: (u32, ZkPublicKey)| earlier.contains(x) implies #[trigger] dropped@.contains(x) by {
                    let j = choose|j: int| 0 <= j < earlier.len() && earlier[j] == x;
                    assert(dropped@[j] == x);
                }
            }
            assert forall|j: int| 0 <= j < dropped@.len() implies exists|k: int|
                0 <= k < i + 1 && #[trigger] entries@[k].0 == #[trigger] dropped@[j]
                    && before@.contains(dropped@[j].1) && !sequencers@.contains(
                    dropped@[j].1,
                ) by {
                if j < earlier.len() {
                    assert(dropped@[j] == earlier[j]);
                } else {
                    assert(entries@[i as int].0 == dropped@[j]);
                }
            }
        }
        i = i + 1;
    }
    assert forall|key: (u32, ZkPublicKey)|
        dropped@.contains(key) <==> #[trigger] frozen_note_map@.contains_key(key)
            && before@.contains(key.1) && !sequencers@.contains(key.1) by {
        if dropped@.contains(key) {
            let j = choose|j: int| 0 <= j < dropped@.len() && dropped@[j] == key;
            let k = choose|k: int|
                0 <= k < entries@.len() && #[trigger] entries@[k].0 == dropped@[j]
                    && before@.contains(dropped@[j].1) && !sequencers@.contains(dropped@[j].1);
            assert(frozen_note_map@.contains_key(entries@[k].0));
        }
        if frozen_note_map@.contains_key(key) && before@.contains(key.1) && !sequencers@.contains(
            key.1,
        ) {
            let k = choose|k: int| 0 <= k < entries@.len() && (#[trigger] entries@[k]).0 == key;
            assert(dropped@.contains(entries@[k].0));
        }
    }
    dropped
}

impl ChannelConfigOp {
    /// Whether the configuration may go ahead. `verify` says whether a signature
    /// is by a key.
    ///
    /// Anyone may create a channel. An existing one asks for as many signatures
    /// as its threshold says, each by an accredited key.
    pub fn validate<V: Fn(&Ed25519PublicKey, &TxHash, &Ed25519Signature) -> bool>(
        &self,
        ctx: &ChannelConfigValidationContext<'_>,
        verify: V,
    ) -> (r: Result<(), Error>)
        requires
            forall|key: &Ed25519PublicKey, hash: &TxHash, signature: &Ed25519Signature| #[trigger]
                call_requires(verify, (key, hash, signature)),
        ensures
            ({
                let exists_already = ctx.channels@.channels.contains_key(self.channel);
                let channel = ctx.channels@.channels[self.channel];
                let keys = channel.accredited_keys;
                let signatures = ctx.config_sigs@;
                let enough = signatures.len() == channel.configuration_threshold;
                match r {
                    Ok(()) => {
                        &&& well_formed_config(self@)
                        &&& exists_already ==> {
                            &&& enough
                            &&& stand(
                                verify,
                                keys,
                                *ctx.tx_hash,
                                signatures,
                                signatures.len() as int,
                            )
                        }
                    },
                    Err(Error::InvalidChannelConfig) => !well_formed_config(self@),
                    Err(Error::ThresholdUnmet { channel_id, threshold, actual }) => {
                        &&& well_formed_config(self@) && exists_already && !enough
                        &&& channel_id == self.channel
                        &&& threshold == channel.configuration_threshold
                        &&& actual == signatures.len()
                    },
                    Err(Error::InvalidSignatureIndex { channel_id, sequencers, index }) => {
                        &&& well_formed_config(self@) && exists_already && enough
                        &&& channel_id == self.channel
                        &&& sequencers == keys.len()
                        &&& index >= keys.len()
                        &&& exists|i: int|
                            0 <= i < signatures.len() && #[trigger] stand(
                                verify,
                                keys,
                                *ctx.tx_hash,
                                signatures,
                                i,
                            ) && signatures[i].channel_key_index == index
                    },
                    Err(Error::InvalidSignature) => {
                        &&& well_formed_config(self@) && exists_already && enough
                        &&& exists|i: int|
                            0 <= i < signatures.len() && #[trigger] stand(
                                verify,
                                keys,
                                *ctx.tx_hash,
                                signatures,
                                i,
                            ) && judged(verify, keys, *ctx.tx_hash, signatures[i], false)
                    },
                    Err(_) => false,
                }
            }),
    {
        if self.configuration_threshold == 0 || self.withdraw_threshold == 0 || self.keys.is_empty()
            || self.keys.len() != self.sequencer_zk_pks.len() {
            return Err(Error::InvalidChannelConfig);
        }
        let channel = match ctx.channels.channels.get(&self.channel) {
            Some(channel) => channel,
            None => return Ok(()),
        };
        let signatures = ctx.config_sigs.signatures();
        if signatures.len() != channel.configuration_threshold as usize {
            return Err(
                Error::ThresholdUnmet {
                    channel_id: self.channel,
                    threshold: channel.configuration_threshold,
                    actual: signatures.len(),
                },
            );
        }
        match check_signatures(&channel.accredited_keys, ctx.tx_hash, signatures, &verify) {
            Ok(()) => Ok(()),
            Err(SignatureFault::NoSuchKey(i)) => {
                assert(stand(verify, channel@.accredited_keys, *ctx.tx_hash, signatures@, i as int));
                Err(
                    Error::InvalidSignatureIndex {
                        channel_id: self.channel,
                        sequencers: channel.accredited_keys.len(),
                        index: signatures[i].channel_key_index,
                    },
                )
            },
            Err(SignatureFault::Rejected(i)) => {
                assert(judged(verify, channel@.accredited_keys, *ctx.tx_hash, signatures@[i as int], false));
                Err(Error::InvalidSignature)
            },
        }
    }

    /// Creates the channel, or gives it the new configuration.
    ///
    /// The notes of sequencers that the new configuration drops are released, in
    /// an order that differs from run to run: it decides which error is
    /// returned where several notes cannot be released, and nothing else.
    pub fn execute(&self, ctx: ChannelConfigExecutionContext) -> (r: Result<
        (ChannelConfigExecutionContext, Events),
        Error,
    >)
        ensures
            exists|order: Seq<(u32, ZkPublicKey)>|
                {
                    &&& #[trigger] orders(order, config_releases(self@, ctx.channels@))
                    &&& match r {
                        Ok((after, events)) => {
                            &&& config_outcome(
                                self@,
                                ctx.channels@,
                                ctx.utxos@,
                                ctx.block_slot,
                                order,
                            ) == Ok::<_, Error>((after.channels@, after.utxos@))
                            &&& after.block_slot == ctx.block_slot
                            &&& events@.len() == 0
                        },
                        Err(e) => config_outcome(
                            self@,
                            ctx.channels@,
                            ctx.utxos@,
                            ctx.block_slot,
                            order,
                        ) == Err::<(ChannelsView, Map<NoteId, Utxo>), _>(e),
                    }
                },
    {
        let ghost before = ctx.channels@;
        let ghost utxos_before = ctx.utxos@;
        let block_slot: Slot = ctx.block_slot;
        let mut channels = ctx.channels;
        let mut channel = match channels.channels.get(&self.channel) {
            Some(channel) => channel.clone(),
            None => {
                let state = ChannelState {
                    accredited_keys: self.keys.clone(),
                    configuration_threshold: self.configuration_threshold,
                    tip_message: self.id(),
                    tip_slot: block_slot,
                    tip_sequencer: 0,
                    tip_sequencer_starting_slot: block_slot,
                    posting_timeframe: self.posting_timeframe,
                    posting_timeout: self.posting_timeout,
                    floating_balance: 0,
                    solvency: 0,
                    frozen_note_map: FrozenNoteMap::new(),
                    sequencers_zk_pks: clone_zk_keys(&self.sequencer_zk_pks),
                    withdrawal_nonce: 0,
                    withdraw_threshold: self.withdraw_threshold,
                };
                assert(state@ =~= created_channel(self@, block_slot));
                channels.channels = channels.channels.insert(self.channel, state);
                proof {
                    let order = Seq::<(u32, ZkPublicKey)>::empty();
                    assert(order.to_set() =~= Set::empty());
                    assert(orders(order, config_releases(self@, before)));
                }
                return Ok(
                    (
                        ChannelConfigExecutionContext { channels, block_slot, utxos: ctx.utxos },
                        Vec::new(),
                    ),
                );
            },
        };
        let ghost view = channel@;
        let dropped = collect_dropped(
            &channel.frozen_note_map,
            &channel.sequencers_zk_pks,
            &self.sequencer_zk_pks,
        );
        proof {
            assert(dropped@.to_set() =~= dropped_keys(view, self@.sequencer_zk_pks)) by {
                assert forall|key: (u32, ZkPublicKey)|
                    dropped@.to_set().contains(key) <==> dropped_keys(
                        view,
                        self@.sequencer_zk_pks,
                    ).contains(key) by {
                    assert(view.frozen_note_map.dom().contains(key)
                        <==> view.frozen_note_map.contains_key(key));
                    assert(dropped@.to_set().contains(key) <==> dropped@.contains(key));
                }
            }
            assert(orders(dropped@, config_releases(self@, before)));
        }
        let mut reserve = Reserve {
            frozen_note_map: channel.frozen_note_map.clone(),
            frozen_notes: channels.frozen_notes.clone(),
            utxos: ctx.utxos,
            floating_balance: channel.floating_balance,
        };
        assert(reserve@ =~= reserve_of(before, utxos_before, self.channel));
        match reserve.release_list(dropped.as_slice()) {
            Ok(()) => {},
            Err(e) => return Err(e),
        }
        let ghost reserve_view = reserve@;
        channel.accredited_keys = self.keys.clone();
        channel.configuration_threshold = self.configuration_threshold;
        channel.tip_message = self.id();
        channel.tip_slot = block_slot;
        channel.tip_sequencer = 0;
        channel.tip_sequencer_starting_slot = block_slot;
        channel.posting_timeframe = self.posting_timeframe;
        channel.posting_timeout = self.posting_timeout;
        channel.floating_balance = reserve.floating_balance;
        channel.frozen_note_map = reserve.frozen_note_map;
        channel.sequencers_zk_pks = clone_zk_keys(&self.sequencer_zk_pks);
        channel.withdraw_threshold = self.withdraw_threshold;
        assert(channel@ =~= configured(view, self@, block_slot, reserve_view));
        if self.sequencer_zk_pks.len() as u64 <= reserve.floating_balance && !holds_bytes(
            channels.mint_eligible_channels.as_slice(),
            &self.channel,
        ) {
            channels.mint_eligible_channels.push(self.channel);
        }
        channels.frozen_notes = reserve.frozen_notes;
        channels.channels = channels.channels.insert(self.channel, channel);
        Ok(
            (
                ChannelConfigExecutionContext { channels, block_slot, utxos: reserve.utxos },
                Vec::new(),
            ),
        )
    }
}

} // verus!
