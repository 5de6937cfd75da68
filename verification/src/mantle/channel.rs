//! The state of channels: who sequences them, and what they hold.
//!
//! A channel holds a floating balance and notes that are frozen in favour of its
//! sequencers. Once an epoch the floating balance is minted into such notes, and
//! a withdrawal turns them back, the youngest first.

use vstd::prelude::*;

use crate::mantle::codec::{decode_le, le_bytes, lemma_le_capacities, push_le, take_le, DecodeError};
use crate::mantle::frozen_notes::{self, FrozenNotes};
use crate::mantle::ledger::{Events, InputsError, OutputsError};
use crate::mantle::maps::FrozenNoteMap;
use crate::mantle::ops::channel::config::{clone_zk_keys, Keys, ZkKeys};
use crate::mantle::primitives::{
    ChannelId, ChannelKeyIndex, Ed25519PublicKey, Epoch, MsgId, Note, NoteId, Slot, Value,
    ZkPublicKey,
};

verus! {

/// How many slots a sequencer posts before the next one takes over. Zero stands
/// for no end.
#[derive(Clone, Copy, Debug, Eq, PartialEq, Hash, Structural)]
pub struct SlotTimeframe(pub u32);

/// After how many slots without a message the next sequencer takes over. Zero
/// stands for never.
#[derive(Clone, Copy, Debug, Eq, PartialEq, Hash, Structural)]
pub struct SlotTimeout(pub u32);

impl From<u32> for SlotTimeframe {
    fn from(slots: u32) -> (r: Self) {
        Self(slots)
    }
}

impl vstd::std_specs::convert::FromSpecImpl<u32> for SlotTimeframe {
    open spec fn obeys_from_spec() -> bool {
        true
    }

    open spec fn from_spec(slots: u32) -> Self {
        Self(slots)
    }
}

impl From<SlotTimeframe> for u32 {
    fn from(slots: SlotTimeframe) -> (r: Self) {
        slots.0
    }
}

impl vstd::std_specs::convert::FromSpecImpl<SlotTimeframe> for u32 {
    open spec fn obeys_from_spec() -> bool {
        true
    }

    open spec fn from_spec(slots: SlotTimeframe) -> Self {
        slots.0
    }
}

impl SlotTimeframe {
    /// Four bytes, the lowest first.
    #[must_use]
    pub fn encode(&self) -> (r: Vec<u8>)
        ensures
            r@ == le_bytes(self.0 as nat, 4),
    {
        let mut bytes: Vec<u8> = Vec::new();
        push_le(&mut bytes, self.0 as u64, 4);
        assert(bytes@ =~= le_bytes(self.0 as nat, 4));
        bytes
    }

    /// Reads the encoding off the front, and hands back what is left.
    pub fn decode(bytes: &[u8]) -> (r: Result<(&[u8], Self), DecodeError>)
        ensures
            match r {
                Ok((rest, slots)) => take_le(bytes@, 4) == Some((slots.0 as nat, rest@)),
                Err(_) => take_le(bytes@, 4) is None,
            },
    {
        proof {
            lemma_le_capacities();
        }
        match decode_le(bytes, 4) {
            Some((n, rest)) => Ok((rest, Self(n as u32))),
            None => Err(DecodeError),
        }
    }
}

impl From<u32> for SlotTimeout {
    fn from(slots: u32) -> (r: Self) {
        Self(slots)
    }
}

impl vstd::std_specs::convert::FromSpecImpl<u32> for SlotTimeout {
    open spec fn obeys_from_spec() -> bool {
        true
    }

    open spec fn from_spec(slots: u32) -> Self {
        Self(slots)
    }
}

impl From<SlotTimeout> for u32 {
    fn from(slots: SlotTimeout) -> (r: Self) {
        slots.0
    }
}

impl vstd::std_specs::convert::FromSpecImpl<SlotTimeout> for u32 {
    open spec fn obeys_from_spec() -> bool {
        true
    }

    open spec fn from_spec(slots: SlotTimeout) -> Self {
        slots.0
    }
}

impl SlotTimeout {
    /// Four bytes, the lowest first.
    #[must_use]
    pub fn encode(&self) -> (r: Vec<u8>)
        ensures
            r@ == le_bytes(self.0 as nat, 4),
    {
        let mut bytes: Vec<u8> = Vec::new();
        push_le(&mut bytes, self.0 as u64, 4);
        assert(bytes@ =~= le_bytes(self.0 as nat, 4));
        bytes
    }

    /// Reads the encoding off the front, and hands back what is left.
    pub fn decode(bytes: &[u8]) -> (r: Result<(&[u8], Self), DecodeError>)
        ensures
            match r {
                Ok((rest, slots)) => take_le(bytes@, 4) == Some((slots.0 as nat, rest@)),
                Err(_) => take_le(bytes@, 4) is None,
            },
    {
        proof {
            lemma_le_capacities();
        }
        match decode_le(bytes, 4) {
            Some((n, rest)) => Ok((rest, Self(n as u32))),
            None => Err(DecodeError),
        }
    }
}

/// Why an operation on a channel was refused.
#[derive(Debug, Clone, PartialEq, Eq)]
pub enum Error {
    InvalidParent { channel_id: ChannelId, parent: [u8; 32], actual: [u8; 32] },
    UnauthorizedSigner { channel_id: ChannelId, signer: String },
    InvalidSignature,
    InvalidSignatureIndex { channel_id: ChannelId, sequencers: usize, index: ChannelKeyIndex },
    ChannelNotFound { channel_id: ChannelId },
    InsufficientFunds,
    BalanceOverflow,
    InvalidWithdrawNonce,
    InvalidChannelConfig,
    WithdrawNonceOverflow,
    Inputs(InputsError),
    Outputs(OutputsError),
    FrozenNotes(frozen_notes::Error),
    ThresholdUnmet { channel_id: ChannelId, threshold: u16, actual: usize },
}

impl From<InputsError> for Error {
    fn from(e: InputsError) -> (r: Self) {
        Self::Inputs(e)
    }
}

impl vstd::std_specs::convert::FromSpecImpl<InputsError> for Error {
    open spec fn obeys_from_spec() -> bool {
        true
    }

    open spec fn from_spec(e: InputsError) -> Self {
        Self::Inputs(e)
    }
}

impl From<OutputsError> for Error {
    fn from(e: OutputsError) -> (r: Self) {
        Self::Outputs(e)
    }
}

impl vstd::std_specs::convert::FromSpecImpl<OutputsError> for Error {
    open spec fn obeys_from_spec() -> bool {
        true
    }

    open spec fn from_spec(e: OutputsError) -> Self {
        Self::Outputs(e)
    }
}

impl From<frozen_notes::Error> for Error {
    fn from(e: frozen_notes::Error) -> (r: Self) {
        Self::FrozenNotes(e)
    }
}

impl vstd::std_specs::convert::FromSpecImpl<frozen_notes::Error> for Error {
    open spec fn obeys_from_spec() -> bool {
        true
    }

    open spec fn from_spec(e: frozen_notes::Error) -> Self {
        Self::FrozenNotes(e)
    }
}

/// The withdraw threshold of a channel that no configuration has set.
pub const DEFAULT_WITHDRAW_THRESHOLD: ChannelKeyIndex = 1;

/// The state of one channel.
#[derive(Debug, PartialEq, Eq)]
pub struct ChannelState {
    /// The keys that may sign for the channel.
    pub accredited_keys: Keys,
    /// How many keys have to sign a new configuration.
    pub configuration_threshold: u16,
    /// The last message.
    pub tip_message: MsgId,
    /// The slot of the last message.
    pub tip_slot: Slot,
    /// The index of the sequencer of the last message among the accredited keys.
    pub tip_sequencer: u16,
    /// The slot from which on that sequencer has been posting.
    pub tip_sequencer_starting_slot: Slot,
    pub posting_timeframe: SlotTimeframe,
    pub posting_timeout: SlotTimeout,
    /// What the channel holds and has not minted into frozen notes.
    pub floating_balance: Value,
    /// What the channel holds in all.
    pub solvency: Value,
    /// The frozen notes of the channel.
    pub frozen_note_map: FrozenNoteMap,
    /// The keys that frozen notes are minted to.
    pub sequencers_zk_pks: ZkKeys,
    /// The number of withdrawals so far.
    pub withdrawal_nonce: u32,
    /// How many keys have to sign a withdrawal.
    pub withdraw_threshold: ChannelKeyIndex,
}

/// What a [`ChannelState`] says.
#[verifier::ext_equal]
pub struct ChannelView {
    pub accredited_keys: Seq<Ed25519PublicKey>,
    pub configuration_threshold: u16,
    pub tip_message: MsgId,
    pub tip_slot: Slot,
    pub tip_sequencer: u16,
    pub tip_sequencer_starting_slot: Slot,
    pub posting_timeframe: SlotTimeframe,
    pub posting_timeout: SlotTimeout,
    pub floating_balance: Value,
    pub solvency: Value,
    pub frozen_note_map: Map<(u32, ZkPublicKey), NoteId>,
    pub sequencers_zk_pks: Seq<ZkPublicKey>,
    pub withdrawal_nonce: u32,
    pub withdraw_threshold: ChannelKeyIndex,
}

impl View for ChannelState {
    type V = ChannelView;

    open spec fn view(&self) -> ChannelView {
        ChannelView {
            accredited_keys: self.accredited_keys@,
            configuration_threshold: self.configuration_threshold,
            tip_message: self.tip_message,
            tip_slot: self.tip_slot,
            tip_sequencer: self.tip_sequencer,
            tip_sequencer_starting_slot: self.tip_sequencer_starting_slot,
            posting_timeframe: self.posting_timeframe,
            posting_timeout: self.posting_timeout,
            floating_balance: self.floating_balance,
            solvency: self.solvency,
            frozen_note_map: self.frozen_note_map@,
            sequencers_zk_pks: self.sequencers_zk_pks@,
            withdrawal_nonce: self.withdrawal_nonce,
            withdraw_threshold: self.withdraw_threshold,
        }
    }
}

impl Clone for ChannelState {
    fn clone(&self) -> (r: Self)
        ensures
            r@ == self@,
    {
        Self {
            accredited_keys: self.accredited_keys.clone(),
            configuration_threshold: self.configuration_threshold,
            tip_message: self.tip_message,
            tip_slot: self.tip_slot,
            tip_sequencer: self.tip_sequencer,
            tip_sequencer_starting_slot: self.tip_sequencer_starting_slot,
            posting_timeframe: self.posting_timeframe,
            posting_timeout: self.posting_timeout,
            floating_balance: self.floating_balance,
            solvency: self.solvency,
            frozen_note_map: self.frozen_note_map.clone(),
            sequencers_zk_pks: clone_zk_keys(&self.sequencers_zk_pks),
            withdrawal_nonce: self.withdrawal_nonce,
            withdraw_threshold: self.withdraw_threshold,
        }
    }
}

/// Channels by identifier, kept in the `rpds` crate's `HashTrieMapSync`.
#[verifier::external_body]
#[derive(Debug, PartialEq, Eq)]
pub struct ChannelMap {
    entries: rpds::HashTrieMapSync<[u8; 32], ChannelState>,
}

/// The entries of a [`ChannelMap`].
pub uninterp spec fn channel_entries(map: ChannelMap) -> Map<ChannelId, ChannelView>;

/// `rpds::HashTrieMapSync::new_sync`: a map without entries.
#[verifier::external_body]
fn channel_map_new() -> (r: ChannelMap)
    ensures
        channel_entries(r) == (Map::<ChannelId, ChannelView>::empty()),
{
    ChannelMap { entries: rpds::HashTrieMapSync::new_sync() }
}

/// `rpds::HashTrieMap::clone`: a map with the same entries.
#[verifier::external_body]
fn channel_map_clone(map: &ChannelMap) -> (r: ChannelMap)
    ensures
        channel_entries(r) == channel_entries(*map),
{
    ChannelMap { entries: map.entries.clone() }
}

/// `rpds::HashTrieMap::get`: the value under the key, if there is one.
#[verifier::external_body]
fn channel_map_get<'a>(map: &'a ChannelMap, key: &ChannelId) -> (r: Option<&'a ChannelState>)
    ensures
        match r {
            Some(state) => channel_entries(*map).contains_key(*key) && state@ == channel_entries(
                *map,
            )[*key],
            None => !channel_entries(*map).contains_key(*key),
        },
{
    map.entries.get(key)
}

/// `rpds::HashTrieMap::insert`: the value under the key is the one given, every
/// other entry is as before.
#[verifier::external_body]
fn channel_map_insert(map: &ChannelMap, key: ChannelId, value: ChannelState) -> (r: ChannelMap)
    ensures
        channel_entries(r) == channel_entries(*map).insert(key, value@),
{
    ChannelMap { entries: map.entries.insert(key, value) }
}

/// `rpds::HashTrieMap::keys`: hands out every key once. The hasher that each map
/// seeds decides the order, of which nothing is said.
#[verifier::external_body]
fn channel_map_keys(map: &ChannelMap) -> (r: Vec<ChannelId>)
    ensures
        r@.no_duplicates(),
        r@.to_set() == channel_entries(*map).dom(),
{
    map.entries.keys().copied().collect()
}

impl View for ChannelMap {
    type V = Map<ChannelId, ChannelView>;

    open spec fn view(&self) -> Map<ChannelId, ChannelView> {
        channel_entries(*self)
    }
}

impl Clone for ChannelMap {
    fn clone(&self) -> (r: Self)
        ensures
            r@ == self@,
    {
        channel_map_clone(self)
    }
}

impl ChannelMap {
    #[must_use]
    pub fn new() -> (r: Self)
        ensures
            r@ == Map::<ChannelId, ChannelView>::empty(),
    {
        channel_map_new()
    }

    /// The channel under `key`, if there is one.
    #[must_use]
    pub fn get(&self, key: &ChannelId) -> (r: Option<&ChannelState>)
        ensures
            match r {
                Some(state) => self@.contains_key(*key) && state@ == self@[*key],
                None => !self@.contains_key(*key),
            },
    {
        channel_map_get(self, key)
    }

    /// Whether there is a channel under `key`.
    #[must_use]
    pub fn contains_key(&self, key: &ChannelId) -> (r: bool)
        ensures
            r == self@.contains_key(*key),
    {
        channel_map_get(self, key).is_some()
    }

    /// Every key once, in an order that differs from run to run.
    #[must_use]
    pub fn keys(&self) -> (r: Vec<ChannelId>)
        ensures
            r@.no_duplicates(),
            r@.to_set() == self@.dom(),
    {
        channel_map_keys(self)
    }

    /// The map with `state` under `key`.
    #[must_use]
    pub fn insert(&self, key: ChannelId, state: ChannelState) -> (r: Self)
        ensures
            r@ == self@.insert(key, state@),
    {
        channel_map_insert(self, key, state)
    }
}

/// All channels, and the notes that they hold frozen.
#[derive(Debug, PartialEq, Eq)]
pub struct Channels {
    pub channels: ChannelMap,
    /// The channels that the next minting goes through.
    pub mint_eligible_channels: Vec<ChannelId>,
    pub frozen_notes: FrozenNotes,
}

/// What [`Channels`] say.
#[verifier::ext_equal]
pub struct ChannelsView {
    pub channels: Map<ChannelId, ChannelView>,
    pub mint_eligible_channels: Seq<ChannelId>,
    pub frozen_notes: Map<NoteId, Note>,
}

impl View for Channels {
    type V = ChannelsView;

    open spec fn view(&self) -> ChannelsView {
        ChannelsView {
            channels: self.channels@,
            mint_eligible_channels: self.mint_eligible_channels@,
            frozen_notes: self.frozen_notes@,
        }
    }
}

impl Clone for Channels {
    fn clone(&self) -> (r: Self)
        ensures
            r@ == self@,
    {
        Self {
            channels: self.channels.clone(),
            mint_eligible_channels: crate::crypto::copy_bytes(
                self.mint_eligible_channels.as_slice(),
            ),
            frozen_notes: self.frozen_notes.clone(),
        }
    }
}

impl Default for Channels {
    fn default() -> (r: Self)
        ensures
            r@ == no_channels(),
    {
        Self::new()
    }
}

/// What the execution of an inscription returned, given the channels and events
/// that came out of it and the slot that went with them.
pub open spec fn genesis_result(r: Result<(Channels, Events), Error>, slot: Slot) -> Result<
    (InscriptionExecutionContext, Events),
    Error,
> {
    match r {
        Ok((channels, events)) => Ok(
            (InscriptionExecutionContext { channels, block_slot: slot }, events),
        ),
        Err(e) => Err(e),
    }
}

/// No channels, and no frozen notes.
pub open spec fn no_channels() -> ChannelsView {
    ChannelsView {
        channels: Map::empty(),
        mint_eligible_channels: Seq::empty(),
        frozen_notes: Map::empty(),
    }
}

/// What an inscription changes.
#[derive(Debug, PartialEq, Eq)]
pub struct InscriptionExecutionContext {
    pub channels: Channels,
    pub block_slot: Slot,
}

impl Channels {
    /// The channels after the genesis block's inscription, which `execute`
    /// executes on no channels at slot zero.
    pub fn from_genesis<
        O,
        X: Fn(&O, InscriptionExecutionContext) -> Result<
            (InscriptionExecutionContext, Events),
            Error,
        >,
    >(op: &O, execute: X) -> (r: Result<(Self, Events), Error>)
        requires
            forall|ctx: InscriptionExecutionContext|
                ctx.channels@ == no_channels() && ctx.block_slot.0 == 0 ==> #[trigger]
                call_requires(execute, (op, ctx)),
        ensures
            exists|ctx: InscriptionExecutionContext, slot: Slot|
                ctx.channels@ == no_channels() && ctx.block_slot.0 == 0 && #[trigger] call_ensures(
                    execute,
                    (op, ctx),
                    genesis_result(r, slot),
                ),
    {
        let ctx = InscriptionExecutionContext { channels: Self::default(), block_slot: Slot(0) };
        let ghost given = ctx;
        let done: Result<(InscriptionExecutionContext, Events), Error> = execute(op, ctx);
        let ghost before = done;
        match done {
            Ok((after, events)) => {
                let r: Result<(Self, Events), Error> = Ok((after.channels, events));
                assert(genesis_result(r, after.block_slot) == before);
                assert(call_ensures(execute, (op, given), genesis_result(r, after.block_slot)));
                r
            },
            Err(e) => {
                let r: Result<(Self, Events), Error> = Err(e);
                assert(genesis_result(r, Slot(0)) == before);
                assert(call_ensures(execute, (op, given), genesis_result(r, Slot(0))));
                r
            },
        }
    }

    /// No channels, and no frozen notes.
    #[must_use]
    pub fn new() -> (r: Self)
        ensures
            r@ == no_channels(),
    {
        Self {
            channels: ChannelMap::new(),
            mint_eligible_channels: Vec::new(),
            frozen_notes: FrozenNotes::new(),
        }
    }

    /// The state of a channel, if there is one.
    #[must_use]
    pub fn channel_state(&self, channel_id: &ChannelId) -> (r: Option<&ChannelState>)
        ensures
            match r {
                Some(state) => self@.channels.contains_key(*channel_id) && state@
                    == self@.channels[*channel_id],
                None => !self@.channels.contains_key(*channel_id),
            },
    {
        self.channels.get(channel_id)
    }

    /// The notes that the channels hold frozen.
    #[must_use]
    pub fn frozen_notes(&self) -> (r: &FrozenNotes)
        ensures
            r@ == self@.frozen_notes,
    {
        &self.frozen_notes
    }
}

/// Whether the channel has gone so long without a message that its sequencer is
/// passed over.
pub open spec fn timed_out(channel: ChannelView, slot: u64) -> bool {
    channel.posting_timeout.0 != 0 && slot - channel.tip_slot.0 >= channel.posting_timeout.0
}

/// How many turns have ended since the last message: as many as there were whole
/// timeouts, if there was one, else as many as there were whole timeframes.
pub open spec fn turns_passed(channel: ChannelView, slot: u64) -> int {
    if timed_out(channel, slot) {
        (slot - channel.tip_slot.0) / channel.posting_timeout.0 as int
    } else if channel.posting_timeframe.0 != 0 {
        (slot - channel.tip_sequencer_starting_slot.0) / channel.posting_timeframe.0 as int
    } else {
        0
    }
}

/// Whether the channel's sequencers take turns at a slot, so that the tip's
/// sequencer need not be the one to post.
pub open spec fn rotates(channel: ChannelView, slot: u64) -> bool {
    timed_out(channel, slot) || channel.posting_timeframe.0 != 0
}

/// The sequencer whose turn it is.
pub open spec fn sequencer_at(channel: ChannelView, slot: u64) -> int {
    if rotates(channel, slot) {
        (channel.tip_sequencer + turns_passed(channel, slot)) % (
        channel.accredited_keys.len() as int)
    } else {
        channel.tip_sequencer as int
    }
}

/// The slot at which the turn began.
pub open spec fn turn_start(channel: ChannelView, slot: u64) -> int {
    if timed_out(channel, slot) {
        channel.tip_slot.0 + turns_passed(channel, slot) * channel.posting_timeout.0
    } else {
        channel.tip_sequencer_starting_slot.0 + turns_passed(channel, slot)
            * channel.posting_timeframe.0
    }
}

impl ChannelState {
    /// The last epoch for which the channel holds frozen notes.
    #[must_use]
    pub fn last_mint_epoch(&self) -> (r: Option<Epoch>)
        ensures
            match r {
                Some(epoch) => {
                    &&& exists|pk: ZkPublicKey| #[trigger]
                        self@.frozen_note_map.contains_key((epoch.0, pk))
                    &&& forall|key: (u32, ZkPublicKey)| #[trigger]
                        self@.frozen_note_map.contains_key(key) ==> key.0 <= epoch.0
                },
                None => self@.frozen_note_map == Map::<(u32, ZkPublicKey), NoteId>::empty(),
            },
    {
        let entries = self.frozen_note_map.entries();
        let mut last: Option<Epoch> = None;
        let mut i: usize = 0;
        while i < entries.len()
            invariant
                i <= entries@.len(),
                match last {
                    Some(epoch) => {
                        &&& exists|j: int| 0 <= j < i && (#[trigger] entries@[j]).0.0 == epoch.0
                        &&& forall|j: int| 0 <= j < i ==> (#[trigger] entries@[j]).0.0 <= epoch.0
                    },
                    None => i == 0,
                },
            decreases entries@.len() - i,
        {
            let epoch: u32 = entries[i].0.0;
            let later: bool = match last {
                Some(before) => before.0 < epoch,
                None => true,
            };
            if later {
                assert(entries@[i as int].0.0 == epoch);
                last = Some(Epoch(epoch));
            }
            i = i + 1;
        }
        proof {
            if let Some(epoch) = last {
                let j = choose|j: int|
                    0 <= j < entries@.len() && (#[trigger] entries@[j]).0.0 == epoch.0;
                let key = entries@[j].0;
                assert(key == (epoch.0, key.1));
                assert(self@.frozen_note_map.contains_key((epoch.0, key.1)));
            } else {
                assert(self@.frozen_note_map =~= Map::<(u32, ZkPublicKey), NoteId>::empty());
            }
        }
        last
    }

    /// The index of the sequencer whose turn it is at a slot, and the slot at
    /// which the turn began.
    ///
    /// A sequencer's turn ends with a timeout, and otherwise with its timeframe.
    #[must_use]
    pub fn round_robin(&self, block_slot: Slot) -> (r: (u16, Slot))
        requires
            self.tip_slot.0 <= block_slot.0,
            self.tip_sequencer_starting_slot.0 <= block_slot.0,
            self.tip_sequencer + turns_passed(self@, block_slot.0) <= u64::MAX,
        ensures
            r.0 == sequencer_at(self@, block_slot.0),
            r.1.0 == turn_start(self@, block_slot.0),
    {
        let elapsed: u64 = block_slot.0 - self.tip_slot.0;
        let held: u64 = block_slot.0 - self.tip_sequencer_starting_slot.0;
        let posting_timeframe: u64 = self.posting_timeframe.0 as u64;
        let posting_timeout: u64 = self.posting_timeout.0 as u64;
        let num_sequencers: u64 = self.accredited_keys.len() as u64;
        let tip_sequencer: u64 = self.tip_sequencer as u64;

        if posting_timeout != 0 && elapsed >= posting_timeout {
            let turns: u64 = elapsed / posting_timeout;
            proof {
                lemma_whole_turns(elapsed as int, posting_timeout as int);
            }
            let index: u64 = (tip_sequencer + turns) % num_sequencers;
            (index as u16, Slot(self.tip_slot.0 + turns * posting_timeout))
        } else if posting_timeframe != 0 {
            let turns: u64 = held / posting_timeframe;
            proof {
                lemma_whole_turns(held as int, posting_timeframe as int);
            }
            let index: u64 = (tip_sequencer + turns) % num_sequencers;
            (index as u16, Slot(self.tip_sequencer_starting_slot.0 + turns * posting_timeframe))
        } else {
            (self.tip_sequencer, self.tip_sequencer_starting_slot)
        }
    }
}

/// The sequencer whose turn it is has an accredited key.
pub proof fn sequencer_is_accredited(channel: ChannelView, slot: u64)
    requires
        channel.accredited_keys.len() > 0,
        channel.tip_sequencer < channel.accredited_keys.len(),
    ensures
        0 <= sequencer_at(channel, slot) < channel.accredited_keys.len(),
{
}

/// A slot lies in the turn that is found for it: the turn has begun, and what
/// ends it, a timeout or else the timeframe, is still ahead.
pub proof fn slot_lies_in_its_turn(channel: ChannelView, slot: u64)
    requires
        channel.tip_slot.0 <= slot,
        channel.tip_sequencer_starting_slot.0 <= slot,
    ensures
        turn_start(channel, slot) <= slot,
        timed_out(channel, slot) ==> {
            &&& channel.tip_slot.0 < turn_start(channel, slot)
            &&& slot < turn_start(channel, slot) + channel.posting_timeout.0
        },
        !timed_out(channel, slot) ==> {
            &&& channel.tip_sequencer_starting_slot.0 <= turn_start(channel, slot)
            &&& channel.posting_timeframe.0 != 0 ==> slot < turn_start(channel, slot)
                + channel.posting_timeframe.0
        },
{
    if timed_out(channel, slot) {
        let elapsed = slot - channel.tip_slot.0;
        let period = channel.posting_timeout.0 as int;
        lemma_whole_turns(elapsed, period);
        assert((elapsed / period) * period > 0) by (nonlinear_arith)
            requires
                elapsed >= period > 0,
        ;
    } else if channel.posting_timeframe.0 != 0 {
        lemma_whole_turns(
            slot - channel.tip_sequencer_starting_slot.0,
            channel.posting_timeframe.0 as int,
        );
    } else {
        assert(turns_passed(channel, slot) * 0 == 0);
    }
}

/// One timeframe later it is the next sequencer's turn, and behind the last
/// sequencer the first one follows.
pub proof fn next_timeframe_is_the_next_sequencers(channel: ChannelView, slot: u64, later: u64)
    requires
        channel.accredited_keys.len() > 0,
        channel.tip_sequencer_starting_slot.0 <= slot,
        channel.posting_timeframe.0 != 0,
        later == slot + channel.posting_timeframe.0,
        !timed_out(channel, slot),
        !timed_out(channel, later),
    ensures
        turn_start(channel, later) == turn_start(channel, slot) + channel.posting_timeframe.0,
        sequencer_at(channel, later) == (sequencer_at(channel, slot) + 1) % (
        channel.accredited_keys.len() as int),
{
    let held = slot - channel.tip_sequencer_starting_slot.0;
    lemma_next_turn(
        held,
        channel.posting_timeframe.0 as int,
        channel.tip_sequencer as int,
        channel.accredited_keys.len() as int,
    );
}

/// One timeout later it is the next sequencer's turn, and behind the last
/// sequencer the first one follows.
pub proof fn next_timeout_is_the_next_sequencers(channel: ChannelView, slot: u64, later: u64)
    requires
        channel.accredited_keys.len() > 0,
        channel.tip_slot.0 <= slot,
        timed_out(channel, slot),
        later == slot + channel.posting_timeout.0,
    ensures
        turn_start(channel, later) == turn_start(channel, slot) + channel.posting_timeout.0,
        sequencer_at(channel, later) == (sequencer_at(channel, slot) + 1) % (
        channel.accredited_keys.len() as int),
{
    let elapsed = slot - channel.tip_slot.0;
    lemma_next_turn(
        elapsed,
        channel.posting_timeout.0 as int,
        channel.tip_sequencer as int,
        channel.accredited_keys.len() as int,
    );
}

/// Once each sequencer has had its timeframe, it is the first one's turn again.
pub proof fn full_round_returns_to_the_same_sequencer(channel: ChannelView, slot: u64, later: u64)
    requires
        channel.accredited_keys.len() > 0,
        channel.tip_sequencer_starting_slot.0 <= slot,
        channel.posting_timeframe.0 != 0,
        later == slot + channel.accredited_keys.len() * channel.posting_timeframe.0,
        !timed_out(channel, slot),
        !timed_out(channel, later),
    ensures
        sequencer_at(channel, later) == sequencer_at(channel, slot),
{
    let held = slot - channel.tip_sequencer_starting_slot.0;
    let period = channel.posting_timeframe.0 as int;
    let n = channel.accredited_keys.len() as int;
    assert(n * period + held == held + n * period);
    vstd::arithmetic::div_mod::lemma_hoist_over_denominator(held, n, period as nat);
    vstd::arithmetic::div_mod::lemma_mod_add_multiples_vanish(
        channel.tip_sequencer + held / period,
        n,
    );
}

/// Without a timeframe and a timeout the tip's sequencer keeps its turn.
pub proof fn unlimited_turn_never_ends(channel: ChannelView, slot: u64)
    requires
        channel.posting_timeframe.0 == 0,
        channel.posting_timeout.0 == 0,
    ensures
        sequencer_at(channel, slot) == channel.tip_sequencer,
        turn_start(channel, slot) == channel.tip_sequencer_starting_slot.0,
{
    assert(turns_passed(channel, slot) * 0 == 0);
}

proof fn lemma_next_turn(elapsed: int, period: int, tip: int, n: int)
    requires
        0 <= elapsed,
        0 < period,
        0 < n,
    ensures
        (elapsed + period) / period == elapsed / period + 1,
        ((elapsed + period) / period) * period == (elapsed / period) * period + period,
        (tip + (elapsed + period) / period) % n == ((tip + elapsed / period) % n + 1) % n,
{
    let turns = elapsed / period;
    vstd::arithmetic::div_mod::lemma_div_plus_one(elapsed, period);
    assert((turns + 1) * period == turns * period + period) by (nonlinear_arith);
    vstd::arithmetic::div_mod::lemma_add_mod_noop(tip + turns, 1, n);
    vstd::arithmetic::div_mod::lemma_add_mod_noop((tip + turns) % n, 1, n);
    vstd::arithmetic::div_mod::lemma_mod_twice(tip + turns, n);
}

proof fn lemma_whole_turns(elapsed: int, period: int)
    requires
        0 <= elapsed,
        0 < period,
    ensures
        0 <= elapsed / period <= elapsed,
        0 <= (elapsed / period) * period <= elapsed,
        elapsed - (elapsed / period) * period < period,
{
    assert(0 <= elapsed / period <= elapsed && 0 <= (elapsed / period) * period <= elapsed
        && elapsed - (elapsed / period) * period < period) by (nonlinear_arith)
        requires
            0 <= elapsed,
            0 < period,
    ;
}

} // verus!
