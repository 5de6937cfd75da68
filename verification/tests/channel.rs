//! Channels: turns of sequencers, minting, deposits and withdrawals.

use blake2::digest::consts::U32;
use blake2::{Blake2b, Digest};
use ed25519_dalek::SigningKey;
use logos_blockchain::mantle::channel::{
    ChannelMap, ChannelState, Channels, Error, InscriptionExecutionContext, SlotTimeframe,
    SlotTimeout, DEFAULT_WITHDRAW_THRESHOLD,
};
use logos_blockchain::mantle::frozen_notes::FrozenNotes;
use logos_blockchain::mantle::ledger::{
    Event, EventPayload, Events, Inputs, Metadata, Outputs, Utxos,
};
use logos_blockchain::mantle::maps::FrozenNoteMap;
use logos_blockchain::mantle::ops::channel::config::{Keys, ZkKeys};
use logos_blockchain::mantle::ops::channel::deposit::{DepositExecutionContext, DepositOp};
use logos_blockchain::mantle::ops::channel::withdraw::{
    ChannelWithdrawOp, WithdrawExecutionContext,
};
use logos_blockchain::mantle::ops::OpId;
use logos_blockchain::mantle::primitives::{
    ChannelId, Ed25519PublicKey, Epoch, Note, NoteId, Slot, Utxo, Value, ZkPublicKey,
};
use logos_blockchain::sdp::LockedNotes;
use rand::RngCore;

fn note_id(utxo: &Utxo) -> NoteId {
    let mut hasher = Blake2b::<U32>::new();
    hasher.update(utxo.op_id);
    hasher.update((utxo.output_index as u64).to_le_bytes());
    hasher.update(utxo.note.value.to_le_bytes());
    hasher.update(utxo.note.pk);
    hasher.finalize().into()
}

fn test_public_key(seed: u8) -> Ed25519PublicKey {
    SigningKey::from_bytes(&[seed; 32]).verifying_key().to_bytes()
}

fn test_public_zk_key(seed: u8) -> ZkPublicKey {
    let mut key = [0u8; 32];
    key[0] = seed;
    key[31] = 7;
    key
}

fn keys(n: u8) -> Keys {
    Keys::try_from((0..n).map(test_public_key).collect::<Vec<_>>()).unwrap()
}

fn zk_keys(keys: Vec<ZkPublicKey>) -> ZkKeys {
    ZkKeys::try_from(keys).unwrap()
}

fn make_channel(
    tip_slot: u64,
    tip_sequencer: u16,
    tip_sequencer_starting_slot: u64,
    posting_timeframe: u32,
    posting_timeout: u32,
    num_keys: u8,
) -> ChannelState {
    ChannelState {
        tip_slot: Slot::new(tip_slot),
        tip_sequencer,
        tip_sequencer_starting_slot: Slot::new(tip_sequencer_starting_slot),
        posting_timeframe: SlotTimeframe(posting_timeframe),
        posting_timeout: SlotTimeout(posting_timeout),
        floating_balance: 0,
        solvency: 0,
        frozen_note_map: FrozenNoteMap::new(),
        sequencers_zk_pks: zk_keys((0..num_keys).map(test_public_zk_key).collect()),
        withdrawal_nonce: 0,
        accredited_keys: keys(num_keys),
        configuration_threshold: 0,
        tip_message: [0; 32],
        withdraw_threshold: 0,
    }
}

fn utxo(value: Value) -> Utxo {
    let mut op_id = [0u8; 32];
    rand::thread_rng().fill_bytes(&mut op_id);
    Utxo { op_id, output_index: 0, note: Note::new(value, [0; 32]) }
}

fn utxo_tree(utxos: Vec<Utxo>) -> Utxos {
    let mut utxo_tree = Utxos::new();
    for utxo in utxos {
        utxo_tree = utxo_tree.insert(note_id(&utxo), utxo);
    }
    utxo_tree
}

fn state(
    accredited_keys: Keys,
    sequencers_zk_pks: ZkKeys,
    floating_balance: Value,
) -> ChannelState {
    ChannelState {
        accredited_keys,
        configuration_threshold: 1,
        tip_message: [0; 32],
        tip_slot: Slot(0),
        tip_sequencer: 0,
        tip_sequencer_starting_slot: Slot(0),
        posting_timeframe: 0u32.into(),
        withdraw_threshold: DEFAULT_WITHDRAW_THRESHOLD,
        withdrawal_nonce: 0,
        posting_timeout: 0u32.into(),
        floating_balance,
        solvency: floating_balance,
        frozen_note_map: FrozenNoteMap::new(),
        sequencers_zk_pks,
    }
}

fn with_balance(channel_id: ChannelId, balance: Value) -> Channels {
    Channels {
        channels: ChannelMap::new().insert(
            channel_id,
            state(
                Keys::try_from(vec![test_public_key(7)]).unwrap(),
                zk_keys(vec![test_public_zk_key(7)]),
                balance,
            ),
        ),
        mint_eligible_channels: vec![],
        frozen_notes: FrozenNotes::new(),
    }
}

#[test]
fn deposit_increases_channel_balance() {
    let channel_id: ChannelId = [0u8; 32];
    let channels = with_balance(channel_id, 10);
    let utxo = utxo(6u64);
    let deposit_op = DepositOp {
        channel_id,
        inputs: Inputs::new(vec![note_id(&utxo)]).unwrap(),
        metadata: Metadata::new(vec![]).unwrap(),
    };
    let utxo_tree = utxo_tree(vec![utxo]);

    let (updated, events) = deposit_op
        .execute(DepositExecutionContext {
            channels,
            locked_notes: LockedNotes::new(),
            utxos: utxo_tree,
            tx_hash: [0; 32],
        })
        .expect("execution should succeed");

    assert_eq!(updated.channels.channel_state(&channel_id).unwrap().solvency, 16);

    assert_eq!(events.len(), 1);
    let Event::Tx { tx_hash, op_id, payload } = &events[0];
    assert_eq!(*tx_hash, [0; 32]);
    assert_eq!(*op_id, deposit_op.op_id());
    let EventPayload::Deposit { channel_id, amount, metadata } = payload;
    assert_eq!(*channel_id, deposit_op.channel_id);
    assert_eq!(*amount, utxo.note.value);
    assert_eq!(*metadata, deposit_op.metadata);
}

#[test]
fn withdraw_decreases_channel_balance() {
    let channel_id: ChannelId = [0u8; 32];
    let channels = with_balance(channel_id, 10);
    let utxo = utxo(6u64);
    let withdraw_op = ChannelWithdrawOp {
        channel_id,
        outputs: Outputs::new(vec![Note { value: 6, pk: [0; 32] }]).unwrap(),
        withdraw_nonce: 0,
    };
    let utxo_tree = utxo_tree(vec![utxo]);

    let (updated, events) = withdraw_op
        .execute(
            WithdrawExecutionContext { channels, utxos: utxo_tree, current_epoch: 0.into() },
            note_id,
        )
        .expect("execution should succeed");

    assert_eq!(updated.channels.channel_state(&channel_id).unwrap().solvency, 4);
    assert!(events.is_empty());
    // The output is on the ledger, under the operation's identifier.
    let created = Utxo::new(withdraw_op.op_id(), 0, Note { value: 6, pk: [0; 32] });
    assert_eq!(updated.utxos.get(&note_id(&created)), Some(created));
}

#[test]
fn withdraw_fails_with_insufficient_funds() {
    let channel_id: ChannelId = [0u8; 32];
    let channels = with_balance(channel_id, 3);
    let utxo = utxo(6u64);
    let withdraw_op = ChannelWithdrawOp {
        channel_id,
        outputs: Outputs::new(vec![Note { value: 6, pk: [0; 32] }]).unwrap(),
        withdraw_nonce: 0,
    };
    let utxo_tree = utxo_tree(vec![utxo]);

    let result = withdraw_op.execute(
        WithdrawExecutionContext { channels, utxos: utxo_tree, current_epoch: 0.into() },
        note_id,
    );

    assert!(matches!(result, Err(Error::InsufficientFunds)));
}

#[test]
fn withdraw_fails_for_missing_channel() {
    let channel_id: ChannelId = [0u8; 32];
    let channels = Channels::new();
    let utxo = utxo(6u64);
    let withdraw_op = ChannelWithdrawOp {
        channel_id,
        outputs: Outputs::new(vec![Note { value: 6, pk: [0; 32] }]).unwrap(),
        withdraw_nonce: 0,
    };
    let utxo_tree = utxo_tree(vec![utxo]);

    let result = withdraw_op.execute(
        WithdrawExecutionContext { channels, utxos: utxo_tree, current_epoch: 0.into() },
        note_id,
    );

    assert!(matches!(result, Err(Error::ChannelNotFound { .. })));
}

// A sequencer without a timeframe holds its turn unless it times out.

#[test]
fn infinite_timeframe_no_timeout_stays_forever() {
    let channel = make_channel(100, 2, 80, 0, 0, 5);
    assert_eq!(channel.round_robin(100.into()), (2, 80.into()));
    assert_eq!(channel.round_robin(999_999.into()), (2, 80.into()));
}

#[test]
fn infinite_timeframe_not_yet_timed_out() {
    let channel = make_channel(100, 1, 90, 0, 50, 4);
    assert_eq!(channel.round_robin(130.into()), (1, 90.into()));
}

#[test]
fn infinite_timeframe_timed_out() {
    let channel = make_channel(100, 1, 90, 0, 50, 4);
    assert_eq!(channel.round_robin(150.into()), (2, 150.into()));
}

#[test]
fn infinite_timeframe_multiple_timeouts() {
    let channel = make_channel(100, 1, 90, 0, 50, 4);
    assert_eq!(channel.round_robin(220.into()), (3, 200.into()));
}

// Turns by timeframe, without a timeout.

#[test]
fn timeframe_rotation_same_slot_no_advance() {
    let channel = make_channel(100, 0, 100, 10, 0, 3);
    assert_eq!(channel.round_robin(100.into()), (0, 100.into()));
}

#[test]
fn timeframe_rotation_within_first_frame() {
    let channel = make_channel(100, 0, 100, 10, 0, 3);
    assert_eq!(channel.round_robin(105.into()), (0, 100.into()));
}

#[test]
fn timeframe_rotation_exact_boundary() {
    let channel = make_channel(100, 0, 100, 10, 0, 3);
    assert_eq!(channel.round_robin(110.into()), (1, 110.into()));
}

#[test]
fn timeframe_rotation_multiple_frames() {
    let channel = make_channel(100, 0, 100, 10, 0, 4);
    assert_eq!(channel.round_robin(125.into()), (2, 120.into()));
}

#[test]
fn timeframe_rotation_wraps_around() {
    let channel = make_channel(100, 2, 100, 10, 0, 3);
    assert_eq!(channel.round_robin(110.into()), (0, 110.into()));
}

#[test]
fn timeframe_rotation_full_cycle() {
    // 3 keys, 3 rotations => back to the same sequencer
    let channel = make_channel(100, 1, 100, 10, 0, 3);
    assert_eq!(channel.round_robin(130.into()), (1, 130.into()));
}

#[test]
fn timeframe_rotation_starting_slot_offset() {
    let channel = make_channel(100, 0, 95, 10, 0, 3);
    assert_eq!(channel.round_robin(105.into()), (1, 105.into()));
}

// Sequencers that time out.

#[test]
fn timeout_exact_boundary() {
    let channel = make_channel(100, 0, 100, 10, 20, 4);
    assert_eq!(channel.round_robin(120.into()), (1, 120.into()));
}

#[test]
fn timeout_skips_multiple_unresponsive_sequencers() {
    let channel = make_channel(100, 0, 100, 5, 10, 4);
    assert_eq!(channel.round_robin(135.into()), (3, 130.into()));
}

#[test]
fn timeout_wraps_past_end_of_key_list() {
    let channel = make_channel(100, 2, 100, 5, 10, 3);
    assert_eq!(channel.round_robin(120.into()), (1, 120.into()));
}

#[test]
fn timeout_wraps_full_cycle() {
    let channel = make_channel(100, 0, 100, 5, 10, 3);
    assert_eq!(channel.round_robin(130.into()), (0, 130.into()));
}

#[test]
fn no_timeout_rotates_by_timeframe_even_after_long_absence() {
    let channel = make_channel(100, 0, 100, 10, 0, 3);
    assert_eq!(channel.round_robin(1100.into()), (1, 1100.into()));
}

#[test]
fn just_below_timeout_uses_timeframe_branch() {
    let channel = make_channel(100, 0, 100, 10, 20, 4);
    assert_eq!(channel.round_robin(119.into()), (1, 110.into()));
}

#[test]
fn single_key_always_index_zero() {
    let channel = make_channel(100, 0, 100, 10, 20, 1);
    assert_eq!(channel.round_robin(100.into()).0, 0);
    assert_eq!(channel.round_robin(115.into()).0, 0);
    assert_eq!(channel.round_robin(130.into()).0, 0);
}

#[test]
fn two_sequencers_alternate() {
    let channel = make_channel(100, 0, 100, 5, 0, 2);
    assert_eq!(channel.round_robin(100.into()).0, 0);
    assert_eq!(channel.round_robin(104.into()).0, 0);
    assert_eq!(channel.round_robin(105.into()).0, 1);
    assert_eq!(channel.round_robin(109.into()).0, 1);
    assert_eq!(channel.round_robin(110.into()).0, 0);
}

#[test]
fn fifty_sequencers_rotate_and_wrap() {
    let channel = make_channel(0, 0, 0, 5, 0, 50);

    // After 5 slots => sequencer 1
    assert_eq!(channel.round_robin(5.into()).0, 1);
    // After 5*49 = 245 slots => sequencer 49 (last)
    assert_eq!(channel.round_robin(245.into()).0, 49);
    // After 5*50 = 250 slots => wrap back to 0
    assert_eq!(channel.round_robin(250.into()).0, 0);
    // After 5*73 = 365 slots => (0+73)%50 = 23
    assert_eq!(channel.round_robin(365.into()).0, 23);
}

#[test]
fn fifty_sequencers_cascading_timeouts() {
    let channel = make_channel(1000, 10, 1000, 5, 3, 50);
    assert_eq!(channel.round_robin(1090.into()), (40, 1090.into()));
}

#[test]
fn after_timeout_new_sequencer_gets_fresh_starting_slot() {
    let channel = make_channel(110, 1, 110, 15, 10, 3);
    assert_eq!(channel.round_robin(125.into()), (2, 120.into()));
    assert_eq!(channel.round_robin(135.into()), (0, 130.into()));
}

#[test]
fn zero_elapsed_no_change() {
    let channel = make_channel(100, 3, 95, 10, 20, 5);
    assert_eq!(channel.round_robin(100.into()), (3, 95.into()));
}

// Minting.

fn channels_with_mint_candidates(
    channel_id: ChannelId,
    floating_balance: Value,
    zk_pks: Vec<ZkPublicKey>,
) -> Channels {
    let mut channels = Channels::new();
    let n = zk_pks.len() as u8;
    channels.channels = channels
        .channels
        .insert(channel_id, state(keys(n), zk_keys(zk_pks), floating_balance));
    channels.mint_eligible_channels.push(channel_id);
    channels
}

#[test]
fn mints_one_note_per_sequencer() {
    let channel_id: ChannelId = [0u8; 32];
    let pk0 = test_public_zk_key(0);
    let pk1 = test_public_zk_key(1);
    let epoch: Epoch = 3.into();

    let channels = channels_with_mint_candidates(channel_id, 13, vec![pk0, pk1]);

    let (updated, utxos) = channels.mint_frozen_notes(epoch, note_id).unwrap();

    assert_eq!(utxos.len(), 2);
    // floor(13 / 2) = 6
    assert!(utxos.iter().all(|u| u.note.value == 6));

    // Floating balance reduced by note_value * n_sequencers = 12
    assert_eq!(updated.channel_state(&channel_id).unwrap().floating_balance, 1);

    // frozen_note_map has one entry per sequencer for this epoch
    let state = updated.channel_state(&channel_id).unwrap();
    assert!(state.frozen_note_map.contains_key(&(epoch.0, pk0)));
    assert!(state.frozen_note_map.contains_key(&(epoch.0, pk1)));

    for utxo in &utxos {
        assert!(updated.frozen_notes.contains(&note_id(utxo)));
    }

    // mint_eligible_channels cleared
    assert!(updated.mint_eligible_channels.is_empty());
}

#[test]
fn minted_notes_name_the_channel_and_the_epoch() {
    let channel_id: ChannelId = [9u8; 32];
    let pk = test_public_zk_key(4);
    let channels = channels_with_mint_candidates(channel_id, 5, vec![pk]);
    let (_, utxos) = channels.mint_frozen_notes(Epoch(0x0102_0304), note_id).unwrap();
    let mut hasher = Blake2b::<U32>::new();
    hasher.update(b"CHANNEL_BRIDGE_NOTES");
    hasher.update([9u8; 32]);
    hasher.update([4u8, 3, 2, 1]);
    let op_id: [u8; 32] = hasher.finalize().into();
    assert_eq!(utxos, vec![Utxo { op_id, output_index: 0, note: Note { value: 5, pk } }]);
}

#[test]
fn skips_channel_with_no_sequencers() {
    let channel_id: ChannelId = [0u8; 32];
    let mut channels = Channels::new();
    channels.channels =
        channels.channels.insert(channel_id, state(keys(1), zk_keys(vec![]), 100));
    channels.mint_eligible_channels.push(channel_id);

    let (updated, utxos) = channels.mint_frozen_notes(1.into(), note_id).unwrap();

    assert!(utxos.is_empty());
    assert_eq!(updated.channel_state(&channel_id).unwrap().floating_balance, 100);
    assert!(updated.mint_eligible_channels.is_empty());
}

#[test]
fn skips_when_balance_smaller_than_sequencer_count() {
    let channel_id: ChannelId = [0u8; 32];
    let channels = channels_with_mint_candidates(
        channel_id,
        1,
        vec![test_public_zk_key(0), test_public_zk_key(1)],
    );

    let (updated, utxos) = channels.mint_frozen_notes(1.into(), note_id).unwrap();

    assert!(utxos.is_empty());
    assert_eq!(updated.channel_state(&channel_id).unwrap().floating_balance, 1);
    assert_eq!(updated.channel_state(&channel_id).unwrap().frozen_note_map.size(), 0);
    assert!(updated.mint_eligible_channels.is_empty());
}

#[test]
fn map_entries_match_returned_utxo_ids() {
    let channel_id: ChannelId = [0u8; 32];
    let pk0 = test_public_zk_key(0);
    let pk1 = test_public_zk_key(1);
    let epoch: Epoch = 5.into();

    let channels = channels_with_mint_candidates(channel_id, 10, vec![pk0, pk1]);
    let (updated, utxos) = channels.mint_frozen_notes(epoch, note_id).unwrap();

    let state = updated.channel_state(&channel_id).unwrap();

    // The note_id stored in frozen_note_map for each (epoch, pk) must exactly
    // match the id of the corresponding returned utxo.
    for utxo in &utxos {
        let pk = utxo.note.pk;
        let stored_note_id = state
            .frozen_note_map
            .get(&(epoch.0, pk))
            .expect("entry must be present for every sequencer pk");
        assert_eq!(stored_note_id, note_id(utxo));
    }
}

#[test]
fn all_minted_notes_are_in_frozen_set() {
    let channel_id: ChannelId = [0u8; 32];
    let pks = vec![test_public_zk_key(0), test_public_zk_key(1), test_public_zk_key(2)];
    let channels = channels_with_mint_candidates(channel_id, 9, pks);
    let (updated, utxos) = channels.mint_frozen_notes(2.into(), note_id).unwrap();

    assert_eq!(utxos.len(), 3);
    for utxo in &utxos {
        assert!(updated.frozen_notes.contains(&note_id(utxo)));
    }
}

#[test]
fn mint_eligible_channels_cleared_even_when_nothing_minted() {
    let channel_id: ChannelId = [0u8; 32];
    let channels = channels_with_mint_candidates(channel_id, 0, vec![test_public_zk_key(0)]);

    assert_eq!(channels.mint_eligible_channels.len(), 1);

    let (updated, utxos) = channels.mint_frozen_notes(1.into(), note_id).unwrap();

    assert!(utxos.is_empty());
    assert!(updated.mint_eligible_channels.is_empty());
}

#[test]
fn silently_skips_missing_channel() {
    let present_id: ChannelId = [0u8; 32];
    let ghost_id: ChannelId = [1u8; 32];

    let mut channels = channels_with_mint_candidates(present_id, 10, vec![test_public_zk_key(0)]);
    // ghost_id is in mint_eligible_channels but has no entry in channels map
    channels.mint_eligible_channels.push(ghost_id);

    let (updated, utxos) = channels.mint_frozen_notes(1.into(), note_id).unwrap();

    // Only the present channel minted one note
    assert_eq!(utxos.len(), 1);
    assert!(updated.channel_state(&present_id).is_some());
    // ghost channel was skipped without error
    assert!(updated.channel_state(&ghost_id).is_none());
    assert!(updated.mint_eligible_channels.is_empty());
}

#[test]
fn processes_all_eligible_channels() {
    let id_a: ChannelId = [0u8; 32];
    let id_b: ChannelId = [1u8; 32];
    let epoch: Epoch = 1.into();

    let mut channels = channels_with_mint_candidates(
        id_a,
        6,
        vec![test_public_zk_key(0), test_public_zk_key(1)],
    );

    channels.channels = channels.channels.insert(
        id_b,
        state(
            Keys::try_from(vec![test_public_key(2)]).unwrap(),
            zk_keys(vec![test_public_zk_key(2)]),
            9,
        ),
    );
    channels.mint_eligible_channels.push(id_b);

    let (updated, utxos) = channels.mint_frozen_notes(epoch, note_id).unwrap();

    // Channel A: 2 sequencers, balance 6 → 2 notes of value 3
    let state_a = updated.channel_state(&id_a).unwrap();
    assert_eq!(state_a.floating_balance, 0);
    assert_eq!(state_a.frozen_note_map.size(), 2);

    // Channel B: 1 sequencer, balance 9 → 1 note of value 9
    let state_b = updated.channel_state(&id_b).unwrap();
    assert_eq!(state_b.floating_balance, 0);
    assert_eq!(state_b.frozen_note_map.size(), 1);

    assert_eq!(utxos.len(), 3);
    assert!(updated.mint_eligible_channels.is_empty());
}

#[test]
fn note_ids_are_deterministic() {
    let channel_id: ChannelId = [0u8; 32];
    let epoch: Epoch = 1.into();
    let channels = channels_with_mint_candidates(
        channel_id,
        10,
        vec![test_public_zk_key(0), test_public_zk_key(1)],
    );

    let (_, utxos_first) = channels.mint_frozen_notes(epoch, note_id).unwrap();
    let (_, utxos_second) = channels.mint_frozen_notes(epoch, note_id).unwrap();

    assert_eq!(utxos_first.len(), utxos_second.len());
    for (a, b) in utxos_first.iter().zip(utxos_second.iter()) {
        assert_eq!(note_id(a), note_id(b));
    }
}

#[test]
fn frozen_notes_are_present_in_utxo_tree_after_insertion() {
    let channel_id: ChannelId = [0u8; 32];
    let pks = vec![test_public_zk_key(0), test_public_zk_key(1)];
    let channels = channels_with_mint_candidates(channel_id, 10, pks);

    let (_, minted_utxos) = channels.mint_frozen_notes(1.into(), note_id).unwrap();

    // Insert minted UTXOs into a UTXO tree
    let mut tree = Utxos::new();
    for utxo in &minted_utxos {
        tree = tree.insert(note_id(utxo), *utxo);
    }

    for utxo in &minted_utxos {
        let note_id = note_id(utxo);
        assert!(tree.contains_key(&note_id), "note {note_id:?} must be in the UTxO tree");
    }
}

#[test]
fn a_channel_that_is_marked_twice_mints_once() {
    let channel_id: ChannelId = [3u8; 32];
    let mut channels = channels_with_mint_candidates(
        channel_id,
        7,
        vec![test_public_zk_key(0), test_public_zk_key(1)],
    );
    channels.mint_eligible_channels.push(channel_id);
    let (updated, utxos) = channels.mint_frozen_notes(4.into(), note_id).unwrap();
    assert_eq!(utxos.len(), 2);
    assert_eq!(updated.channel_state(&channel_id).unwrap().floating_balance, 1);
    assert_eq!(updated.channel_state(&channel_id).unwrap().solvency, 7);
}

#[test]
fn last_mint_epoch_is_the_latest_one() {
    let channel_id: ChannelId = [0u8; 32];
    let pk = test_public_zk_key(0);
    let mut state = state(keys(1), zk_keys(vec![pk]), 0);
    assert_eq!(state.last_mint_epoch(), None);
    state.frozen_note_map = state
        .frozen_note_map
        .insert((4, pk), [1; 32])
        .insert((9, pk), [2; 32])
        .insert((7, pk), [3; 32]);
    assert_eq!(state.last_mint_epoch(), Some(Epoch(9)));
    let channels = Channels {
        channels: ChannelMap::new().insert(channel_id, state.clone()),
        mint_eligible_channels: vec![],
        frozen_notes: FrozenNotes::new(),
    };
    assert_eq!(channels.channel_state(&channel_id), Some(&state));
    assert!(channels.channels.contains_key(&channel_id));
    assert!(!channels.channels.contains_key(&[8; 32]));
    assert_eq!(channels.clone(), channels);
    assert!(!channels.frozen_notes().contains(&[1; 32]));
}

#[test]
fn genesis_inscription_runs_on_no_channels() {
    let execute = |op: &u8, mut ctx: InscriptionExecutionContext| {
        assert_eq!(ctx.channels, Channels::default());
        assert_eq!(ctx.block_slot, Slot(0));
        if *op == 0 {
            return Err(Error::InvalidSignature);
        }
        ctx.channels.mint_eligible_channels.push([*op; 32]);
        let events: Events = vec![];
        Ok((ctx, events))
    };
    assert_eq!(Channels::from_genesis(&0u8, execute), Err(Error::InvalidSignature));
    let (channels, events) = Channels::from_genesis(&5u8, execute).unwrap();
    assert_eq!(channels.mint_eligible_channels, vec![[5; 32]]);
    assert!(events.is_empty());
}

#[test]
fn slot_lengths_are_four_bytes_lowest_first() {
    let timeframe = SlotTimeframe::from(0x0403_0201u32);
    assert_eq!(timeframe.encode(), vec![1, 2, 3, 4]);
    assert_eq!(SlotTimeframe::decode(&[1, 2, 3, 4, 9]).unwrap(), (&[9u8][..], timeframe));
    assert!(SlotTimeframe::decode(&[1, 2, 3]).is_err());
    let timeout = SlotTimeout::from(258u32);
    assert_eq!(timeout.encode(), vec![2, 1, 0, 0]);
    assert_eq!(SlotTimeout::decode(&[2, 1, 0, 0]).unwrap(), (&[][..], timeout));
    assert!(SlotTimeout::decode(&[]).is_err());
    assert_eq!(u32::from(timeframe), 0x0403_0201);
    assert_eq!(u32::from(timeout), 258);
}

#[test]
fn frozen_note_is_handed_back_when_unfrozen() {
    let note = Note::new(12, test_public_zk_key(1));
    let mut frozen = FrozenNotes::new().freeze(note, &[4; 32]).unwrap();
    assert_eq!(frozen.get(&[4; 32]), Some(&note));
    assert_eq!(frozen.get(&[5; 32]), None);
    assert_eq!(
        frozen.unfreeze(&[5; 32]),
        Err(logos_blockchain::mantle::frozen_notes::Error::NoteNotFrozen([5; 32]))
    );
    assert_eq!(frozen.unfreeze(&[4; 32]), Ok(note));
    assert_eq!(frozen, FrozenNotes::default());
}
