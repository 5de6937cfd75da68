//! Configurations of channels.

use blake2::digest::consts::U32;
use blake2::{Blake2b, Digest};
use ed25519_dalek::{Signature, Signer, SigningKey, Verifier, VerifyingKey};
use logos_blockchain::mantle::channel::{
    ChannelState, Channels, Error, SlotTimeframe, SlotTimeout,
};
use logos_blockchain::mantle::frozen_notes;
use logos_blockchain::mantle::ledger::{InputsError, Utxos};
use logos_blockchain::mantle::maps::FrozenNoteMap;
use logos_blockchain::mantle::multisig::{
    ChannelMultiSigProof, DuplicateKeyIndex, IndexedSignature,
};
use logos_blockchain::mantle::ops::channel::config::{
    ChannelConfigExecutionContext, ChannelConfigOp, ChannelConfigValidationContext, Keys,
    KeysError, ZkKeys, CHANNEL_MAX_KEYS,
};
use logos_blockchain::mantle::primitives::{
    ChannelId, Ed25519PublicKey, Ed25519Signature, Epoch, Note, NoteId, Slot, TxHash, Utxo,
    ZkPublicKey,
};

fn note_id(utxo: &Utxo) -> NoteId {
    let mut hasher = Blake2b::<U32>::new();
    hasher.update(utxo.op_id);
    hasher.update((utxo.output_index as u64).to_le_bytes());
    hasher.update(utxo.note.value.to_le_bytes());
    hasher.update(utxo.note.pk);
    hasher.finalize().into()
}

fn dummy_tx_hash() -> TxHash {
    [0u8; 32]
}

fn empty_proof() -> ChannelMultiSigProof {
    ChannelMultiSigProof::new(vec![]).unwrap()
}

fn zk_pk(seed: u8) -> ZkPublicKey {
    let mut key = [0u8; 32];
    key[0] = seed;
    key[31] = 7;
    key
}

fn ed_pk(seed: u8) -> Ed25519PublicKey {
    SigningKey::from_bytes(&[seed; 32]).verifying_key().to_bytes()
}

fn verify(key: &Ed25519PublicKey, hash: &TxHash, signature: &Ed25519Signature) -> bool {
    VerifyingKey::from_bytes(key)
        .is_ok_and(|key| key.verify(hash, &Signature::from_bytes(&signature.0)).is_ok())
}

fn sign(seed: u8, index: u16, hash: &TxHash) -> IndexedSignature {
    let signature = SigningKey::from_bytes(&[seed; 32]).sign(hash);
    IndexedSignature {
        channel_key_index: index,
        signature: Ed25519Signature(signature.to_bytes()),
    }
}

/// Builds a UTXO tree containing the given UTXOs, keyed by their id.
fn utxo_tree(utxos: Vec<Utxo>) -> Utxos {
    let mut tree = Utxos::new();
    for utxo in utxos {
        tree = tree.insert(note_id(&utxo), utxo);
    }
    tree
}

/// Wraps a single channel state into a fresh `Channels`.
fn channels_with(channel_id: ChannelId, state: ChannelState) -> Channels {
    let mut channels = Channels::new();
    channels.channels = channels.channels.insert(channel_id, state);
    channels
}

/// Constructs a [`ChannelState`] with `1` thresholds and no posting
/// timeframe/timeout. `frozen_notes` lists the `(epoch, pk, note_id)`
/// entries to register in the channel's frozen-note map.
fn channel_state(
    accredited_keys: Vec<Ed25519PublicKey>,
    sequencers: Vec<ZkPublicKey>,
    floating_balance: u64,
    solvency: u64,
    frozen_notes: Vec<(Epoch, ZkPublicKey, NoteId)>,
) -> ChannelState {
    let mut frozen_note_map = FrozenNoteMap::new();
    for (epoch, pk, note_id) in frozen_notes {
        frozen_note_map = frozen_note_map.insert((epoch.0, pk), note_id);
    }
    ChannelState {
        accredited_keys: Keys::try_from(accredited_keys).unwrap(),
        configuration_threshold: 1,
        tip_message: [0; 32],
        tip_slot: Slot(0),
        tip_sequencer: 0,
        tip_sequencer_starting_slot: Slot(0),
        posting_timeframe: 0.into(),
        posting_timeout: 0.into(),
        withdraw_threshold: 1,
        withdrawal_nonce: 0,
        floating_balance,
        solvency,
        frozen_note_map,
        sequencers_zk_pks: ZkKeys::try_from(sequencers).unwrap(),
    }
}

/// Constructs a [`ChannelConfigOp`] with `1` thresholds and zero posting
/// timeframe/timeout.
fn config_op(
    channel: ChannelId,
    keys: Vec<Ed25519PublicKey>,
    sequencers: Vec<ZkPublicKey>,
) -> ChannelConfigOp {
    ChannelConfigOp {
        channel,
        keys: Keys::try_from(keys).unwrap(),
        posting_timeframe: 0.into(),
        posting_timeout: 0.into(),
        configuration_threshold: 1,
        withdraw_threshold: 1,
        sequencer_zk_pks: ZkKeys::try_from(sequencers).unwrap(),
    }
}

#[test]
fn config_rejected_when_key_count_differs_from_zk_pk_count() {
    let channel_id: ChannelId = [0u8; 32];
    let channels = Channels::new();
    let tx_hash = dummy_tx_hash();
    let proof = empty_proof();

    // 2 ed keys but only 1 zk key → mismatch
    let op = config_op(channel_id, vec![ed_pk(0), ed_pk(1)], vec![zk_pk(0)]);

    let ctx = ChannelConfigValidationContext {
        channels: &channels,
        tx_hash: &tx_hash,
        config_sigs: &proof,
    };

    assert_eq!(op.validate(&ctx, verify), Err(Error::InvalidChannelConfig));
}

#[test]
fn config_unfreezes_removed_sequencer_frozen_notes() {
    let channel_id: ChannelId = [0u8; 32];
    let pk_keep = zk_pk(0);
    let pk_remove = zk_pk(1);
    let epoch: Epoch = 1.into();
    let note_value: u64 = 10;

    // Build the frozen note for the sequencer being removed
    let note = Note::new(note_value, pk_remove);
    let utxo = Utxo::new([1u8; 32], 0, note);
    let note_id = note_id(&utxo);

    // Insert note into UTXO tree
    let utxos = utxo_tree(vec![utxo]);

    // Build channel state with both sequencers and the frozen note
    let mut channels = channels_with(
        channel_id,
        channel_state(
            vec![ed_pk(0), ed_pk(1)],
            vec![pk_keep, pk_remove],
            5,
            15,
            vec![(epoch, pk_remove, note_id)],
        ),
    );
    channels.frozen_notes = channels.frozen_notes.freeze(note, &note_id).unwrap();

    // Config op that drops pk_remove and keeps only pk_keep
    let op = config_op(channel_id, vec![ed_pk(0)], vec![pk_keep]);

    let (result, events) = op
        .execute(ChannelConfigExecutionContext { channels, block_slot: Slot(0), utxos })
        .unwrap();

    let state = result.channels.channel_state(&channel_id).unwrap();

    // Frozen note value returned to floating balance
    assert_eq!(state.floating_balance, 5 + note_value);
    // Removed sequencer's entry cleared from the map
    assert!(state.frozen_note_map.get(&(epoch.0, pk_remove)).is_none());
    // Note removed from global frozen set
    assert!(!result.channels.frozen_notes.contains(&note_id));
    // ... and from the ledger, with the solvency as before.
    assert!(!result.utxos.contains_key(&note_id));
    assert_eq!(state.solvency, 15);
    assert!(events.is_empty());
}

#[test]
fn config_keeps_frozen_notes_when_sequencer_set_unchanged() {
    let channel_id: ChannelId = [0u8; 32];
    let pk = zk_pk(0);
    let epoch: Epoch = 1.into();
    let note_value: u64 = 10;

    let note = Note::new(note_value, pk);
    let utxo = Utxo::new([1u8; 32], 0, note);
    let note_id = note_id(&utxo);

    let utxos = utxo_tree(vec![utxo]);

    let mut channels = channels_with(
        channel_id,
        channel_state(vec![ed_pk(0)], vec![pk], 5, 15, vec![(epoch, pk, note_id)]),
    );
    channels.frozen_notes = channels.frozen_notes.freeze(note, &note_id).unwrap();

    // Config op keeps the same sequencer pk
    let op = config_op(channel_id, vec![ed_pk(0)], vec![pk]);

    let (result, _) = op
        .execute(ChannelConfigExecutionContext { channels, block_slot: Slot(0), utxos })
        .unwrap();

    let state = result.channels.channel_state(&channel_id).unwrap();

    // Floating balance unchanged
    assert_eq!(state.floating_balance, 5);
    // Frozen note map entry preserved
    assert_eq!(state.frozen_note_map.get(&(epoch.0, pk)), Some(note_id));
    // Frozen note still tracked
    assert!(result.channels.frozen_notes.contains(&note_id));
}

#[test]
fn config_marks_channel_mint_eligible_when_sequencers_added_with_sufficient_balance() {
    let channel_id: ChannelId = [0u8; 32];

    // Channel exists with floating balance but no sequencers yet
    let channels = channels_with(
        channel_id,
        channel_state(vec![ed_pk(0)], vec![], 10, 10, vec![]),
    );

    // Config op introduces 2 sequencers — balance 10 > 2
    let op = config_op(channel_id, vec![ed_pk(0), ed_pk(1)], vec![zk_pk(0), zk_pk(1)]);

    let (result, _) = op
        .execute(ChannelConfigExecutionContext {
            channels,
            block_slot: Slot(0),
            utxos: Utxos::new(),
        })
        .unwrap();

    assert!(result.channels.mint_eligible_channels.contains(&channel_id));
}

#[test]
fn config_creates_a_channel_that_holds_nothing() {
    let channel_id: ChannelId = [6u8; 32];
    let mut op = config_op(channel_id, vec![ed_pk(0)], vec![zk_pk(0)]);
    op.posting_timeframe = SlotTimeframe(3);
    op.posting_timeout = SlotTimeout(4);
    let (result, _) = op
        .execute(ChannelConfigExecutionContext {
            channels: Channels::new(),
            block_slot: Slot(77),
            utxos: Utxos::new(),
        })
        .unwrap();
    let mut expected = channel_state(vec![ed_pk(0)], vec![zk_pk(0)], 0, 0, vec![]);
    expected.tip_message = op.id();
    expected.tip_slot = Slot(77);
    expected.tip_sequencer_starting_slot = Slot(77);
    expected.posting_timeframe = SlotTimeframe(3);
    expected.posting_timeout = SlotTimeout(4);
    assert_eq!(result.channels.channel_state(&channel_id), Some(&expected));
    assert!(result.channels.mint_eligible_channels.is_empty());
    assert_eq!(result.block_slot, Slot(77));
}

#[test]
fn config_marks_a_channel_at_most_once() {
    let channel_id: ChannelId = [0u8; 32];
    let mut channels =
        channels_with(channel_id, channel_state(vec![ed_pk(0)], vec![zk_pk(0)], 10, 10, vec![]));
    channels.mint_eligible_channels.push(channel_id);
    let op = config_op(channel_id, vec![ed_pk(0)], vec![zk_pk(0)]);
    let (result, _) = op
        .execute(ChannelConfigExecutionContext {
            channels,
            block_slot: Slot(0),
            utxos: Utxos::new(),
        })
        .unwrap();
    assert_eq!(result.channels.mint_eligible_channels, vec![channel_id]);
}

#[test]
fn config_fails_where_a_note_cannot_be_released() {
    let channel_id: ChannelId = [0u8; 32];
    let id: NoteId = [5; 32];
    let channels = || {
        channels_with(
            channel_id,
            channel_state(
                vec![ed_pk(0)],
                vec![zk_pk(0)],
                u64::MAX,
                u64::MAX,
                vec![(Epoch(1), zk_pk(0), id)],
            ),
        )
    };
    let op = config_op(channel_id, vec![ed_pk(0)], vec![zk_pk(1)]);

    let result = op.execute(ChannelConfigExecutionContext {
        channels: channels(),
        block_slot: Slot(0),
        utxos: Utxos::new(),
    });
    assert_eq!(
        result.err(),
        Some(Error::FrozenNotes(frozen_notes::Error::NoteNotFrozen(id)))
    );

    let note = Note::new(1, zk_pk(0));
    let mut frozen = channels();
    frozen.frozen_notes = frozen.frozen_notes.freeze(note, &id).unwrap();
    let result = op.execute(ChannelConfigExecutionContext {
        channels: frozen.clone(),
        block_slot: Slot(0),
        utxos: Utxos::new(),
    });
    assert_eq!(result.err(), Some(Error::Inputs(InputsError::InexistingNote(id))));

    let result = op.execute(ChannelConfigExecutionContext {
        channels: frozen,
        block_slot: Slot(0),
        utxos: Utxos::new().insert(id, Utxo::new([0; 32], 0, note)),
    });
    assert_eq!(result.err(), Some(Error::BalanceOverflow));
}

#[test]
fn config_releases_notes_of_all_epochs_of_dropped_sequencers() {
    let channel_id: ChannelId = [0u8; 32];
    let mut channels = channels_with(
        channel_id,
        channel_state(
            vec![ed_pk(0), ed_pk(1)],
            vec![zk_pk(0), zk_pk(1)],
            1,
            61,
            vec![
                (Epoch(1), zk_pk(0), [1; 32]),
                (Epoch(2), zk_pk(0), [2; 32]),
                (Epoch(2), zk_pk(1), [3; 32]),
            ],
        ),
    );
    let mut utxos = Utxos::new();
    for (id, value, pk) in [([1; 32], 10, 0), ([2; 32], 20, 0), ([3; 32], 30, 1)] {
        let note = Note::new(value, zk_pk(pk));
        channels.frozen_notes = channels.frozen_notes.freeze(note, &id).unwrap();
        utxos = utxos.insert(id, Utxo::new([0; 32], 0, note));
    }
    let op = config_op(channel_id, vec![ed_pk(1)], vec![zk_pk(1)]);
    let (result, _) = op
        .execute(ChannelConfigExecutionContext { channels, block_slot: Slot(9), utxos })
        .unwrap();
    let state = result.channels.channel_state(&channel_id).unwrap();
    assert_eq!(state.floating_balance, 31);
    assert_eq!(state.solvency, 61);
    assert_eq!(state.frozen_note_map.entries(), vec![((2, zk_pk(1)), [3; 32])]);
    assert_eq!(state.tip_slot, Slot(9));
    assert_eq!(state.tip_message, op.id());
    assert!(result.channels.frozen_notes.contains(&[3; 32]));
    assert!(!result.channels.frozen_notes.contains(&[2; 32]));
    assert!(!result.utxos.contains_key(&[1; 32]));
    assert!(result.utxos.contains_key(&[3; 32]));
}

#[test]
fn config_of_an_existing_channel_asks_for_signatures() {
    let channel_id: ChannelId = [0u8; 32];
    let mut state = channel_state(vec![ed_pk(0), ed_pk(1)], vec![zk_pk(0)], 0, 0, vec![]);
    state.configuration_threshold = 2;
    let channels = channels_with(channel_id, state);
    let tx_hash: TxHash = [42; 32];
    let op = config_op(channel_id, vec![ed_pk(0)], vec![zk_pk(0)]);
    let validate = |signatures: Vec<IndexedSignature>| {
        let proof = ChannelMultiSigProof::new(signatures).unwrap();
        op.validate(
            &ChannelConfigValidationContext {
                channels: &channels,
                tx_hash: &tx_hash,
                config_sigs: &proof,
            },
            verify,
        )
    };
    assert_eq!(validate(vec![sign(0, 0, &tx_hash), sign(1, 1, &tx_hash)]), Ok(()));
    assert_eq!(
        validate(vec![sign(0, 0, &tx_hash)]),
        Err(Error::ThresholdUnmet { channel_id, threshold: 2, actual: 1 })
    );
    assert_eq!(
        validate(vec![sign(0, 0, &tx_hash), sign(1, 5, &tx_hash)]),
        Err(Error::InvalidSignatureIndex { channel_id, sequencers: 2, index: 5 })
    );
    assert_eq!(
        validate(vec![sign(0, 0, &tx_hash), sign(0, 1, &tx_hash)]),
        Err(Error::InvalidSignature)
    );
    assert_eq!(
        validate(vec![sign(1, 0, &tx_hash), sign(1, 5, &tx_hash)]),
        Err(Error::InvalidSignature)
    );

    let absent = Channels::new();
    let proof = empty_proof();
    let ctx = ChannelConfigValidationContext {
        channels: &absent,
        tx_hash: &tx_hash,
        config_sigs: &proof,
    };
    assert_eq!(op.validate(&ctx, verify), Ok(()));
    let mut zero = config_op(channel_id, vec![ed_pk(0)], vec![zk_pk(0)]);
    zero.withdraw_threshold = 0;
    assert_eq!(zero.validate(&ctx, verify), Err(Error::InvalidChannelConfig));
    let mut zero = config_op(channel_id, vec![ed_pk(0)], vec![zk_pk(0)]);
    zero.configuration_threshold = 0;
    assert_eq!(zero.validate(&ctx, verify), Err(Error::InvalidChannelConfig));
}

#[test]
fn signatures_are_by_different_keys() {
    let hash = dummy_tx_hash();
    assert_eq!(
        ChannelMultiSigProof::new(vec![sign(0, 3, &hash), sign(1, 4, &hash), sign(2, 3, &hash)]),
        Err(DuplicateKeyIndex(3))
    );
    let proof = ChannelMultiSigProof::new(vec![sign(0, 3, &hash), sign(1, 4, &hash)]).unwrap();
    assert_eq!(proof.signatures().len(), 2);
}

#[test]
fn keys_are_at_least_one_and_not_too_many() {
    assert_eq!(Keys::try_from(vec![]), Err(KeysError::Empty));
    assert_eq!(Keys::try_from(vec![[0; 32]; CHANNEL_MAX_KEYS + 1]), Err(KeysError::TooMany));
    let keys = Keys::try_from(vec![[0; 32]; CHANNEL_MAX_KEYS]).unwrap();
    assert_eq!(keys.len(), 65535);
    assert!(!keys.is_empty());
    let keys = Keys::try_from(vec![[1; 32], [2; 32]]).unwrap();
    assert_eq!(keys.get(1), Some(&[2; 32]));
    assert_eq!(keys.get(2), None);
    assert_eq!(keys.clone(), keys);
}

#[test]
fn config_is_read_back_from_its_bytes() {
    let mut op = config_op([3; 32], vec![ed_pk(1), ed_pk(2)], vec![zk_pk(50)]);
    op.posting_timeframe = SlotTimeframe(10);
    op.posting_timeout = SlotTimeout(0x1_0000);
    op.configuration_threshold = 2;
    op.withdraw_threshold = 0x0103;
    let mut expected = vec![3u8; 32];
    expected.extend([2, 0]);
    expected.extend(ed_pk(1));
    expected.extend(ed_pk(2));
    expected.extend([10, 0, 0, 0, 0, 0, 1, 0, 2, 0, 3, 1, 1, 0]);
    expected.extend(zk_pk(50));
    assert_eq!(op.encode(), expected);
    let id: [u8; 32] = Blake2b::<U32>::digest(&expected).into();
    assert_eq!(op.id(), id);

    let mut bytes = expected.clone();
    bytes.extend([8, 9]);
    let is_key = |key: &Ed25519PublicKey| VerifyingKey::from_bytes(key).is_ok();
    let any = |_: &ZkPublicKey| true;
    let (rest, read) = ChannelConfigOp::decode(&bytes, is_key, any).unwrap();
    assert_eq!(rest, &[8, 9]);
    assert_eq!(read, op);
    for len in 0..expected.len() {
        assert!(ChannelConfigOp::decode(&expected[..len], is_key, any).is_err());
    }
    assert!(ChannelConfigOp::decode(&expected, |_: &Ed25519PublicKey| false, any).is_err());
    let not_50 = |key: &ZkPublicKey| key[0] != 50;
    assert!(ChannelConfigOp::decode(&expected, is_key, not_50).is_err());

    let mut without_keys = vec![3u8; 32];
    without_keys.extend([0, 0]);
    without_keys.extend([0; 14]);
    assert!(ChannelConfigOp::decode(&without_keys, is_key, any).is_err());
}
