//! Withdrawals from channels.

use blake2::digest::consts::U32;
use blake2::{Blake2b, Digest};
use ed25519_dalek::{Signature, Signer, SigningKey, Verifier, VerifyingKey};
use logos_blockchain::mantle::channel::{ChannelMap, ChannelState, Channels, Error};
use logos_blockchain::mantle::frozen_notes;
use logos_blockchain::mantle::frozen_notes::FrozenNotes;
use logos_blockchain::mantle::ledger::{InputsError, Outputs, OutputsError, Utxos};
use logos_blockchain::mantle::maps::FrozenNoteMap;
use logos_blockchain::mantle::multisig::{ChannelMultiSigProof, IndexedSignature};
use logos_blockchain::mantle::ops::channel::config::{Keys, ZkKeys};
use logos_blockchain::mantle::ops::channel::withdraw::{
    ChannelWithdrawOp, WithdrawExecutionContext, WithdrawValidationContext,
};
use logos_blockchain::mantle::ops::OpId;
use logos_blockchain::mantle::primitives::{
    ChannelId, Ed25519PublicKey, Ed25519Signature, Epoch, Note, NoteId, Slot, TxHash, Utxo,
    ZkPublicKey,
};

fn note_id(utxo: &Utxo) -> NoteId {
    let mut hasher = Blake2b::<U32>::new();
    hasher.update(utxo.op_id);
    hasher.update((utxo.output_index as u64).to_le_bytes());
    hasher.update(utxo.note.value.to_le_bytes());
    hasher.update(utxo.note.pk);
    hasher.finalize().into()
}

fn ed_pk(seed: u8) -> Ed25519PublicKey {
    SigningKey::from_bytes(&[seed; 32]).verifying_key().to_bytes()
}

fn zk_pk(seed: u8) -> ZkPublicKey {
    let mut key = [0u8; 32];
    key[0] = seed;
    key[31] = 7;
    key
}

fn make_frozen_utxo(value: u64, pk: ZkPublicKey) -> Utxo {
    Utxo::new([1u8; 32], 0, Note::new(value, pk))
}

fn utxo_tree(utxos: Vec<Utxo>) -> Utxos {
    let mut tree = Utxos::new();
    for u in utxos {
        tree = tree.insert(note_id(&u), u);
    }
    tree
}

fn state(
    keys: Vec<Ed25519PublicKey>,
    zk_keys: Vec<ZkPublicKey>,
    floating_balance: u64,
    solvency: u64,
    frozen_note_map: FrozenNoteMap,
) -> ChannelState {
    ChannelState {
        accredited_keys: Keys::try_from(keys).unwrap(),
        configuration_threshold: 1,
        tip_message: [0; 32],
        tip_slot: Slot(0),
        tip_sequencer: 0,
        tip_sequencer_starting_slot: Slot(0),
        posting_timeframe: 0.into(),
        posting_timeout: 0.into(),
        withdraw_threshold: 1,
        withdrawal_nonce: 0,
        floating_balance,
        solvency,
        frozen_note_map,
        sequencers_zk_pks: ZkKeys::try_from(zk_keys).unwrap(),
    }
}

fn channel_with_frozen_note(
    channel_id: ChannelId,
    floating_balance: u64,
    frozen_value: u64,
    epoch: Epoch,
    pk: ZkPublicKey,
) -> (Channels, Utxo) {
    let frozen_utxo = make_frozen_utxo(frozen_value, pk);
    let note_id = note_id(&frozen_utxo);

    let mut channels = Channels::new();
    channels.frozen_notes =
        channels.frozen_notes.freeze(Note::new(frozen_value, pk), &note_id).unwrap();
    channels.channels = channels.channels.insert(
        channel_id,
        state(
            vec![ed_pk(0)],
            vec![pk],
            floating_balance,
            floating_balance + frozen_value,
            FrozenNoteMap::new().insert((epoch.0, pk), note_id),
        ),
    );
    (channels, frozen_utxo)
}

fn withdraw_op(channels: &Channels, channel_id: ChannelId, amount: u64) -> ChannelWithdrawOp {
    ChannelWithdrawOp {
        channel_id,
        outputs: Outputs::new(vec![Note::new(amount, [0; 32])]).unwrap(),
        withdraw_nonce: channels.channel_state(&channel_id).unwrap().withdrawal_nonce,
    }
}

fn execute_withdraw(
    channels: Channels,
    utxos: Utxos,
    channel_id: ChannelId,
    amount: u64,
    epoch: Epoch,
) -> WithdrawExecutionContext {
    withdraw_op(&channels, channel_id, amount)
        .execute(WithdrawExecutionContext { channels, utxos, current_epoch: epoch }, note_id)
        .unwrap()
        .0
}

#[test]
fn withdraw_uses_floating_balance_first_without_touching_frozen_notes() {
    let channel_id: ChannelId = [0u8; 32];
    let epoch: Epoch = 1.into();
    let pk = zk_pk(0);
    let frozen_value = 10u64;
    let floating = 20u64;

    let (channels, frozen_utxo) =
        channel_with_frozen_note(channel_id, floating, frozen_value, epoch, pk);
    let note_id = note_id(&frozen_utxo);
    let utxos = utxo_tree(vec![frozen_utxo]);

    // Withdraw 15, covered entirely by floating balance (20)
    let result = execute_withdraw(channels, utxos, channel_id, 15, epoch);

    let state = result.channels.channel_state(&channel_id).unwrap();
    assert_eq!(state.floating_balance, floating - 15);
    // Frozen note untouched
    assert!(state.frozen_note_map.contains_key(&(epoch.0, pk)));
    assert!(result.channels.frozen_notes.contains(&note_id));
}

fn two_notes(value: u64, solvency: u64) -> (Channels, Utxos, NoteId, NoteId) {
    let pk = zk_pk(0);
    let utxo_old = Utxo::new([1u8; 32], 0, Note::new(value, pk));
    let utxo_new = Utxo::new([2u8; 32], 0, Note::new(value, pk));
    let (id_old, id_new) = (note_id(&utxo_old), note_id(&utxo_new));
    let mut channels = Channels::new();
    channels.frozen_notes = channels.frozen_notes.freeze(Note::new(value, pk), &id_old).unwrap();
    channels.frozen_notes = channels.frozen_notes.freeze(Note::new(value, pk), &id_new).unwrap();
    channels.channels = channels.channels.insert(
        [0; 32],
        state(
            vec![ed_pk(0)],
            vec![pk],
            0,
            solvency,
            FrozenNoteMap::new().insert((1, pk), id_old).insert((2, pk), id_new),
        ),
    );
    (channels, utxo_tree(vec![utxo_old, utxo_new]), id_old, id_new)
}

#[test]
fn withdraw_releases_frozen_notes_lifo() {
    let channel_id: ChannelId = [0u8; 32];
    let pk = zk_pk(0);
    let epoch_old: Epoch = 1.into();
    let epoch_new: Epoch = 2.into();

    // Two frozen notes at different epochs
    let (channels, utxos, id_old, id_new) = two_notes(10, 20);

    // Withdraw 5: floating=0, so releases epoch_new first (most recent).
    // After releasing epoch_new (value 10): floating becomes 10 >= 5, loop stops.
    let result = execute_withdraw(channels, utxos, channel_id, 5, epoch_new);

    let state = result.channels.channel_state(&channel_id).unwrap();
    // epoch_new note consumed
    assert!(!state.frozen_note_map.contains_key(&(epoch_new.0, pk)));
    assert!(!result.channels.frozen_notes.contains(&id_new));
    // epoch_old note still present
    assert!(state.frozen_note_map.contains_key(&(epoch_old.0, pk)));
    assert!(result.channels.frozen_notes.contains(&id_old));
}

#[test]
fn withdraw_partial_unfreeze_removes_only_consumed_entries_from_map() {
    let channel_id: ChannelId = [0u8; 32];
    let pk0 = zk_pk(0);
    let pk1 = zk_pk(1);
    let epoch: Epoch = 1.into();

    // Two sequencers, one epoch — two frozen notes
    let utxo0 = Utxo::new([1u8; 32], 0, Note::new(5, pk0));
    let utxo1 = Utxo::new([2u8; 32], 0, Note::new(5, pk1));
    let id0 = note_id(&utxo0);
    let id1 = note_id(&utxo1);

    let mut channels = Channels::new();
    channels.frozen_notes = channels.frozen_notes.freeze(Note::new(5, pk0), &id0).unwrap();
    channels.frozen_notes = channels.frozen_notes.freeze(Note::new(5, pk1), &id1).unwrap();
    channels.channels = channels.channels.insert(
        channel_id,
        state(
            vec![ed_pk(0), ed_pk(1)],
            vec![pk0, pk1],
            0,
            10,
            FrozenNoteMap::new().insert((epoch.0, pk0), id0).insert((epoch.0, pk1), id1),
        ),
    );
    let utxos = utxo_tree(vec![utxo0, utxo1]);

    // Withdraw 7: floating=0, release epoch 1 (both pk0 and pk1 unfrozen → +10)
    // → floating becomes 10, exits loop; pays 7, leaves 3 floating
    let result = execute_withdraw(channels, utxos, channel_id, 7, epoch);

    let state = result.channels.channel_state(&channel_id).unwrap();
    // Both entries from epoch 1 removed from the map
    assert_eq!(state.frozen_note_map.size(), 0);
    assert!(!result.channels.frozen_notes.contains(&id0));
    assert!(!result.channels.frozen_notes.contains(&id1));
    assert_eq!(state.floating_balance, 3);
}

#[test]
fn withdraw_full_unfreeze_empties_frozen_note_map() {
    let channel_id: ChannelId = [0u8; 32];
    let epoch_new: Epoch = 2.into();

    // Two epochs, 8 tokens each, floating = 0
    let (channels, utxos, id_old, id_new) = two_notes(8, 16);

    // Withdraw 10: epoch_new releases 8 (total 8 < 10), epoch_old releases 8
    // (total 16 >= 10), both entries consumed
    let result = execute_withdraw(channels, utxos, channel_id, 10, epoch_new);

    let state = result.channels.channel_state(&channel_id).unwrap();
    assert_eq!(state.frozen_note_map.size(), 0);
    assert!(!result.channels.frozen_notes.contains(&id_old));
    assert!(!result.channels.frozen_notes.contains(&id_new));
}

#[test]
fn withdraw_decreases_solvency_by_withdrawn_amount() {
    let channel_id: ChannelId = [0u8; 32];
    let epoch: Epoch = 1.into();
    let pk = zk_pk(0);
    let initial_solvency = 30u64;
    let withdraw_amount = 7u64;

    let (channels, frozen_utxo) =
        channel_with_frozen_note(channel_id, initial_solvency, 0, epoch, pk);
    let utxos = utxo_tree(vec![frozen_utxo]);

    let result = execute_withdraw(channels, utxos, channel_id, withdraw_amount, epoch);

    assert_eq!(
        result.channels.channel_state(&channel_id).unwrap().solvency,
        initial_solvency - withdraw_amount,
    );
}

#[test]
fn withdraw_falls_back_on_the_first_epochs_notes() {
    let channel_id: ChannelId = [0u8; 32];
    let pk = zk_pk(0);
    let (channels, utxo) = channel_with_frozen_note(channel_id, 0, 10, Epoch(0), pk);
    let id = note_id(&utxo);
    let op = withdraw_op(&channels, channel_id, 5);
    let ctx = WithdrawExecutionContext {
        channels,
        utxos: utxo_tree(vec![utxo]),
        current_epoch: Epoch(0),
    };
    let (result, _) = op.execute(ctx, note_id).unwrap();
    let state = result.channels.channel_state(&channel_id).unwrap();
    assert_eq!((state.floating_balance, state.solvency, state.withdrawal_nonce), (5, 5, 1));
    assert_eq!(state.frozen_note_map.size(), 0);
    assert!(!result.channels.frozen_notes.contains(&id));
    assert!(!result.utxos.contains_key(&id));

    // From a later epoch the way back ends there too.
    let (channels, utxo) = channel_with_frozen_note(channel_id, 0, 10, Epoch(0), pk);
    let result = execute_withdraw(channels, utxo_tree(vec![utxo]), channel_id, 10, Epoch(3));
    let state = result.channels.channel_state(&channel_id).unwrap();
    assert_eq!((state.floating_balance, state.frozen_note_map.size()), (0, 0));
}

#[test]
fn withdraw_fails_where_the_first_epochs_notes_do_not_do() {
    let channel_id: ChannelId = [0u8; 32];
    let (mut channels, utxo) = channel_with_frozen_note(channel_id, 0, 10, Epoch(0), zk_pk(0));
    let mut state = channels.channel_state(&channel_id).unwrap().clone();
    state.solvency = 20;
    channels.channels = channels.channels.insert(channel_id, state);
    let op = withdraw_op(&channels, channel_id, 11);
    let ctx = WithdrawExecutionContext {
        channels,
        utxos: utxo_tree(vec![utxo]),
        current_epoch: Epoch(0),
    };
    assert_eq!(op.execute(ctx, note_id).err(), Some(Error::InsufficientFunds));
}

fn failure(channels: Channels, utxos: Utxos, amount: u64) -> Option<Error> {
    let op = withdraw_op(&channels, [0; 32], amount);
    let ctx = WithdrawExecutionContext { channels, utxos, current_epoch: Epoch(2) };
    op.execute(ctx, note_id).err()
}

#[test]
fn withdraw_fails_with_the_first_cause() {
    let (channels, _, _, id_new) = two_notes(8, 16);
    assert_eq!(
        failure(channels, Utxos::new(), 5),
        Some(Error::Inputs(InputsError::InexistingNote(id_new)))
    );
    let (mut channels, utxos, _, id_new) = two_notes(8, 16);
    channels.frozen_notes = FrozenNotes::new();
    assert_eq!(
        failure(channels, utxos, 5),
        Some(Error::FrozenNotes(frozen_notes::Error::NoteNotFrozen(id_new)))
    );
    // More than the solvency, though the notes would cover it.
    let (channels, utxos, _, _) = two_notes(8, 4);
    assert_eq!(failure(channels, utxos, 5), Some(Error::InsufficientFunds));
    let channels = Channels {
        channels: ChannelMap::new().insert(
            [0; 32],
            ChannelState {
                withdrawal_nonce: u32::MAX,
                ..state(vec![ed_pk(0)], vec![], 5, 5, FrozenNoteMap::new())
            },
        ),
        mint_eligible_channels: vec![],
        frozen_notes: FrozenNotes::new(),
    };
    assert_eq!(failure(channels, Utxos::new(), 5), Some(Error::WithdrawNonceOverflow));
    let (channels, utxos, _, _) = two_notes(8, 16);
    let op = ChannelWithdrawOp {
        channel_id: [0; 32],
        outputs: Outputs::new(vec![Note::new(u64::MAX, [0; 32]); 2]).unwrap(),
        withdraw_nonce: 0,
    };
    let ctx = WithdrawExecutionContext { channels, utxos, current_epoch: Epoch(2) };
    assert_eq!(
        op.execute(ctx, note_id).err(),
        Some(Error::Outputs(OutputsError::AmountOverflow))
    );
}

#[test]
fn withdraw_overflows_only_where_the_balance_does() {
    let pk = zk_pk(0);
    let channel_id: ChannelId = [0u8; 32];
    let utxo = make_frozen_utxo(u64::MAX, pk);
    let id = note_id(&utxo);
    let mut channels = Channels::new();
    channels.frozen_notes = channels.frozen_notes.freeze(utxo.note, &id).unwrap();
    channels.channels = channels.channels.insert(
        channel_id,
        state(vec![ed_pk(0)], vec![pk], 1, 9, FrozenNoteMap::new().insert((2, pk), id)),
    );
    assert_eq!(failure(channels, utxo_tree(vec![utxo]), 5), Some(Error::BalanceOverflow));
}

fn verify(key: &Ed25519PublicKey, hash: &TxHash, signature: &Ed25519Signature) -> bool {
    VerifyingKey::from_bytes(key)
        .is_ok_and(|key| key.verify(hash, &Signature::from_bytes(&signature.0)).is_ok())
}

fn sign(seed: u8, index: u16, hash: &TxHash) -> IndexedSignature {
    IndexedSignature {
        channel_key_index: index,
        signature: Ed25519Signature(SigningKey::from_bytes(&[seed; 32]).sign(hash).to_bytes()),
    }
}

#[test]
fn withdraw_is_valid_with_nonce_funds_and_signatures() {
    let channel_id: ChannelId = [0u8; 32];
    let tx_hash: TxHash = [5; 32];
    let mut channels = Channels::new();
    channels.channels = channels.channels.insert(
        channel_id,
        ChannelState {
            withdraw_threshold: 2,
            ..state(vec![ed_pk(0), ed_pk(1)], vec![], 3, 10, FrozenNoteMap::new())
        },
    );
    let check = |op: &ChannelWithdrawOp, signatures: Vec<IndexedSignature>| {
        let proof = ChannelMultiSigProof::new(signatures).unwrap();
        let ctx = WithdrawValidationContext {
            channels: &channels,
            tx_hash: &tx_hash,
            withdraw_sigs: &proof,
        };
        let outputs_valid = |outputs: &Outputs| {
            if outputs.0.is_empty() {
                Err(OutputsError::InvalidNote(Note::new(0, [0; 32])))
            } else {
                Ok(())
            }
        };
        op.validate(&ctx, outputs_valid, verify)
    };
    let both = || vec![sign(0, 0, &tx_hash), sign(1, 1, &tx_hash)];
    let op = withdraw_op(&channels, channel_id, 10);
    assert_eq!(check(&op, both()), Ok(()));
    assert_eq!(
        check(&withdraw_op(&channels, channel_id, 11), both()),
        Err(Error::InsufficientFunds)
    );
    assert_eq!(
        check(&ChannelWithdrawOp { withdraw_nonce: 1, ..withdraw_op(&channels, channel_id, 1) }, both()),
        Err(Error::InvalidWithdrawNonce)
    );
    assert_eq!(
        check(&ChannelWithdrawOp { channel_id: [7; 32], ..withdraw_op(&channels, channel_id, 1) }, both()),
        Err(Error::ChannelNotFound { channel_id: [7; 32] })
    );
    assert_eq!(
        check(&op, vec![sign(0, 0, &tx_hash)]),
        Err(Error::ThresholdUnmet { channel_id, threshold: 2, actual: 1 })
    );
    assert_eq!(
        check(&op, vec![sign(0, 0, &tx_hash), sign(0, 1, &tx_hash)]),
        Err(Error::InvalidSignature)
    );
    let none = ChannelWithdrawOp {
        channel_id,
        outputs: Outputs::new(vec![]).unwrap(),
        withdraw_nonce: 0,
    };
    assert_eq!(
        check(&none, both()),
        Err(Error::Outputs(OutputsError::InvalidNote(Note::new(0, [0; 32]))))
    );
    let too_much = ChannelWithdrawOp {
        channel_id,
        outputs: Outputs::new(vec![Note::new(u64::MAX, [0; 32]); 2]).unwrap(),
        withdraw_nonce: 0,
    };
    assert_eq!(check(&too_much, both()), Err(Error::Outputs(OutputsError::AmountOverflow)));

    // Once it went through, the same withdrawal is refused.
    let (after, _) = op
        .execute(
            WithdrawExecutionContext {
                channels: {
                    let mut funded = channels.clone();
                    funded.channels = funded.channels.insert(
                        channel_id,
                        state(vec![ed_pk(0)], vec![], 10, 10, FrozenNoteMap::new()),
                    );
                    funded
                },
                utxos: Utxos::new(),
                current_epoch: Epoch(1),
            },
            note_id,
        )
        .unwrap();
    let proof = ChannelMultiSigProof::new(vec![]).unwrap();
    let ctx = WithdrawValidationContext {
        channels: &after.channels,
        tx_hash: &tx_hash,
        withdraw_sigs: &proof,
    };
    assert_eq!(
        op.validate(&ctx, |_: &Outputs| Ok(()), verify),
        Err(Error::InvalidWithdrawNonce)
    );
}

#[test]
fn withdraw_is_read_back_from_its_bytes() {
    let op = ChannelWithdrawOp {
        channel_id: [2; 32],
        outputs: Outputs::new(vec![Note::new(500, zk_pk(12))]).unwrap(),
        withdraw_nonce: 7,
    };
    let mut expected = vec![2u8; 32];
    expected.extend([1, 0xf4, 1, 0, 0, 0, 0, 0, 0]);
    expected.extend(zk_pk(12));
    expected.extend([7, 0, 0, 0]);
    assert_eq!(op.encode(), expected);
    assert_eq!(op.op_bytes(), expected);
    let mut preimage = b"OPERATION_ID_V1".to_vec();
    preimage.extend(&expected);
    let id: [u8; 32] = Blake2b::<U32>::digest(&preimage).into();
    assert_eq!(op.op_id(), id);
    let any = |_: &ZkPublicKey| true;
    let (rest, read) = ChannelWithdrawOp::decode(&expected, any).unwrap();
    assert!(rest.is_empty());
    assert_eq!(read, op);
    for len in 0..expected.len() {
        assert!(ChannelWithdrawOp::decode(&expected[..len], any).is_err());
    }
    assert!(ChannelWithdrawOp::decode(&expected, |_: &ZkPublicKey| false).is_err());
}
