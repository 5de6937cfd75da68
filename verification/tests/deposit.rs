//! Deposits into channels.

use blake2::digest::consts::U32;
use blake2::{Blake2b, Digest};
use ed25519_dalek::SigningKey;
use logos_blockchain::mantle::channel::{ChannelState, Channels, Error};
use logos_blockchain::mantle::frozen_notes::FrozenNotes;
use logos_blockchain::mantle::ledger::{
    Inputs, InputsError, Metadata, Outputs, OutputsError, Utxos,
};
use logos_blockchain::mantle::maps::FrozenNoteMap;
use logos_blockchain::mantle::ops::channel::config::{Keys, ZkKeys};
use logos_blockchain::mantle::ops::channel::deposit::{
    DepositExecutionContext, DepositOp, DepositValidationContext,
};
use logos_blockchain::mantle::ops::OpId;
use logos_blockchain::mantle::primitives::{
    ChannelId, Ed25519PublicKey, Note, NoteId, Slot, TxHash, Utxo, ZkPublicKey,
};
use logos_blockchain::sdp::{LockedNotes, ServiceType};
use logos_blockchain::utils::bounded::BoundedError;
use rand::RngCore;

fn note_id(utxo: &Utxo) -> NoteId {
    let mut hasher = Blake2b::<U32>::new();
    hasher.update(utxo.op_id);
    hasher.update((utxo.output_index as u64).to_le_bytes());
    hasher.update(utxo.note.value.to_le_bytes());
    hasher.update(utxo.note.pk);
    hasher.finalize().into()
}

fn ed_pk(seed: u8) -> Ed25519PublicKey {
    SigningKey::from_bytes(&[seed; 32]).verifying_key().to_bytes()
}

fn zk_pk(seed: u8) -> ZkPublicKey {
    let mut key = [0u8; 32];
    key[0] = seed;
    key[31] = 7;
    key
}

fn make_utxo(value: u64) -> Utxo {
    let mut op_id = [0u8; 32];
    rand::thread_rng().fill_bytes(&mut op_id);
    Utxo { op_id, output_index: 0, note: Note::new(value, [0; 32]) }
}

fn utxo_tree(utxos: Vec<Utxo>) -> Utxos {
    let mut tree = Utxos::new();
    for u in utxos {
        tree = tree.insert(note_id(&u), u);
    }
    tree
}

fn channel_state(
    accredited_keys: Vec<Ed25519PublicKey>,
    sequencers: Vec<ZkPublicKey>,
    floating_balance: u64,
    solvency: u64,
) -> ChannelState {
    ChannelState {
        accredited_keys: Keys::try_from(accredited_keys).unwrap(),
        configuration_threshold: 1,
        tip_message: [0; 32],
        tip_slot: Slot(0),
        tip_sequencer: 0,
        tip_sequencer_starting_slot: Slot(0),
        posting_timeframe: 0.into(),
        posting_timeout: 0.into(),
        withdraw_threshold: 1,
        withdrawal_nonce: 0,
        floating_balance,
        solvency,
        frozen_note_map: FrozenNoteMap::new(),
        sequencers_zk_pks: ZkKeys::try_from(sequencers).unwrap(),
    }
}

/// Wraps a single channel state into a fresh `Channels`.
fn channels_with(channel_id: ChannelId, state: ChannelState) -> Channels {
    let mut channels = Channels::new();
    channels.channels = channels.channels.insert(channel_id, state);
    channels
}

/// Channel with `n` sequencers (zk keys `0..n`), `n.max(1)` accredited keys
/// and the given floating balance / solvency.
fn channel_with_sequencers(channel_id: ChannelId, balance: u64, n: u8) -> Channels {
    channels_with(
        channel_id,
        channel_state(
            (0..n.max(1)).map(ed_pk).collect(),
            (0..n).map(zk_pk).collect(),
            balance,
            balance,
        ),
    )
}

fn execute_deposit(channels: Channels, value: u64) -> Channels {
    let utxo = make_utxo(value);
    let op = DepositOp {
        channel_id: [0u8; 32],
        inputs: Inputs::new(vec![note_id(&utxo)]).unwrap(),
        metadata: Metadata::default(),
    };
    op.execute(DepositExecutionContext {
        channels,
        locked_notes: LockedNotes::new(),
        utxos: utxo_tree(vec![utxo]),
        tx_hash: [0u8; 32],
    })
    .unwrap()
    .0
    .channels
}

#[test]
fn deposit_marks_mint_eligible_when_balance_meets_or_exceeds_sequencer_count() {
    let channel_id: ChannelId = [0u8; 32];

    // balance == n_sequencers (boundary: exactly eligible)
    let channels = channel_with_sequencers(channel_id, 0, 2);
    let updated = execute_deposit(channels, 2);
    assert!(updated.mint_eligible_channels.contains(&channel_id));

    // balance > n_sequencers (clearly eligible)
    let channels = channel_with_sequencers(channel_id, 0, 2);
    let updated = execute_deposit(channels, 5);
    assert!(updated.mint_eligible_channels.contains(&channel_id));
}

#[test]
fn deposit_does_not_mark_mint_eligible_when_no_sequencers() {
    let channel_id: ChannelId = [0u8; 32];
    // 0 sequencers → never eligible regardless of balance
    let channels = channel_with_sequencers(channel_id, 0, 0);
    let updated = execute_deposit(channels, 10);
    assert!(!updated.mint_eligible_channels.contains(&channel_id));
}

#[test]
fn deposit_does_not_duplicate_mint_eligible_channels() {
    let channel_id: ChannelId = [0u8; 32];
    // First deposit makes the channel eligible
    let channels = channel_with_sequencers(channel_id, 0, 1);
    let updated = execute_deposit(channels, 5);
    assert_eq!(
        updated.mint_eligible_channels.iter().filter(|&&id| id == channel_id).count(),
        1
    );

    // Second deposit must not add it again
    let updated2 = execute_deposit(updated, 5);
    assert_eq!(
        updated2.mint_eligible_channels.iter().filter(|&&id| id == channel_id).count(),
        1
    );
}

#[test]
fn deposit_below_one_unit_for_each_sequencer_does_not_mark() {
    let channel_id: ChannelId = [0u8; 32];
    let updated = execute_deposit(channel_with_sequencers(channel_id, 0, 3), 2);
    assert!(updated.mint_eligible_channels.is_empty());
    let state = updated.channel_state(&channel_id).unwrap();
    assert_eq!((state.floating_balance, state.solvency), (2, 2));
}

fn failed_deposit(channels: Channels, utxos: Utxos, inputs: Vec<NoteId>) -> Error {
    let op = DepositOp {
        channel_id: [0u8; 32],
        inputs: Inputs::new(inputs).unwrap(),
        metadata: Metadata::default(),
    };
    op.execute(DepositExecutionContext {
        channels,
        locked_notes: LockedNotes::new(),
        utxos,
        tx_hash: [0u8; 32],
    })
    .unwrap_err()
}

#[test]
fn deposit_fails_with_the_first_cause() {
    let channel_id: ChannelId = [0u8; 32];
    let (a, b) = (make_utxo(3), make_utxo(u64::MAX));
    let channels = || channel_with_sequencers(channel_id, 5, 1);
    let utxos = || utxo_tree(vec![a, b]);
    assert_eq!(
        failed_deposit(channels(), utxos(), vec![note_id(&a), [9; 32]]),
        Error::Inputs(InputsError::InexistingNote([9; 32]))
    );
    assert_eq!(
        failed_deposit(channels(), utxos(), vec![note_id(&a), note_id(&b)]),
        Error::Inputs(InputsError::AmountOverflow)
    );
    // A note can be spent once.
    assert_eq!(
        failed_deposit(channels(), utxos(), vec![note_id(&a), note_id(&a)]),
        Error::Inputs(InputsError::InexistingNote(note_id(&a)))
    );
    assert_eq!(
        failed_deposit(channels(), utxos(), vec![note_id(&b)]),
        Error::BalanceOverflow
    );
    assert_eq!(
        failed_deposit(Channels::new(), utxos(), vec![note_id(&a)]),
        Error::ChannelNotFound { channel_id }
    );
}

#[test]
fn deposit_is_valid_with_the_owners_signature() {
    let channel_id: ChannelId = [0u8; 32];
    let channels = channel_with_sequencers(channel_id, 5, 1);
    let mut utxo = make_utxo(3);
    utxo.note.pk = zk_pk(8);
    let utxos = utxo_tree(vec![utxo]);
    let locked_notes = LockedNotes::new();
    let frozen_notes = FrozenNotes::new();
    let tx_hash: TxHash = [1; 32];
    let op = |channel_id: ChannelId, inputs: Vec<NoteId>| DepositOp {
        channel_id,
        inputs: Inputs::new(inputs).unwrap(),
        metadata: Metadata::default(),
    };
    let inputs_valid = |_: &Inputs, _: &LockedNotes, frozen: &FrozenNotes, _: &Utxos| {
        if frozen.contains(&[2; 32]) {
            Err(InputsError::NotSpendable([2; 32]))
        } else {
            Ok(())
        }
    };
    // The signature is the first bytes of the keys that it is by.
    let verify_multi = |pks: &Vec<ZkPublicKey>, hash: &TxHash, signature: &Vec<u8>| {
        *hash == [1; 32] && pks.iter().map(|pk| pk[0]).collect::<Vec<_>>() == *signature
    };
    let ctx = DepositValidationContext {
        channels: &channels,
        locked_notes: &locked_notes,
        frozen_notes: &frozen_notes,
        utxos: &utxos,
        tx_hash: &tx_hash,
        deposit_sig: &vec![8u8],
    };
    let good = op(channel_id, vec![note_id(&utxo)]);
    assert_eq!(good.validate(&ctx, inputs_valid, verify_multi), Ok(()));
    assert_eq!(
        op([3; 32], vec![]).validate(&ctx, inputs_valid, verify_multi),
        Err(Error::ChannelNotFound { channel_id: [3; 32] })
    );
    assert_eq!(
        op(channel_id, vec![note_id(&utxo), [4; 32]]).validate(&ctx, inputs_valid, verify_multi),
        Err(Error::Inputs(InputsError::InexistingNote([4; 32])))
    );
    let unsigned = DepositValidationContext { deposit_sig: &vec![7u8], ..ctx };
    assert_eq!(
        good.validate(&unsigned, inputs_valid, verify_multi),
        Err(Error::InvalidSignature)
    );
    let frozen = FrozenNotes::new().freeze(utxo.note, &[2; 32]).unwrap();
    let not_spendable = DepositValidationContext { frozen_notes: &frozen, ..unsigned };
    assert_eq!(
        good.validate(&not_spendable, inputs_valid, verify_multi),
        Err(Error::Inputs(InputsError::NotSpendable([2; 32])))
    );
}

#[test]
fn deposit_is_read_back_from_its_bytes() {
    let op = DepositOp {
        channel_id: [1; 32],
        inputs: Inputs::new(vec![[3; 32]]).unwrap(),
        metadata: Metadata::new(b"deposit-metadata".to_vec()).unwrap(),
    };
    let mut expected = vec![1u8; 32];
    expected.push(1);
    expected.extend([3u8; 32]);
    expected.extend([16, 0, 0, 0]);
    expected.extend(b"deposit-metadata");
    assert_eq!(op.encode(), expected);
    assert_eq!(op.op_bytes(), expected);
    let mut preimage = b"OPERATION_ID_V1".to_vec();
    preimage.extend(&expected);
    let id: [u8; 32] = Blake2b::<U32>::digest(&preimage).into();
    assert_eq!(op.op_id(), id);

    let any = |_: &NoteId| true;
    let mut bytes = expected.clone();
    bytes.push(77);
    let (rest, read) = DepositOp::decode(&bytes, any).unwrap();
    assert_eq!(rest, &[77]);
    assert_eq!(read, op);
    for len in 0..expected.len() {
        assert!(DepositOp::decode(&expected[..len], any).is_err());
    }
    assert!(DepositOp::decode(&expected, |id: &NoteId| *id != [3; 32]).is_err());
}

#[test]
fn inputs_and_outputs_are_counted_in_one_byte() {
    assert_eq!(
        Inputs::new(vec![[0; 32]; 256]),
        Err(BoundedError::TooLong { actual: 256, max: 255 })
    );
    let notes = vec![Note::new(1, [0; 32]); 256];
    assert_eq!(Outputs::new(notes), Err(BoundedError::TooLong { actual: 256, max: 255 }));
    let outputs =
        Outputs::new(vec![Note::new(0x0201, [5; 32]), Note::new(7, [6; 32])]).unwrap();
    let mut expected = vec![2, 1, 2, 0, 0, 0, 0, 0, 0];
    expected.extend([5; 32]);
    expected.extend([7, 0, 0, 0, 0, 0, 0, 0]);
    expected.extend([6; 32]);
    assert_eq!(outputs.encode(), expected);
    let (rest, read) = Outputs::decode(&expected).unwrap();
    assert!(rest.is_empty());
    assert_eq!(read, outputs);
    assert_eq!(read.amount(), Ok(0x0208));
    for len in 0..expected.len() {
        assert!(Outputs::decode(&expected[..len]).is_err());
    }
    let too_much = Outputs::new(vec![Note::new(u64::MAX, [0; 32]), Note::new(1, [0; 32])]);
    assert_eq!(too_much.unwrap().amount(), Err(OutputsError::AmountOverflow));
    let inputs = Inputs::new(vec![[8; 32], [9; 32]]).unwrap();
    let bytes = inputs.encode();
    assert_eq!(bytes[0], 2);
    assert_eq!(bytes[33..], [9; 32]);
    assert_eq!(Inputs::decode(&bytes).unwrap(), (&[][..], inputs));
}

#[test]
fn spending_takes_the_inputs_off_the_ledger() {
    let (a, b) = (make_utxo(3), make_utxo(4));
    let utxos = utxo_tree(vec![a, b]);
    let inputs = Inputs::new(vec![note_id(&a)]).unwrap();
    assert_eq!(inputs.amount(&utxos), Ok(3));
    assert_eq!(inputs.get_pk(&utxos), Ok(vec![[0; 32]]));
    let left = inputs.execute(utxos.clone()).unwrap();
    assert!(!left.contains_key(&note_id(&a)));
    assert_eq!(left.get(&note_id(&b)), Some(b));
    assert!(utxos.contains_key(&note_id(&a)));
    assert_eq!(left, utxo_tree(vec![b]));
}

#[test]
fn notes_are_locked_for_a_service() {
    let locked = LockedNotes::new();
    assert!(!locked.is_locked_for_service(&[1; 32], &ServiceType::BlendNetwork));
    let locked = locked.with_lock([1; 32], ServiceType::BlendNetwork);
    assert!(locked.is_locked_for_service(&[1; 32], &ServiceType::BlendNetwork));
    assert!(!locked.is_locked_for_service(&[2; 32], &ServiceType::BlendNetwork));
}
