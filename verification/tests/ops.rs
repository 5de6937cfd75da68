//! Operations, their codes and their bytes.

use blake2::digest::consts::U32;
use blake2::{Blake2b, Digest};
use ed25519_dalek::SigningKey;
use logos_blockchain::mantle::channel::{SlotTimeframe, SlotTimeout};
use logos_blockchain::mantle::ledger::{Inputs, Metadata, Outputs};
use logos_blockchain::mantle::multisig::{ChannelMultiSigProof, IndexedSignature};
use logos_blockchain::mantle::maps::{FrozenNoteMap, NoteMap, UtxoMap};
use logos_blockchain::mantle::ops::channel::config::{ChannelConfigOp, Keys, ZkKeys};
use logos_blockchain::mantle::ops::channel::deposit::DepositOp;
use logos_blockchain::mantle::ops::channel::withdraw::ChannelWithdrawOp;
use logos_blockchain::mantle::ops::{GasConstants, Op, OpId, OpPayload, OpProof};
use logos_blockchain::mantle::primitives::{
    Ed25519PublicKey, Ed25519Signature, Note, Utxo, ZkPublicKey,
};

fn ed25519_pk(seed: u8) -> Ed25519PublicKey {
    SigningKey::from_bytes(&[seed; 32]).verifying_key().to_bytes()
}

fn zk_pk(seed: u8) -> ZkPublicKey {
    let mut key = [0u8; 32];
    key[0] = seed;
    key
}

/// One deterministic instance of every [`Op`] variant.
fn sample_ops() -> Vec<Op> {
    vec![
        Op::Transfer(OpPayload(vec![1, 2, 3])),
        Op::ChannelDeposit(DepositOp {
            channel_id: [1u8; 32],
            inputs: Inputs::new(vec![zk_pk(3)]).unwrap(),
            metadata: Metadata::try_from(b"deposit-metadata".to_vec()).unwrap(),
        }),
        Op::ChannelWithdraw(ChannelWithdrawOp {
            channel_id: [2u8; 32],
            outputs: Outputs::new(vec![Note::new(500, zk_pk(12))]).unwrap(),
            withdraw_nonce: 7,
        }),
        Op::LeaderClaim(OpPayload(vec![42, 43])),
        Op::ChannelConfig(ChannelConfigOp {
            channel: [3u8; 32],
            keys: Keys::try_from(vec![ed25519_pk(1), ed25519_pk(2)]).unwrap(),
            sequencer_zk_pks: ZkKeys::try_from(vec![zk_pk(50), zk_pk(51)]).unwrap(),
            posting_timeframe: SlotTimeframe::from(10u32),
            posting_timeout: SlotTimeout::from(20u32),
            configuration_threshold: 2,
            withdraw_threshold: 1,
        }),
        Op::ChannelInscribe(OpPayload(b"hello logos".to_vec())),
        Op::SDPDeclare(OpPayload(vec![7])),
        Op::SDPWithdraw(OpPayload(vec![8; 68])),
        Op::SDPActive(OpPayload(vec![])),
    ]
}

fn op_id_from_payload(payload: &[u8]) -> [u8; 32] {
    let mut preimage = b"OPERATION_ID_V1".to_vec();
    preimage.extend_from_slice(payload);
    Blake2b::<U32>::digest(&preimage).into()
}

#[test]
fn generate_op_id_test_vectors() {
    for op in &sample_ops() {
        let encoded = op.encode();
        let payload = &encoded[1..];
        println!("{} {:?}", op.as_str(), op_id_from_payload(payload));
        match op {
            Op::ChannelDeposit(o) => {
                assert_eq!(o.op_id(), op_id_from_payload(&o.op_bytes()));
                assert_eq!(o.op_bytes(), payload);
            }
            Op::ChannelWithdraw(o) => {
                assert_eq!(o.op_id(), op_id_from_payload(&o.op_bytes()));
                assert_eq!(o.op_bytes(), payload);
            }
            _ => {}
        }
    }
}

#[test]
fn operation_id_is_the_blake2b_digest_of_label_and_bytes() {
    let op = ChannelWithdrawOp {
        channel_id: [7; 32],
        outputs: Outputs::new(vec![]).unwrap(),
        withdraw_nonce: 0x0102_0304,
    };
    let mut bytes = vec![7; 32];
    bytes.extend([0, 4, 3, 2, 1]);
    assert_eq!(op.op_bytes(), bytes);
    assert_eq!(
        op.op_id(),
        [
            0xc4, 0x76, 0x62, 0xdf, 0xa9, 0xeb, 0x20, 0xa2,
            0xe4, 0xf7, 0xb0, 0x3e, 0x4e, 0x5f, 0x33, 0x54,
            0x9b, 0x56, 0x2f, 0x94, 0x4d, 0x2d, 0xcb, 0x00,
            0x4e, 0x8c, 0x20, 0xd8, 0xd5, 0xdc, 0x1e, 0xf6,
        ]
    );
}

#[test]
fn each_operation_has_its_code_name_and_cost() {
    let constants = GasConstants {
        channel_inscribe: 1,
        channel_config: 2,
        channel_deposit: 3,
        channel_withdraw: 4,
        sdp_declare: 5,
        sdp_withdraw: 6,
        sdp_active: 7,
        leader_claim: 8,
        transfer: 9,
    };
    let told: Vec<(u8, &str, u64)> = sample_ops()
        .iter()
        .map(|op| (op.code(), op.as_str(), op.execution_gas(&constants)))
        .collect();
    assert_eq!(
        told,
        vec![
            (0x00, "Transfer", 9),
            (0x12, "ChannelDeposit", 3),
            (0x13, "ChannelWithdraw", 4),
            (0x30, "LeaderClaim", 8),
            (0x10, "ChannelConfig", 2),
            (0x11, "ChannelInscribe", 1),
            (0x20, "SDPDeclare", 5),
            (0x21, "SDPWithdraw", 6),
            (0x22, "SDPActive", 7),
        ]
    );
}

#[test]
fn operations_are_read_back_from_their_bytes() {
    for op in sample_ops() {
        let mut bytes = op.encode();
        assert_eq!(bytes[0], op.code());
        let length = bytes.len() - 1;
        bytes.extend([1, 1]);
        let any = |_: &[u8; 32]| true;
        let code = op.code();
        let payload_length = move |asked: u8, rest: &[u8]| {
            assert_eq!(asked, code);
            assert_eq!(rest.len(), length + 2);
            Some(length)
        };
        let (rest, read) = Op::decode(&bytes, any, any, payload_length).unwrap();
        assert_eq!(rest, &[1, 1]);
        assert_eq!(read, op);
    }
}

#[test]
fn bytes_that_are_no_operation_are_refused() {
    let any = |_: &[u8; 32]| true;
    let none = |_: &[u8; 32]| false;
    assert!(Op::decode(&[], any, any, |_, _: &[u8]| Some(0)).is_err());
    // No operation has this code.
    assert!(Op::decode(&[0x31, 1], any, any, |_, _: &[u8]| Some(0)).is_err());
    assert!(Op::decode(&[0x30, 1], any, any, |_, _: &[u8]| None).is_err());
    assert!(Op::decode(&[0x30, 1], any, any, |_, _: &[u8]| Some(2)).is_err());
    assert!(Op::decode(&[0x30, 1], any, any, |_, _: &[u8]| Some(1)).is_ok());
    for op in sample_ops() {
        let bytes = op.encode();
        let refused = Op::decode(&bytes, none, none, |_, rest: &[u8]| Some(rest.len()));
        let typed = matches!(
            op,
            Op::ChannelConfig(_) | Op::ChannelDeposit(_) | Op::ChannelWithdraw(_)
        );
        assert_eq!(refused.is_err(), typed);
    }
}

#[test]
fn maps_keep_what_was_put_in() {
    let note = Note::new(4, [1; 32]);
    let notes = NoteMap::new().insert([1; 32], note).insert([2; 32], note).remove(&[1; 32]);
    assert_eq!(notes.get(&[2; 32]), Some(&note));
    assert!(!notes.contains_key(&[1; 32]));
    assert_eq!(notes.clone(), notes);

    let utxo = Utxo::new([3; 32], 1, note);
    let utxos = UtxoMap::new().insert([1; 32], utxo);
    assert_eq!(utxos.get(&[1; 32]), Some(utxo));
    assert_eq!(utxos.remove(&[1; 32]), UtxoMap::new());
    assert_eq!(utxos.clone().get(&[1; 32]), Some(utxo));

    let frozen = FrozenNoteMap::new()
        .insert((1, [1; 32]), [5; 32])
        .insert((2, [1; 32]), [6; 32])
        .insert((2, [1; 32]), [7; 32]);
    assert_eq!(frozen.size(), 2);
    let mut entries = frozen.entries();
    entries.sort();
    assert_eq!(entries, vec![((1, [1; 32]), [5; 32]), ((2, [1; 32]), [7; 32])]);
    assert_eq!(frozen.remove(&(1, [1; 32])).entries(), vec![((2, [1; 32]), [7; 32])]);
    assert_eq!(frozen.clone().get(&(1, [1; 32])), Some([5; 32]));
    assert!(!frozen.contains_key(&(3, [1; 32])));
}

#[test]
fn operations_are_cloned_and_begin_with_their_code() {
    for op in sample_ops() {
        assert_eq!(op.clone(), op);
        assert_eq!(op.encode()[0], op.code());
    }
    let signature = IndexedSignature {
        channel_key_index: 3,
        signature: Ed25519Signature([4; 64]),
    };
    let signatures = ChannelMultiSigProof::new(vec![signature]).unwrap();
    let proofs = [
        OpProof::Ed25519Sig(Ed25519Signature([1; 64])),
        OpProof::ZkSig('z'),
        OpProof::ZkAndEd25519Sigs { zk_sig: 'z', ed25519_sig: Ed25519Signature([2; 64]) },
        OpProof::PoC("claim"),
        OpProof::ChannelMultiSigProof(signatures),
    ];
    for proof_of_right in proofs {
        assert_eq!(proof_of_right.clone(), proof_of_right);
    }
}
