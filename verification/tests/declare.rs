//! Declarations of services.

use ed25519_dalek::SigningKey;
use logos_blockchain::mantle::frozen_notes::FrozenNotes;
use logos_blockchain::mantle::ledger::Utxos;
use logos_blockchain::mantle::ops::sdp::declare::{
    SDPDeclareExecutionContext, SDPDeclareGenesisValidationContext, SDPDeclareOp,
    SDPDeclareValidationContext, SdpError,
};
use logos_blockchain::mantle::primitives::{
    Ed25519PublicKey, Ed25519Signature, Note, NoteId, TxHash, Utxo, ZkPublicKey,
};
use logos_blockchain::sdp::declarations::Declarations;
use logos_blockchain::sdp::{
    Declaration, DeclarationId, Locator, LockedNotes, MinStake, ProviderId, ServiceType,
};

fn provider() -> Ed25519PublicKey {
    SigningKey::from_bytes(&[0u8; 32]).verifying_key().to_bytes()
}

fn make_frozen_note_in_utxo_tree() -> (Utxos, FrozenNotes, NoteId) {
    let note = Note::new(100, [0; 32]);
    let utxo = Utxo::new([0u8; 32], 0, note);
    let note_id: NoteId = [17; 32];

    let utxos = Utxos::new().insert(note_id, utxo);
    let frozen_notes = FrozenNotes::new().freeze(note, &note_id).unwrap();

    (utxos, frozen_notes, note_id)
}

fn declare_op(note_id: NoteId) -> SDPDeclareOp {
    SDPDeclareOp {
        service_type: ServiceType::BlendNetwork,
        locators: vec![Locator("/ip4/1.1.1.1/udp/0".to_string())],
        provider_id: ProviderId(provider()),
        zk_id: [3; 32],
        locked_note_id: note_id,
    }
}

fn declaration_id(op: &SDPDeclareOp) -> DeclarationId {
    let mut id = op.locked_note_id;
    id[0] ^= 1;
    id
}

#[test]
fn sdp_declare_rejects_frozen_note_as_collateral() {
    let (utxos, frozen_notes, note_id) = make_frozen_note_in_utxo_tree();

    let op = declare_op(note_id);

    let ctx = SDPDeclareGenesisValidationContext {
        utxo_tree: &utxos,
        locked_notes: &LockedNotes::new(),
        frozen_notes: &frozen_notes,
        declarations: &Declarations::new(),
        min_stake: &MinStake { threshold: 1, timestamp: 0 },
    };

    assert_eq!(
        op.validate_genesis(&ctx, declaration_id),
        Err(SdpError::NoteFrozen { note_id }),
    );
}

fn genesis_verdict(
    op: &SDPDeclareOp,
    utxos: &Utxos,
    locked_notes: &LockedNotes,
    declarations: &Declarations,
    threshold: u64,
) -> Result<(), SdpError> {
    op.validate_genesis(
        &SDPDeclareGenesisValidationContext {
            utxo_tree: utxos,
            locked_notes,
            frozen_notes: &FrozenNotes::new(),
            declarations,
            min_stake: &MinStake { threshold, timestamp: 0 },
        },
        declaration_id,
    )
}

#[test]
fn declaration_is_refused_with_the_first_cause() {
    let (utxos, _, note_id) = make_frozen_note_in_utxo_tree();
    let op = declare_op(note_id);
    let none = LockedNotes::new();
    let empty = Declarations::new();
    assert_eq!(genesis_verdict(&op, &utxos, &none, &empty, 100), Ok(()));
    assert_eq!(
        genesis_verdict(&op, &utxos, &none, &empty, 101),
        Err(SdpError::NoteInsufficientValue { note_id, value: 100 })
    );
    let locked = LockedNotes::new().with_lock(note_id, ServiceType::BlendNetwork);
    assert_eq!(
        genesis_verdict(&op, &utxos, &locked, &empty, 100),
        Err(SdpError::NoteAlreadyUsedForService {
            note_id,
            service_type: ServiceType::BlendNetwork
        })
    );
    let id = declaration_id(&op);
    let known = Declarations::new().insert(id, Declaration::new(1, &op));
    assert_eq!(
        genesis_verdict(&op, &utxos, &locked, &known, 101),
        Err(SdpError::DuplicateDeclaration(id))
    );
    assert_eq!(
        genesis_verdict(&op, &Utxos::new(), &none, &empty, 1),
        Err(SdpError::InexistingNote(note_id))
    );
    let mut many = declare_op(note_id);
    many.locators = (0..9).map(|i| Locator(format!("/udp/{i}"))).collect();
    assert_eq!(
        genesis_verdict(&many, &utxos, &none, &empty, 1),
        Err(SdpError::TooMuchLocators)
    );
    many.locators.pop();
    assert_eq!(genesis_verdict(&many, &utxos, &none, &empty, 1), Ok(()));
}

#[test]
fn declaration_asks_for_both_signatures() {
    let (utxos, _, note_id) = make_frozen_note_in_utxo_tree();
    let op = declare_op(note_id);
    let verdict = |zk: u8, ed: u8| {
        op.validate(
            &SDPDeclareValidationContext {
                utxo_tree: &utxos,
                locked_notes: &LockedNotes::new(),
                frozen_notes: &FrozenNotes::new(),
                tx_hash: &[6; 32],
                declare_zk_sig: &zk,
                declare_eddsa_sig: &Ed25519Signature([ed; 64]),
                declarations: &Declarations::new(),
                min_stake: &MinStake { threshold: 1, timestamp: 0 },
            },
            |pks: &[ZkPublicKey; 2], hash: &TxHash, signature: &u8| {
                *pks == [[0; 32], [3; 32]] && *hash == [6; 32] && *signature == 1
            },
            |key: &Ed25519PublicKey, hash: &TxHash, signature: &Ed25519Signature| {
                *key == provider() && *hash == [6; 32] && signature.0 == [2; 64]
            },
            declaration_id,
        )
    };
    assert_eq!(verdict(1, 2), Ok(()));
    assert_eq!(verdict(0, 2), Err(SdpError::InvalidZkSignature));
    assert_eq!(verdict(1, 0), Err(SdpError::InvalidEddsaSignature));
}

#[test]
fn declaration_is_put_on_record_and_locks_its_note() {
    let (utxo_tree, _, note_id) = make_frozen_note_in_utxo_tree();
    let op = declare_op(note_id);
    let context = || SDPDeclareExecutionContext {
        utxo_tree: utxo_tree.clone(),
        block_number: 12,
        declarations: Declarations::new(),
        locked_notes: LockedNotes::new(),
        min_stake: MinStake { threshold: 1, timestamp: 0 },
    };
    let lock = |locked: LockedNotes, min: &MinStake, service: ServiceType, note: Note, id: &NoteId| {
        if note.value < min.threshold {
            Err(())
        } else {
            Ok(locked.with_lock(*id, service))
        }
    };
    let (after, events) = op.execute(context(), declaration_id, lock).unwrap();
    assert!(events.is_empty());
    assert!(after.locked_notes.is_locked_for_service(&note_id, &ServiceType::BlendNetwork));
    assert_eq!(
        after.declarations.get(&declaration_id(&op)),
        Some(&Declaration { created: 12, message: op.clone() })
    );
    assert!(!after.declarations.contains_key(&note_id));
    let too_much = SDPDeclareExecutionContext {
        min_stake: MinStake { threshold: 101, timestamp: 0 },
        ..context()
    };
    assert_eq!(
        op.execute(too_much, declaration_id, lock),
        Err(SdpError::UnexpectedError)
    );
}
