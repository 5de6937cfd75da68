//! Declaring a service.

use vstd::prelude::*;

use crate::mantle::frozen_notes::FrozenNotes;
use crate::mantle::ledger::{Events, Utxos};
use crate::mantle::primitives::{
    Ed25519PublicKey, Ed25519Signature, Note, NoteId, TxHash, Value, ZkPublicKey,
};
use crate::sdp::declarations::Declarations;
use crate::sdp::{
    Declaration, DeclarationId, DeclarationMessage, DeclarationView, LockedNotes, MessageView,
    MinStake, ServiceType,
};

verus! {

/// The most addresses that a declaration gives.
pub const MAX_DECLARATION_LOCATOR: usize = 8;

/// Declares a service.
pub type SDPDeclareOp = DeclarationMessage;

/// Why a declaration is refused.
#[derive(Debug, Clone, Copy, PartialEq, Eq)]
pub enum SdpError {
    DuplicateDeclaration(DeclarationId),
    TooMuchLocators,
    NoteFrozen { note_id: NoteId },
    NoteInsufficientValue { note_id: NoteId, value: Value },
    NoteAlreadyUsedForService { note_id: NoteId, service_type: ServiceType },
    InexistingNote(NoteId),
    InvalidZkSignature,
    InvalidEddsaSignature,
    UnexpectedError,
}

/// What the validity of a declaration depends on. `S` is the type of signatures
/// by the owners of notes.
pub struct SDPDeclareValidationContext<'a, S> {
    pub utxo_tree: &'a Utxos,
    pub locked_notes: &'a LockedNotes,
    pub frozen_notes: &'a FrozenNotes,
    pub tx_hash: &'a TxHash,
    pub declare_zk_sig: &'a S,
    pub declare_eddsa_sig: &'a Ed25519Signature,
    pub declarations: &'a Declarations,
    pub min_stake: &'a MinStake,
}

/// What the validity of a declaration in the genesis block depends on, which
/// nobody signs.
pub struct SDPDeclareGenesisValidationContext<'a> {
    pub utxo_tree: &'a Utxos,
    pub locked_notes: &'a LockedNotes,
    pub frozen_notes: &'a FrozenNotes,
    pub declarations: &'a Declarations,
    pub min_stake: &'a MinStake,
}

/// What a declaration changes.
#[derive(Debug, PartialEq, Eq)]
pub struct SDPDeclareExecutionContext {
    pub utxo_tree: Utxos,
    pub block_number: u64,
    pub declarations: Declarations,
    pub locked_notes: LockedNotes,
    pub min_stake: MinStake,
}

/// Why a declaration with this identifier and collateral is refused, whoever
/// signed it.
pub open spec fn declare_refusal(
    op: MessageView,
    id: DeclarationId,
    note: Note,
    declarations: Map<DeclarationId, DeclarationView>,
    locked_notes: Set<(NoteId, ServiceType)>,
    frozen_notes: Map<NoteId, Note>,
    min_stake: MinStake,
) -> Option<SdpError> {
    if declarations.contains_key(id) {
        Some(SdpError::DuplicateDeclaration(id))
    } else if op.locators.len() > MAX_DECLARATION_LOCATOR {
        Some(SdpError::TooMuchLocators)
    } else if frozen_notes.contains_key(op.locked_note_id) {
        Some(SdpError::NoteFrozen { note_id: op.locked_note_id })
    } else if note.value < min_stake.threshold {
        Some(SdpError::NoteInsufficientValue { note_id: op.locked_note_id, value: note.value })
    } else if locked_notes.contains((op.locked_note_id, op.service_type)) {
        Some(
            SdpError::NoteAlreadyUsedForService {
                note_id: op.locked_note_id,
                service_type: op.service_type,
            },
        )
    } else {
        None
    }
}

/// `r` is the verdict on a declaration with this refusal.
pub open spec fn verdict(r: Result<(), SdpError>, refusal: Option<SdpError>) -> bool {
    match r {
        Ok(()) => refusal is None,
        Err(e) => refusal == Some(e),
    }
}

impl DeclarationMessage {
    /// Whether the declaration may go ahead as far as its collateral and its
    /// addresses go.
    fn check<D: Fn(&DeclarationMessage) -> DeclarationId>(
        &self,
        note: Note,
        declarations: &Declarations,
        locked_notes: &LockedNotes,
        frozen_notes: &FrozenNotes,
        min_stake: &MinStake,
        declaration_id: &D,
    ) -> (r: Result<(), SdpError>)
        requires
            call_requires(*declaration_id, (self,)),
        ensures
            exists|id: DeclarationId| #[trigger]
                call_ensures(*declaration_id, (self,), id) && verdict(
                    r,
                    declare_refusal(
                        self@,
                        id,
                        note,
                        declarations@,
                        locked_notes@,
                        frozen_notes@,
                        *min_stake,
                    ),
                ),
    {
        let id: DeclarationId = declaration_id(self);
        if declarations.contains_key(&id) {
            return Err(SdpError::DuplicateDeclaration(id));
        }
        if self.locators.len() > MAX_DECLARATION_LOCATOR {
            return Err(SdpError::TooMuchLocators);
        }
        if frozen_notes.contains(&self.locked_note_id) {
            return Err(SdpError::NoteFrozen { note_id: self.locked_note_id });
        }
        if note.value < min_stake.threshold {
            return Err(
                SdpError::NoteInsufficientValue {
                    note_id: self.locked_note_id,
                    value: note.value,
                },
            );
        }
        if locked_notes.is_locked_for_service(&self.locked_note_id, &self.service_type) {
            return Err(
                SdpError::NoteAlreadyUsedForService {
                    note_id: self.locked_note_id,
                    service_type: self.service_type,
                },
            );
        }
        Ok(())
    }

    /// Whether the declaration may go ahead: its collateral is on the ledger, the
    /// owners of the collateral and of `zk_id` have signed, so has the provider,
    /// and nothing else speaks against it. `verify_multi` says whether a
    /// signature is by both of two keys, `verify` whether one is by a key, and
    /// `declaration_id` gives the declaration its identifier.
    pub fn validate<
        S,
        M: Fn(&[ZkPublicKey; 2], &TxHash, &S) -> bool,
        V: Fn(&Ed25519PublicKey, &TxHash, &Ed25519Signature) -> bool,
        D: Fn(&DeclarationMessage) -> DeclarationId,
    >(
        &self,
        ctx: &SDPDeclareValidationContext<'_, S>,
        verify_multi: M,
        verify: V,
        declaration_id: D,
    ) -> (r: Result<(), SdpError>)
        requires
            forall|pks: &[ZkPublicKey; 2]| #[trigger]
                call_requires(verify_multi, (pks, ctx.tx_hash, ctx.declare_zk_sig)),
            call_requires(verify, (&self.provider_id.0, ctx.tx_hash, ctx.declare_eddsa_sig)),
            call_requires(declaration_id, (self,)),
        ensures
            ({
                let utxos = ctx.utxo_tree@;
                let note = utxos[self.locked_note_id].note;
                let known = utxos.contains_key(self.locked_note_id);
                let owners = [note.pk, self.zk_id];
                let provider = (&self.provider_id.0, ctx.tx_hash, ctx.declare_eddsa_sig);
                let by_owners = (&owners, ctx.tx_hash, ctx.declare_zk_sig);
                if !known {
                    r == Err::<(), SdpError>(SdpError::InexistingNote(self.locked_note_id))
                } else {
                    ||| r == Err::<(), SdpError>(SdpError::InvalidZkSignature) && call_ensures(
                        verify_multi,
                        by_owners,
                        false,
                    )
                    ||| r == Err::<(), SdpError>(SdpError::InvalidEddsaSignature) && call_ensures(
                        verify_multi,
                        by_owners,
                        true,
                    ) && call_ensures(verify, provider, false)
                    ||| {
                        &&& call_ensures(verify_multi, by_owners, true)
                        &&& call_ensures(verify, provider, true)
                        &&& exists|id: DeclarationId| #[trigger]
                            call_ensures(declaration_id, (self,), id) && verdict(
                                r,
                                declare_refusal(
                                    self@,
                                    id,
                                    note,
                                    ctx.declarations@,
                                    ctx.locked_notes@,
                                    ctx.frozen_notes@,
                                    *ctx.min_stake,
                                ),
                            )
                    }
                }
            }),
    {
        let note: Note = match ctx.utxo_tree.get(&self.locked_note_id) {
            Some(utxo) => utxo.note,
            None => return Err(SdpError::InexistingNote(self.locked_note_id)),
        };
        let owners: [ZkPublicKey; 2] = [note.pk, self.zk_id];
        assert(owners =~= [ctx.utxo_tree@[self.locked_note_id].note.pk, self.zk_id]);
        if !verify_multi(&owners, ctx.tx_hash, ctx.declare_zk_sig) {
            return Err(SdpError::InvalidZkSignature);
        }
        if !verify(&self.provider_id.0, ctx.tx_hash, ctx.declare_eddsa_sig) {
            return Err(SdpError::InvalidEddsaSignature);
        }
        self.check(
            note,
            ctx.declarations,
            ctx.locked_notes,
            ctx.frozen_notes,
            ctx.min_stake,
            &declaration_id,
        )
    }

    /// Whether the declaration may stand in the genesis block: its collateral is
    /// on the ledger, and nothing else speaks against it.
    pub fn validate_genesis<D: Fn(&DeclarationMessage) -> DeclarationId>(
        &self,
        ctx: &SDPDeclareGenesisValidationContext<'_>,
        declaration_id: D,
    ) -> (r: Result<(), SdpError>)
        requires
            call_requires(declaration_id, (self,)),
        ensures
            if !ctx.utxo_tree@.contains_key(self.locked_note_id) {
                r == Err::<(), SdpError>(SdpError::InexistingNote(self.locked_note_id))
            } else {
                exists|id: DeclarationId| #[trigger]
                    call_ensures(declaration_id, (self,), id) && verdict(
                        r,
                        declare_refusal(
                            self@,
                            id,
                            ctx.utxo_tree@[self.locked_note_id].note,
                            ctx.declarations@,
                            ctx.locked_notes@,
                            ctx.frozen_notes@,
                            *ctx.min_stake,
                        ),
                    )
            },
    {
        let note: Note = match ctx.utxo_tree.get(&self.locked_note_id) {
            Some(utxo) => utxo.note,
            None => return Err(SdpError::InexistingNote(self.locked_note_id)),
        };
        self.check(
            note,
            ctx.declarations,
            ctx.locked_notes,
            ctx.frozen_notes,
            ctx.min_stake,
            &declaration_id,
        )
    }

    /// Puts the declaration on record and locks its collateral, which `lock`
    /// does. What a lock's failure says is dropped.
    pub fn execute<
        E,
        D: Fn(&DeclarationMessage) -> DeclarationId,
        L: Fn(LockedNotes, &MinStake, ServiceType, Note, &NoteId) -> Result<LockedNotes, E>,
    >(&self, ctx: SDPDeclareExecutionContext, declaration_id: D, lock: L) -> (r: Result<
        (SDPDeclareExecutionContext, Events),
        SdpError,
    >)
        requires
            ctx.utxo_tree@.contains_key(self.locked_note_id),
            call_requires(declaration_id, (self,)),
            call_requires(
                lock,
                (
                    ctx.locked_notes,
                    &ctx.min_stake,
                    self.service_type,
                    ctx.utxo_tree@[self.locked_note_id].note,
                    &self.locked_note_id,
                ),
            ),
        ensures
            ({
                let arguments = (
                    ctx.locked_notes,
                    &ctx.min_stake,
                    self.service_type,
                    ctx.utxo_tree@[self.locked_note_id].note,
                    &self.locked_note_id,
                );
                match r {
                    Ok((after, events)) => {
                        &&& exists|id: DeclarationId| #[trigger]
                            call_ensures(declaration_id, (self,), id) && after.declarations@
                                == ctx.declarations@.insert(
                                id,
                                DeclarationView { created: ctx.block_number, message: self@ },
                            )
                        &&& call_ensures(
                            lock,
                            arguments,
                            Ok::<LockedNotes, E>(after.locked_notes),
                        )
                        &&& after.utxo_tree == ctx.utxo_tree
                        &&& after.block_number == ctx.block_number
                        &&& after.min_stake == ctx.min_stake
                        &&& events@.len() == 0
                    },
                    Err(e) => e == SdpError::UnexpectedError && exists|fault: E| #[trigger]
                        call_ensures(lock, arguments, Err::<LockedNotes, E>(fault)),
                }
            }),
    {
        let id: DeclarationId = declaration_id(self);
        let declarations = ctx.declarations.insert(id, Declaration::new(ctx.block_number, self));
        let note: Note = match ctx.utxo_tree.get(&self.locked_note_id) {
            Some(utxo) => utxo.note,
            None => return Err(SdpError::UnexpectedError),
        };
        match lock(
            ctx.locked_notes,
            &ctx.min_stake,
            self.service_type,
            note,
            &self.locked_note_id,
        ) {
            Err(_) => Err(SdpError::UnexpectedError),
            Ok(locked_notes) => Ok(
                (
                    SDPDeclareExecutionContext {
                        utxo_tree: ctx.utxo_tree,
                        block_number: ctx.block_number,
                        declarations,
                        locked_notes,
                        min_stake: ctx.min_stake,
                    },
                    Vec::new(),
                ),
            ),
        }
    }
}

/// A declaration on record is refused the second time.
pub proof fn declaration_cannot_be_repeated(
    op: MessageView,
    id: DeclarationId,
    note: Note,
    created: u64,
    declarations: Map<DeclarationId, DeclarationView>,
    locked_notes: Set<(NoteId, ServiceType)>,
    frozen_notes: Map<NoteId, Note>,
    min_stake: MinStake,
)
    ensures
        declare_refusal(
            op,
            id,
            note,
            declarations.insert(id, DeclarationView { created, message: op }),
            locked_notes,
            frozen_notes,
            min_stake,
        ) == Some(SdpError::DuplicateDeclaration(id)),
{
}

/// A frozen note is no collateral.
pub proof fn frozen_note_is_no_collateral(
    op: MessageView,
    id: DeclarationId,
    note: Note,
    declarations: Map<DeclarationId, DeclarationView>,
    locked_notes: Set<(NoteId, ServiceType)>,
    frozen_notes: Map<NoteId, Note>,
    min_stake: MinStake,
)
    requires
        frozen_notes.contains_key(op.locked_note_id),
    ensures
        declare_refusal(op, id, note, declarations, locked_notes, frozen_notes, min_stake) is Some,
{
}

} // verus!
