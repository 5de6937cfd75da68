//! The declaration of services: who provides one, and with which note locked as
//! collateral.

use vstd::prelude::*;

use crate::crypto::same_bytes;
use crate::mantle::primitives::{Ed25519PublicKey, NoteId, Value, ZkPublicKey};

pub mod declarations;

verus! {

/// A service that notes are locked for.
#[derive(Clone, Copy, Debug, PartialEq, Eq, Hash, Structural)]
#[non_exhaustive]
pub enum ServiceType {
    BlendNetwork,
}

/// Identifier of a declaration.
pub type DeclarationId = [u8; 32];

/// The key under which a provider is known.
#[derive(Clone, Copy, Debug, PartialEq, Eq, Hash)]
pub struct ProviderId(pub Ed25519PublicKey);

/// An address at which a provider can be reached, as text.
#[derive(Debug, PartialEq, Eq, Hash)]
pub struct Locator(pub String);

impl View for Locator {
    type V = Seq<char>;

    open spec fn view(&self) -> Seq<char> {
        self.0@
    }
}

impl Clone for Locator {
    fn clone(&self) -> (r: Self)
        ensures
            r@ == self@,
    {
        Self(self.0.clone())
    }
}

impl Locator {
    /// The address.
    #[must_use]
    pub fn into_inner(self) -> (r: String)
        ensures
            r@ == self@,
    {
        self.0
    }
}

/// The addresses in a list, as text.
pub open spec fn addresses(locators: Seq<Locator>) -> Seq<Seq<char>> {
    locators.map_values(|locator: Locator| locator@)
}

/// The text of a list of addresses is that of each address, in their order.
pub proof fn addresses_are_those_listed(locators: Seq<Locator>)
    ensures
        addresses(locators).len() == locators.len(),
        forall|i: int| 0 <= i < locators.len() ==> #[trigger] addresses(locators)[i] == locators[i]@,
{
}

/// A copy of a list of addresses.
pub fn clone_locators(locators: &[Locator]) -> (r: Vec<Locator>)
    ensures
        addresses(r@) == addresses(locators@),
{
    let mut copy: Vec<Locator> = Vec::new();
    let mut i: usize = 0;
    while i < locators.len()
        invariant
            i <= locators@.len(),
            addresses(copy@) == addresses(locators@.take(i as int)),
        decreases locators@.len() - i,
    {
        let ghost before = copy@;
        copy.push(locators[i].clone());
        i = i + 1;
        assert(addresses(copy@) =~= addresses(before).push(locators@[i - 1]@));
        assert(addresses(locators@.take(i as int)) =~= addresses(locators@.take(i - 1)).push(
            locators@[i - 1]@,
        ));
    }
    assert(locators@.take(i as int) =~= locators@);
    copy
}

/// The offer to provide a service, with a note as collateral.
#[derive(Debug, PartialEq, Eq, Hash)]
pub struct DeclarationMessage {
    pub service_type: ServiceType,
    pub locators: Vec<Locator>,
    pub provider_id: ProviderId,
    pub zk_id: ZkPublicKey,
    pub locked_note_id: NoteId,
}

/// What a [`DeclarationMessage`] says.
#[verifier::ext_equal]
pub struct MessageView {
    pub service_type: ServiceType,
    pub locators: Seq<Seq<char>>,
    pub provider_id: ProviderId,
    pub zk_id: ZkPublicKey,
    pub locked_note_id: NoteId,
}

impl View for DeclarationMessage {
    type V = MessageView;

    open spec fn view(&self) -> MessageView {
        MessageView {
            service_type: self.service_type,
            locators: addresses(self.locators@),
            provider_id: self.provider_id,
            zk_id: self.zk_id,
            locked_note_id: self.locked_note_id,
        }
    }
}

impl Clone for DeclarationMessage {
    fn clone(&self) -> (r: Self)
        ensures
            r@ == self@,
    {
        Self {
            service_type: self.service_type,
            locators: clone_locators(self.locators.as_slice()),
            provider_id: self.provider_id,
            zk_id: self.zk_id,
            locked_note_id: self.locked_note_id,
        }
    }
}

/// A declaration on record, and the block that put it there.
#[derive(Debug, PartialEq, Eq)]
pub struct Declaration {
    pub created: u64,
    pub message: DeclarationMessage,
}

/// What a [`Declaration`] says.
#[verifier::ext_equal]
pub struct DeclarationView {
    pub created: u64,
    pub message: MessageView,
}

impl View for Declaration {
    type V = DeclarationView;

    open spec fn view(&self) -> DeclarationView {
        DeclarationView { created: self.created, message: self.message@ }
    }
}

impl Clone for Declaration {
    fn clone(&self) -> (r: Self)
        ensures
            r@ == self@,
    {
        Self { created: self.created, message: self.message.clone() }
    }
}

impl Declaration {
    /// Puts a message on record.
    #[must_use]
    pub fn new(block_number: u64, message: &DeclarationMessage) -> (r: Self)
        ensures
            r@ == (DeclarationView { created: block_number, message: message@ }),
    {
        Self { created: block_number, message: message.clone() }
    }
}

/// What a note has to be worth to be locked for a service.
#[derive(Clone, Copy, Debug, PartialEq, Eq, Structural)]
pub struct MinStake {
    pub threshold: Value,
    pub timestamp: u64,
}

/// Which notes are locked for which services.
#[derive(Debug, PartialEq, Eq)]
pub struct LockedNotes {
    locks: Vec<(NoteId, ServiceType)>,
}

impl View for LockedNotes {
    type V = Set<(NoteId, ServiceType)>;

    closed spec fn view(&self) -> Set<(NoteId, ServiceType)> {
        self.locks@.to_set()
    }
}

impl LockedNotes {
    /// No note is locked.
    #[must_use]
    pub fn new() -> (r: Self)
        ensures
            r@ == Set::<(NoteId, ServiceType)>::empty(),
    {
        let locks: Vec<(NoteId, ServiceType)> = Vec::new();
        assert(locks@.to_set() =~= Set::empty());
        Self { locks }
    }

    /// Whether a note is locked for a service.
    #[must_use]
    pub fn is_locked_for_service(&self, note_id: &NoteId, service_type: &ServiceType) -> (r: bool)
        ensures
            r == self@.contains((*note_id, *service_type)),
    {
        let mut i: usize = 0;
        while i < self.locks.len()
            invariant
                i <= self.locks@.len(),
                forall|j: int| 0 <= j < i ==> self.locks@[j] != (*note_id, *service_type),
            decreases self.locks@.len() - i,
        {
            if same_bytes(&self.locks[i].0, note_id) && self.locks[i].1 == *service_type {
                assert(self.locks@[i as int] == (*note_id, *service_type));
                return true;
            }
            i = i + 1;
        }
        false
    }

    /// The locks with one more.
    #[must_use]
    pub fn with_lock(self, note_id: NoteId, service_type: ServiceType) -> (r: Self)
        ensures
            r@ == self@.insert((note_id, service_type)),
    {
        let ghost before = self.locks@;
        let mut locks = self.locks;
        locks.push((note_id, service_type));
        assert(locks@.to_set() =~= before.to_set().insert((note_id, service_type))) by {
            assert forall|lock: (NoteId, ServiceType)|
                #[trigger] locks@.to_set().contains(lock) <==> before.to_set().insert(
                    (note_id, service_type),
                ).contains(lock) by {
                if before.contains(lock) {
                    let i = choose|i: int| 0 <= i < before.len() && before[i] == lock;
                    assert(locks@[i] == lock);
                }
                assert(locks@[before.len() as int] == (note_id, service_type));
            }
        }
        Self { locks }
    }
}

} // verus!
