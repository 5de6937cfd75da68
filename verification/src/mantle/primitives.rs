//! Identifiers, keys, notes and the two clocks of the chain.

use vstd::prelude::*;

verus! {

/// An amount of tokens.
pub type Value = u64;

/// Position of a key in a channel's list of accredited keys.
pub type ChannelKeyIndex = u16;

/// Identifier of a channel.
pub type ChannelId = [u8; 32];

/// Identifier of a channel message.
pub type MsgId = [u8; 32];

/// Identifier of a note on the ledger: a field element, in its encoding.
pub type NoteId = [u8; 32];

/// Public key that owns notes: a field element, in its encoding.
pub type ZkPublicKey = [u8; 32];

/// Public key that signs transactions.
pub type Ed25519PublicKey = [u8; 32];

/// Hash of a transaction, which is what its signers sign.
pub type TxHash = [u8; 32];

/// Identifier of the operation that put a note on the ledger.
pub type OperationId = [u8; 32];

/// An Ed25519 signature.
#[derive(Clone, Copy, Debug, PartialEq, Eq, Hash)]
pub struct Ed25519Signature(pub [u8; 64]);

/// Epoch number.
#[derive(Clone, Copy, Debug, PartialEq, Eq, PartialOrd, Ord, Hash, Structural)]
pub struct Epoch(pub u32);

/// Slot number.
#[derive(Clone, Copy, Debug, PartialEq, Eq, PartialOrd, Ord, Hash, Structural)]
pub struct Slot(pub u64);

/// An amount and the key that may spend it.
#[derive(Clone, Copy, Debug, PartialEq, Eq, Hash)]
pub struct Note {
    pub value: Value,
    pub pk: ZkPublicKey,
}

/// A note together with the operation that put it on the ledger.
#[derive(Clone, Copy, Debug, PartialEq, Eq, Hash)]
pub struct Utxo {
    pub op_id: OperationId,
    pub output_index: usize,
    pub note: Note,
}

impl Epoch {
    #[must_use]
    pub fn new(number: u32) -> (r: Self)
        ensures
            r.0 == number,
    {
        Self(number)
    }

    #[must_use]
    pub fn into_inner(self) -> (r: u32)
        ensures
            r == self.0,
    {
        self.0
    }
}

impl Slot {
    #[must_use]
    pub fn new(number: u64) -> (r: Self)
        ensures
            r.0 == number,
    {
        Self(number)
    }

    #[must_use]
    pub fn into_inner(self) -> (r: u64)
        ensures
            r == self.0,
    {
        self.0
    }
}

impl Note {
    #[must_use]
    pub fn new(value: Value, pk: ZkPublicKey) -> (r: Self)
        ensures
            r == (Note { value, pk }),
    {
        Self { value, pk }
    }
}

impl Utxo {
    #[must_use]
    pub fn new(op_id: OperationId, output_index: usize, note: Note) -> (r: Self)
        ensures
            r == (Utxo { op_id, output_index, note }),
    {
        Self { op_id, output_index, note }
    }
}

impl From<u32> for Epoch {
    fn from(number: u32) -> (r: Self) {
        Self(number)
    }
}

impl vstd::std_specs::convert::FromSpecImpl<u32> for Epoch {
    open spec fn obeys_from_spec() -> bool {
        true
    }

    open spec fn from_spec(number: u32) -> Self {
        Self(number)
    }
}

impl From<u64> for Slot {
    fn from(number: u64) -> (r: Self) {
        Self(number)
    }
}

impl vstd::std_specs::convert::FromSpecImpl<u64> for Slot {
    open spec fn obeys_from_spec() -> bool {
        true
    }

    open spec fn from_spec(number: u64) -> Self {
        Self(number)
    }
}

/// `ids` are identifiers that `note_id` gave to `utxos`, in their order.
pub open spec fn ids_given<F: Fn(&Utxo) -> NoteId>(
    note_id: F,
    utxos: Seq<Utxo>,
    ids: Seq<NoteId>,
) -> bool {
    &&& ids.len() == utxos.len()
    &&& forall|i: int|
        0 <= i < utxos.len() ==> call_ensures(note_id, (&#[trigger] utxos[i],), ids[i])
}

} // verus!
