//! Signatures of several of a channel's accredited keys over one transaction.

use vstd::prelude::*;

use crate::mantle::ops::channel::config::Keys;
use crate::mantle::primitives::{ChannelKeyIndex, Ed25519PublicKey, Ed25519Signature, TxHash};

verus! {

/// A signature, and the index of the accredited key that it is by.
#[derive(Clone, Copy, Debug, PartialEq, Eq, Hash)]
pub struct IndexedSignature {
    pub channel_key_index: ChannelKeyIndex,
    pub signature: Ed25519Signature,
}

/// Two signatures claim the same key.
#[derive(Clone, Copy, Debug, PartialEq, Eq, Structural)]
pub struct DuplicateKeyIndex(pub ChannelKeyIndex);

/// Signatures by different accredited keys.
#[derive(Debug, PartialEq, Eq)]
pub struct ChannelMultiSigProof {
    signatures: Vec<IndexedSignature>,
}

/// No two of these signatures claim the same key.
pub open spec fn distinct_signers(signatures: Seq<IndexedSignature>) -> bool {
    forall|i: int, j: int|
        0 <= i < j < signatures.len() ==> (#[trigger] signatures[i]).channel_key_index != (
        #[trigger] signatures[j]).channel_key_index
}

impl View for ChannelMultiSigProof {
    type V = Seq<IndexedSignature>;

    closed spec fn view(&self) -> Seq<IndexedSignature> {
        self.signatures@
    }
}

impl Clone for ChannelMultiSigProof {
    fn clone(&self) -> (r: Self)
        ensures
            r@ == self@,
    {
        proof {
            use_type_invariant(self);
        }
        let signatures: Vec<IndexedSignature> = self.signatures.clone();
        assert(signatures@ =~= self.signatures@);
        Self { signatures }
    }
}

impl ChannelMultiSigProof {
    #[verifier::type_invariant]
    spec fn signers_differ(&self) -> bool {
        distinct_signers(self.signatures@)
    }

    /// Takes the signatures unless two of them claim the same key.
    pub fn new(signatures: Vec<IndexedSignature>) -> (r: Result<Self, DuplicateKeyIndex>)
        ensures
            match r {
                Ok(proof_of_keys) => distinct_signers(signatures@) && proof_of_keys@ == signatures@,
                Err(DuplicateKeyIndex(index)) => exists|i: int, j: int|
                    0 <= i < j < signatures@.len() && (#[trigger] signatures@[i]).channel_key_index
                        == index && (#[trigger] signatures@[j]).channel_key_index == index,
            },
    {
        let mut j: usize = 0;
        while j < signatures.len()
            invariant
                j <= signatures@.len(),
                distinct_signers(signatures@.take(j as int)),
            decreases signatures@.len() - j,
        {
            let index: ChannelKeyIndex = signatures[j].channel_key_index;
            let mut i: usize = 0;
            while i < j
                invariant
                    i <= j < signatures@.len(),
                    index == signatures@[j as int].channel_key_index,
                    forall|k: int| 0 <= k < i ==> (#[trigger] signatures@[k]).channel_key_index != index,
                decreases j - i,
            {
                if signatures[i].channel_key_index == index {
                    assert(signatures@[i as int].channel_key_index == index
                        && signatures@[j as int].channel_key_index == index);
                    return Err(DuplicateKeyIndex(index));
                }
                i = i + 1;
            }
            j = j + 1;
            assert forall|a: int, b: int| 0 <= a < b < j implies (
            #[trigger] signatures@.take(j as int)[a]).channel_key_index != (
            #[trigger] signatures@.take(j as int)[b]).channel_key_index by {
                if b < j - 1 {
                    assert(signatures@.take(j - 1)[a] == signatures@[a]);
                    assert(signatures@.take(j - 1)[b] == signatures@[b]);
                }
            }
        }
        assert(signatures@.take(j as int) =~= signatures@);
        Ok(Self { signatures })
    }

    /// The signatures, in the order in which they were given.
    #[must_use]
    pub fn signatures(&self) -> (r: &[IndexedSignature])
        ensures
            r@ == self@,
            distinct_signers(r@),
    {
        proof {
            use_type_invariant(self);
        }
        self.signatures.as_slice()
    }
}

/// Why the signatures do not stand, and which of them is the first that does not.
#[derive(Clone, Copy, Debug, PartialEq, Eq, Structural)]
pub enum SignatureFault {
    /// The signature claims a key that there is not.
    NoSuchKey(usize),
    /// The signature is not by the key that it claims.
    Rejected(usize),
}

/// The key that the signature claims is there, and `verify` can say `verdict` of
/// the signature.
pub open spec fn judged<V: Fn(&Ed25519PublicKey, &TxHash, &Ed25519Signature) -> bool>(
    verify: V,
    keys: Seq<Ed25519PublicKey>,
    tx_hash: TxHash,
    signature: IndexedSignature,
    verdict: bool,
) -> bool {
    &&& signature.channel_key_index < keys.len()
    &&& call_ensures(
        verify,
        (&keys[signature.channel_key_index as int], &tx_hash, &signature.signature),
        verdict,
    )
}

/// The first `n` signatures stand.
pub open spec fn stand<V: Fn(&Ed25519PublicKey, &TxHash, &Ed25519Signature) -> bool>(
    verify: V,
    keys: Seq<Ed25519PublicKey>,
    tx_hash: TxHash,
    signatures: Seq<IndexedSignature>,
    n: int,
) -> bool {
    forall|i: int| 0 <= i < n ==> judged(verify, keys, tx_hash, #[trigger] signatures[i], true)
}

/// Checks signatures in their order, up to the first that does not stand.
pub fn check_signatures<V: Fn(&Ed25519PublicKey, &TxHash, &Ed25519Signature) -> bool>(
    keys: &Keys,
    tx_hash: &TxHash,
    signatures: &[IndexedSignature],
    verify: &V,
) -> (r: Result<(), SignatureFault>)
    requires
        forall|key: &Ed25519PublicKey, hash: &TxHash, signature: &Ed25519Signature| #[trigger]
            call_requires(*verify, (key, hash, signature)),
    ensures
        match r {
            Ok(()) => stand(*verify, keys@, *tx_hash, signatures@, signatures@.len() as int),
            Err(SignatureFault::NoSuchKey(i)) => {
                &&& i < signatures@.len()
                &&& stand(*verify, keys@, *tx_hash, signatures@, i as int)
                &&& signatures@[i as int].channel_key_index >= keys@.len()
            },
            Err(SignatureFault::Rejected(i)) => {
                &&& i < signatures@.len()
                &&& stand(*verify, keys@, *tx_hash, signatures@, i as int)
                &&& judged(*verify, keys@, *tx_hash, signatures@[i as int], false)
            },
        },
{
    let mut i: usize = 0;
    while i < signatures.len()
        invariant
            i <= signatures@.len(),
            stand(*verify, keys@, *tx_hash, signatures@, i as int),
            forall|key: &Ed25519PublicKey, hash: &TxHash, signature: &Ed25519Signature| #[trigger]
                call_requires(*verify, (key, hash, signature)),
        decreases signatures@.len() - i,
    {
        match keys.get(signatures[i].channel_key_index as usize) {
            None => return Err(SignatureFault::NoSuchKey(i)),
            Some(key) => {
                if !verify(key, tx_hash, &signatures[i].signature) {
                    return Err(SignatureFault::Rejected(i));
                }
            },
        }
        i = i + 1;
    }
    Ok(())
}

} // verus!
