//! The proofs of leadership quota that a node attaches to the layers of its
//! messages: with which inputs they are made, and in which order.

use vstd::prelude::*;

use crate::mantle::primitives::{Ed25519PublicKey, Epoch};

verus! {

/// A field element, in its encoding.
pub type FieldElement = [u8; 32];

/// What proofs of leadership quota are made and checked against.
#[derive(Clone, Copy, Debug, PartialEq, Eq)]
pub struct LeaderInputs {
    pub lottery_0: FieldElement,
    pub lottery_1: FieldElement,
    pub pol_epoch_nonce: FieldElement,
    pub pol_ledger_aged: FieldElement,
    /// How many proofs one winning slot is good for.
    pub message_quota: u64,
}

/// What proofs of core quota are made and checked against.
#[derive(Clone, Copy, Debug, PartialEq, Eq)]
pub struct CoreInputs {
    pub quota: u64,
    pub zk_root: FieldElement,
}

/// What proofs of quota are made and checked against, but for the key that signs
/// the layer.
#[derive(Clone, Copy, Debug, PartialEq, Eq)]
pub struct PoQVerificationInputsMinusSigningKey {
    pub leader: LeaderInputs,
    pub core: CoreInputs,
    pub session: u64,
}

/// What a proof of quota is made and checked against.
#[derive(Clone, Copy, Debug, PartialEq, Eq)]
pub struct PublicInputs {
    pub signing_key: Ed25519PublicKey,
    pub core: CoreInputs,
    pub leader: LeaderInputs,
    pub session: u64,
}

impl PoQVerificationInputsMinusSigningKey {
    /// The inputs for a layer that is signed with this key.
    #[must_use]
    pub fn for_signing_key(&self, signing_key: Ed25519PublicKey) -> (r: PublicInputs)
        ensures
            r == (PublicInputs {
                signing_key,
                core: self.core,
                leader: self.leader,
                session: self.session,
            }),
    {
        PublicInputs {
            signing_key,
            core: self.core,
            leader: self.leader,
            session: self.session,
        }
    }
}

/// What a generator of proofs goes by.
#[derive(Clone, Copy, Debug, PartialEq, Eq)]
pub struct ProofsGeneratorSettings {
    pub public_inputs: PoQVerificationInputsMinusSigningKey,
    pub epoch: Epoch,
    pub membership_size: usize,
}

/// A proof for one layer of a message. `Q` is the type of proofs of quota, `S`
/// that of proofs of selection, `K` that of keys that sign.
#[derive(Debug)]
pub struct BlendLayerProof<Q, S, K> {
    pub proof_of_quota: Q,
    pub proof_of_selection: S,
    /// The key that signs the layer's payload.
    pub ephemeral_signing_key: K,
}

/// A proof that is to be made.
#[derive(Clone, Copy, Debug, PartialEq, Eq)]
pub struct ProofJob<P> {
    /// What the node knows of a winning slot.
    pub secret: P,
    /// Which of the proofs that the slot is good for this is.
    pub message_release_index: u64,
}

/// Decides which proofs of leadership quota are made, and in which order. `P` is
/// the type of what the node knows of a winning slot.
#[derive(Debug)]
pub struct RealLeaderProofsGenerator<P> {
    settings: ProofsGeneratorSettings,
    secret: Option<P>,
    next_index: u64,
}

/// The proofs that a winning slot is good for, from one on.
pub open spec fn jobs_from<P>(secret: P, index: u64, quota: u64) -> Seq<ProofJob<P>> {
    if index < quota {
        Seq::new(
            (quota - index) as nat,
            |i: int| ProofJob { secret, message_release_index: (index + i) as u64 },
        )
    } else {
        Seq::empty()
    }
}

impl<P: Copy> RealLeaderProofsGenerator<P> {
    /// What the generator goes by.
    pub closed spec fn goes_by(&self) -> ProofsGeneratorSettings {
        self.settings
    }

    /// The proofs that are still to be made before the next winning slot is
    /// taken up.
    pub closed spec fn due(&self) -> Seq<ProofJob<P>> {
        match self.secret {
            Some(secret) => jobs_from(
                secret,
                self.next_index,
                self.settings.public_inputs.leader.message_quota,
            ),
            None => Seq::empty(),
        }
    }

    /// A generator that has taken up no winning slot.
    #[must_use]
    pub fn new(settings: ProofsGeneratorSettings) -> (r: Self)
        ensures
            r.goes_by() == settings,
            r.due() == Seq::<ProofJob<P>>::empty(),
    {
        Self { settings, secret: None, next_index: 0 }
    }

    /// How many proofs are kept ready: as many as one winning slot is good for.
    #[must_use]
    pub fn buffer_size(&self) -> (r: usize)
        requires
            self.goes_by().public_inputs.leader.message_quota <= usize::MAX,
        ensures
            r == self.goes_by().public_inputs.leader.message_quota,
    {
        self.settings.public_inputs.leader.message_quota as usize
    }

    /// What the generator goes by.
    #[must_use]
    pub fn settings(&self) -> (r: &ProofsGeneratorSettings)
        ensures
            *r == self.goes_by(),
    {
        &self.settings
    }

    /// The epoch that proofs are made for.
    #[must_use]
    pub fn current_epoch(&self) -> (r: Epoch)
        ensures
            r == self.goes_by().epoch,
    {
        self.settings.epoch
    }

    /// Takes up a winning slot, which is good for the quota's number of proofs.
    pub fn accept_secret(&mut self, secret: P)
        ensures
            final(self).goes_by() == old(self).goes_by(),
            final(self).due() == jobs_from(
                secret,
                0,
                old(self).goes_by().public_inputs.leader.message_quota,
            ),
    {
        self.secret = Some(secret);
        self.next_index = 0;
    }

    /// The next proof to make, or nothing if the next winning slot is to be taken
    /// up.
    pub fn next_job(&mut self) -> (r: Option<ProofJob<P>>)
        ensures
            final(self).goes_by() == old(self).goes_by(),
            match r {
                Some(job) => old(self).due() == seq![job] + final(self).due(),
                None => old(self).due().len() == 0 && final(self).due().len() == 0,
            },
    {
        let ghost before = self.due();
        match self.secret {
            None => None,
            Some(secret) => {
                let index: u64 = self.next_index;
                if index < self.settings.public_inputs.leader.message_quota {
                    self.next_index = index + 1;
                    let job = ProofJob { secret, message_release_index: index };
                    assert(before =~= seq![job] + self.due());
                    Some(job)
                } else {
                    None
                }
            },
        }
    }

    /// Moves on to a new epoch in the same session: the inputs of leadership
    /// proofs and the epoch change, the session and the inputs of core proofs
    /// stay. Winning slots of the old epoch are dropped.
    pub fn rotate_epoch(&mut self, new_epoch_public: LeaderInputs, new_epoch: Epoch)
        ensures
            final(self).goes_by() == (ProofsGeneratorSettings {
                public_inputs: PoQVerificationInputsMinusSigningKey {
                    leader: new_epoch_public,
                    ..old(self).goes_by().public_inputs
                },
                epoch: new_epoch,
                ..old(self).goes_by()
            }),
            final(self).due() == Seq::<ProofJob<P>>::empty(),
    {
        self.settings.public_inputs.leader = new_epoch_public;
        self.settings.epoch = new_epoch;
        self.secret = None;
        self.next_index = 0;
    }
}

/// The proofs that a winning slot is good for have each index below the quota,
/// once and in ascending order.
pub proof fn each_release_index_once<P>(secret: P, quota: u64)
    ensures
        jobs_from(secret, 0, quota).len() == quota,
        forall|i: int|
            0 <= i < quota ==> (#[trigger] jobs_from(secret, 0, quota)[i]).message_release_index
                == i && jobs_from(secret, 0, quota)[i].secret == secret,
{
}

} // verus!
