//! The messages by which a leader hands its block proposals to the Blend
//! service.

use vstd::prelude::*;

use crate::blend::edge::NetworkMessage;

verus! {

/// What a leader asks of the Blend service.
#[derive(Debug, PartialEq, Eq)]
pub enum ServiceMessage<S> {
    /// Blend a message, then broadcast it.
    Blend(NetworkMessage<S>),
    /// Broadcast a message in the clear.
    Broadcast(NetworkMessage<S>),
}

/// What goes over the chain's network. `P` is the type of block proposals.
#[derive(Debug, PartialEq, Eq)]
pub enum ChainNetworkMessage<P> {
    Proposal(P),
}

/// Makes requests to the Blend service.
#[derive(Debug)]
pub struct BlendAdapter<S> {
    broadcast_settings: S,
}

impl<S: Clone> BlendAdapter<S> {
    /// How messages are broadcast.
    pub closed spec fn settings(&self) -> S {
        self.broadcast_settings
    }

    /// Makes requests with these settings.
    #[must_use]
    pub fn new(broadcast_settings: S) -> (r: Self)
        ensures
            r.settings() == broadcast_settings,
    {
        Self { broadcast_settings }
    }

    /// The request to blend a proposal. `to_bytes` makes the bytes of what goes over
    /// the chain's network.
    #[must_use]
    pub fn blend_proposal<P, F: FnOnce(&ChainNetworkMessage<P>) -> Vec<u8>>(
        &self,
        proposal: P,
        to_bytes: F,
    ) -> (r: ServiceMessage<S>)
        requires
            call_requires(to_bytes, (&ChainNetworkMessage::Proposal(proposal),)),
        ensures
            r matches ServiceMessage::Blend(request) && call_ensures(
                to_bytes,
                (&ChainNetworkMessage::Proposal(proposal),),
                request.message,
            ) && cloned(self.settings(), request.broadcast_settings),
    {
        ServiceMessage::Blend(
            NetworkMessage {
                message: to_bytes(&ChainNetworkMessage::Proposal(proposal)),
                broadcast_settings: self.broadcast_settings.clone(),
            },
        )
    }

    /// The request to broadcast a proposal in the clear. `to_bytes` makes the bytes
    /// of what goes over the chain's network.
    #[must_use]
    pub fn broadcast_proposal<P, F: FnOnce(&ChainNetworkMessage<P>) -> Vec<u8>>(
        &self,
        proposal: P,
        to_bytes: F,
    ) -> (r: ServiceMessage<S>)
        requires
            call_requires(to_bytes, (&ChainNetworkMessage::Proposal(proposal),)),
        ensures
            r matches ServiceMessage::Broadcast(request) && call_ensures(
                to_bytes,
                (&ChainNetworkMessage::Proposal(proposal),),
                request.message,
            ) && cloned(self.settings(), request.broadcast_settings),
    {
        ServiceMessage::Broadcast(
            NetworkMessage {
                message: to_bytes(&ChainNetworkMessage::Proposal(proposal)),
                broadcast_settings: self.broadcast_settings.clone(),
            },
        )
    }
}

} // verus!
