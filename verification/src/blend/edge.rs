//! A node at the edge of the Blend network: it hands its own messages to the
//! network, and passes on nobody else's.

use vstd::prelude::*;

use crate::blend::epoch::{MembershipInfo, PolEpochInfo};
use crate::blend::leader_proofs::{CoreInputs, LeaderInputs, PoQVerificationInputsMinusSigningKey};
use crate::mantle::primitives::Epoch;

verus! {

/// A message, and how it is broadcast once the network has blended it.
#[derive(Debug, PartialEq, Eq)]
pub struct NetworkMessage<S> {
    pub message: Vec<u8>,
    pub broadcast_settings: S,
}

/// What a node tells about its part in the network. `C` is the type of what a
/// core node tells.
#[derive(Debug, PartialEq, Eq)]
pub struct NetworkInfo<N, C> {
    pub node_id: N,
    pub core_info: Option<C>,
}

/// What others ask of an edge node. `R` is the type of the place where an answer
/// goes.
pub enum ServiceMessage<S, R> {
    Blend(NetworkMessage<S>),
    GetNetworkInfo { reply: R },
}

/// What an edge node does about a request.
pub enum Inbound<N, C, R> {
    /// Blend these bytes.
    Blend(Vec<u8>),
    /// Answer this.
    Answer { reply: R, info: NetworkInfo<N, C> },
}

/// What an edge node does about a request: it blends a message's bytes, which
/// `to_bytes` makes, and answers that it is no core node.
pub fn route_request<S, N, C, R, F: FnOnce(&NetworkMessage<S>) -> Vec<u8>>(
    message: ServiceMessage<S, R>,
    local_node_id: N,
    to_bytes: F,
) -> (r: Inbound<N, C, R>)
    requires
        forall|message: &NetworkMessage<S>| #[trigger] call_requires(to_bytes, (message,)),
    ensures
        match message {
            ServiceMessage::Blend(message) => r matches Inbound::Blend(bytes) && call_ensures(
                to_bytes,
                (&message,),
                bytes,
            ),
            ServiceMessage::GetNetworkInfo { reply } => r == (Inbound::Answer {
                reply,
                info: NetworkInfo { node_id: local_node_id, core_info: None::<C> },
            }),
        },
{
    match message {
        ServiceMessage::Blend(message) => Inbound::Blend(to_bytes(&message)),
        ServiceMessage::GetNetworkInfo { reply } => Inbound::Answer {
            reply,
            info: NetworkInfo { node_id: local_node_id, core_info: None },
        },
    }
}

/// What is left of a handler for an epoch once another epoch has begun: nothing,
/// if that one is later.
pub open spec fn kept_in<H>(current: Option<(Epoch, H)>, epoch: Epoch) -> Option<(Epoch, H)> {
    match current {
        Some((current_epoch, handler)) => if current_epoch.0 < epoch.0 {
            None
        } else {
            Some((current_epoch, handler))
        },
        None => None,
    }
}

/// An edge node: the session that it is in, and what it handles messages with
/// while it has what it takes, beside the epoch that that is for. `N` is the type
/// of nodes' identifiers, `P` that of paths in the tree of members, `H` that of
/// handlers.
#[derive(Debug)]
pub struct EdgeNode<N, P, H> {
    pub session: MembershipInfo<N, P>,
    pub current: Option<(Epoch, H)>,
}

impl<N, P, H> EdgeNode<N, P, H> {
    /// A node in its first session, which cannot handle messages yet.
    /// `edge_condition` says whether the node is an edge node among the members;
    /// its error is handed on.
    pub fn start<E, C: FnOnce(&MembershipInfo<N, P>) -> Result<(), E>>(
        session: MembershipInfo<N, P>,
        edge_condition: C,
    ) -> (r: Result<Self, E>)
        requires
            call_requires(edge_condition, (&session,)),
        ensures
            match r {
                Ok(node) => {
                    &&& call_ensures(edge_condition, (&session,), Ok::<(), E>(()))
                    &&& node.session == session
                    &&& node.current is None
                },
                Err(e) => call_ensures(edge_condition, (&session,), Err::<(), E>(e)),
            },
    {
        let verdict: Result<(), E> = edge_condition(&session);
        match verdict {
            Ok(()) => {
                assert(verdict->Ok_0 == ());
                Ok(Self { session, current: None })
            },
            Err(e) => Err(e),
        }
    }

    /// The chain has moved on to an epoch. A handler for an earlier one is given
    /// up; one for this epoch or a later one is kept. The session stays.
    pub fn on_epoch(&mut self, epoch: Epoch)
        ensures
            final(self).session == old(self).session,
            final(self).current == kept_in(old(self).current, epoch),
    {
        let outdated: bool = match &self.current {
            Some((current_epoch, _)) => current_epoch.0 < epoch.0,
            None => false,
        };
        if outdated {
            self.current = None;
        }
    }

    /// The node has learned what it takes to handle messages in an epoch, or that
    /// it cannot: that replaces what it had. The session stays.
    pub fn on_secret_info(&mut self, new: Option<(Epoch, H)>)
        ensures
            final(self).session == old(self).session,
            final(self).current == new,
    {
        self.current = new;
    }

    /// A new session has begun. `edge_condition` says whether the node is an edge
    /// node among its members, whether or not there is a handler. If it is,
    /// `reset` makes a handler for the session, with what is known of the epoch,
    /// out of the one that there is; where there is none, there is none in the new
    /// session either. The error of either is handed on, and leaves no handler.
    pub fn on_session<
        E,
        C: FnOnce(&MembershipInfo<N, P>) -> Result<(), E>,
        F: FnOnce(Epoch, H, &MembershipInfo<N, P>) -> Result<H, E>,
    >(&mut self, session: MembershipInfo<N, P>, edge_condition: C, reset: F) -> (r: Result<(), E>)
        requires
            call_requires(edge_condition, (&session,)),
            old(self).current matches Some((epoch, handler)) ==> call_requires(
                reset,
                (epoch, handler, &session),
            ),
        ensures
            final(self).session == session,
            match r {
                Ok(_) => {
                    &&& call_ensures(edge_condition, (&session,), Ok::<(), E>(()))
                    &&& match old(self).current {
                        None => final(self).current is None,
                        Some((epoch, handler)) => final(self).current matches Some((kept, new))
                            && kept == epoch && call_ensures(
                            reset,
                            (epoch, handler, &session),
                            Ok::<H, E>(new),
                        ),
                    }
                },
                Err(e) => {
                    &&& final(self).current is None
                    &&& {
                        ||| call_ensures(edge_condition, (&session,), Err::<(), E>(e))
                        ||| {
                            &&& old(self).current matches Some((epoch, handler))
                            &&& call_ensures(edge_condition, (&session,), Ok::<(), E>(()))
                            &&& call_ensures(reset, (epoch, handler, &session), Err::<H, E>(e))
                        }
                    }
                },
            },
    {
        let verdict: Result<(), E> = edge_condition(&session);
        let current: Option<(Epoch, H)> = self.current.take();
        self.session = session;
        match verdict {
            Ok(()) => {},
            Err(e) => return Err(e),
        }
        assert(verdict->Ok_0 == ());
        match current {
            None => Ok(()),
            Some((epoch, handler)) => match reset(epoch, handler, &self.session) {
                Ok(new) => {
                    self.current = Some((epoch, new));
                    Ok(())
                },
                Err(e) => Err(e),
            },
        }
    }

    /// How often a message is to be blended: once more than the replication
    /// factor says, or not at all while there is no handler.
    #[must_use]
    pub fn message_copies(&self, data_replication_factor: u64) -> (r: u64)
        requires
            self.current is Some ==> data_replication_factor < u64::MAX,
        ensures
            r == if self.current is Some {
                data_replication_factor + 1
            } else {
                0
            },
    {
        match &self.current {
            Some(_) => data_replication_factor + 1,
            None => 0,
        }
    }
}

/// The epoch and the inputs of proofs that a node's knowledge of an epoch leads to
/// in the session that it is in, or nothing if there is no tree of the session's
/// members. `core_quota` says how many proofs a core node may make in a network of
/// a given size.
pub fn handle_new_secret_epoch_info<N, P, S, Q: FnOnce(usize) -> u64>(
    info: &PolEpochInfo<N, P, S>,
    session: &MembershipInfo<N, P>,
    message_quota: u64,
    core_quota: Q,
) -> (r: Option<(Epoch, PoQVerificationInputsMinusSigningKey)>)
    requires
        session.zk is Some ==> call_requires(core_quota, (session.membership.nodes.len(),)),
    ensures
        match session.zk {
            None => r is None,
            Some(zk) => {
                let public = info.poq_public_inputs;
                &&& r matches Some((epoch, inputs))
                &&& epoch == public.epoch
                &&& inputs.session == session.epoch_number
                &&& inputs.leader == (LeaderInputs {
                    lottery_0: public.lottery_0,
                    lottery_1: public.lottery_1,
                    pol_epoch_nonce: public.nonce,
                    pol_ledger_aged: public.aged_root,
                    message_quota,
                })
                &&& inputs.core.zk_root == zk.root
                &&& call_ensures(
                    core_quota,
                    (session.membership.nodes.len(),),
                    inputs.core.quota,
                )
            },
        },
{
    let public = &info.poq_public_inputs;
    match &session.zk {
        None => None,
        Some(zk) => {
            let quota: u64 = core_quota(session.membership.nodes.len());
            Some(
                (
                    public.epoch,
                    PoQVerificationInputsMinusSigningKey {
                        leader: LeaderInputs {
                            lottery_0: public.lottery_0,
                            lottery_1: public.lottery_1,
                            pol_epoch_nonce: public.nonce,
                            pol_ledger_aged: public.aged_root,
                            message_quota,
                        },
                        core: CoreInputs { quota, zk_root: zk.root },
                        session: session.epoch_number,
                    },
                ),
            )
        },
    }
}

/// What an edge node holds after the chain has moved through epochs one after
/// the other: a handler survives exactly while no later epoch than its own has
/// begun.
pub open spec fn survives<H>(current: Option<(Epoch, H)>, epochs: Seq<Epoch>) -> Option<(Epoch, H)>
    decreases epochs.len(),
{
    if epochs.len() == 0 {
        current
    } else {
        kept_in(survives(current, epochs.drop_last()), epochs.last())
    }
}

/// A handler is kept through any epochs up to its own, and given up at the first
/// later one. Epochs alone bring none about.
pub proof fn handler_lasts_through_its_epoch<H>(epoch: Epoch, handler: H, epochs: Seq<Epoch>)
    ensures
        survives(Some((epoch, handler)), epochs) == if forall|i: int|
            0 <= i < epochs.len() ==> (#[trigger] epochs[i]).0 <= epoch.0 {
            Some((epoch, handler))
        } else {
            None::<(Epoch, H)>
        },
        survives(None::<(Epoch, H)>, epochs) is None,
    decreases epochs.len(),
{
    if epochs.len() > 0 {
        let front = epochs.drop_last();
        handler_lasts_through_its_epoch(epoch, handler, front);
        assert(epochs[epochs.len() - 1] == epochs.last());
        assert(forall|i: int| 0 <= i < front.len() ==> #[trigger] front[i] == epochs[i]);
        if forall|i: int| 0 <= i < front.len() ==> (#[trigger] front[i]).0 <= epoch.0 {
            if epochs.last().0 <= epoch.0 {
                assert forall|i: int| 0 <= i < epochs.len() implies (#[trigger] epochs[i]).0
                    <= epoch.0 by {
                    if i < front.len() {
                        assert(front[i].0 <= epoch.0);
                    }
                }
            }
        } else {
            let i = choose|i: int| 0 <= i < front.len() && (#[trigger] front[i]).0 > epoch.0;
            assert(epochs[i].0 > epoch.0);
        }
    }
}

} // verus!
