//! What a cache of messages remembers, and what sessions keep of a message.

use vstd::prelude::*;

use crate::blend::epoch::{starts_epoch, SlotTick};
use crate::blend::message::MessageIdentifier;
use crate::blend::message_cache::{seen, sent_by, CacheView};
use crate::blend::session_message::{
    binds, DecapsulationOutput, SessionBoundDecapsulationOutput,
};
use crate::mantle::primitives::Epoch;

verus! {

/// A message is marked as sent by a peer exactly if it is among those that the
/// peer has sent, of which there are none without a record of the peer.
pub proof fn message_is_seen_if_its_peer_sent_it(
    cache: CacheView,
    peer: Seq<u8>,
    message: MessageIdentifier,
)
    ensures
        seen(cache, peer, message) <==> cache.received.contains_key(peer)
            && cache.received[peer].contains(message),
        sent_by(cache, peer).contains(message) <==> cache.received.contains_key(peer)
            && cache.received[peer].contains(message),
{
}

/// Marking a message as sent by a peer marks that message of that peer, and no
/// other message of any peer.
pub proof fn marking_a_message_marks_no_other(
    cache: CacheView,
    peer: Seq<u8>,
    message: MessageIdentifier,
    any_peer: Seq<u8>,
    any_message: MessageIdentifier,
)
    ensures
        ({
            let marked = CacheView {
                received: cache.received.insert(peer, sent_by(cache, peer).insert(message)),
                ..cache
            };
            seen(marked, any_peer, any_message) <==> seen(cache, any_peer, any_message) || any_peer
                == peer && any_message == message
        }),
{
}

/// What is left of a message stays in the session, with the token that was earned.
/// A message that is fully open is handed on with its token, and belongs to no
/// session.
pub proof fn what_is_left_stays_in_the_session<M, T>(
    bound: SessionBoundDecapsulationOutput<M, T>,
    output: DecapsulationOutput<M, T>,
    session: u64,
)
    requires
        binds(bound, output, session),
    ensures
        output is Incompleted <==> bound is Incompleted,
        output is Completed <==> bound is Completed,
        output is Incompleted ==> {
            &&& bound->Incompleted_remaining_encapsulated_message@.0
                == *output->Incompleted_remaining_encapsulated_message
            &&& bound->Incompleted_remaining_encapsulated_message@.1 == session
            &&& bound->Incompleted_blending_token == output->Incompleted_blending_token
        },
        output is Completed ==> {
            &&& bound->Completed_fully_decapsulated_message
                == output->Completed_fully_decapsulated_message
            &&& bound->Completed_blending_token == output->Completed_blending_token
        },
{
}

/// A tick is the first of its epoch if there was none before, or if the one before
/// was of another epoch, be it an earlier or a later one.
pub proof fn epoch_starts_when_it_changes(last_epoch: Option<Epoch>, tick: SlotTick)
    ensures
        starts_epoch(last_epoch, tick) <==> last_epoch is None || (last_epoch->0).0
            != tick.epoch.0,
{
}

} // verus!
