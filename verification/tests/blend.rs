//! The Blend network.

use logos_blockchain::blend::edge::{
    handle_new_secret_epoch_info, route_request, EdgeNode, Inbound, NetworkInfo, NetworkMessage,
    ServiceMessage,
};
use logos_blockchain::blend::epoch::{
    epoch_membership, membership_info_from_epoch_state, node_from_provider, on_reply, EpochState,
    EpochTicks, Membership, MembershipInfo, PolEpochInfo, SlotTick, ZkInfo, ZkNode,
};
use logos_blockchain::blend::leader_proofs::{
    CoreInputs, LeaderInputs, PoQVerificationInputsMinusSigningKey, ProofJob,
    ProofsGeneratorSettings, PublicInputs, RealLeaderProofsGenerator,
};
use logos_blockchain::blend::message::{
    deserialize_encapsulated_message, serialize_encapsulated_message_with_verified_public_header,
    serialize_encapsulated_message_with_verified_signature, EncapsulatedMessage,
    EncapsulatedMessageWithVerifiedPublicHeader, EncapsulatedMessageWithVerifiedSignature, Error,
};
use logos_blockchain::blend::message_cache::{MessageCache, PeerId};
use logos_blockchain::blend::session_message::{
    DecapsulationOutput, SessionBoundDecapsulationOutput, SessionBoundEncapsulatedMessage,
    SessionBoundEncapsulatedMessageWithVerifiedSignature,
};
use logos_blockchain::mantle::primitives::{Ed25519PublicKey, Epoch, Slot, ZkPublicKey};
use logos_blockchain::sdp::{
    Declaration, DeclarationMessage, Locator, ProviderId, ServiceType,
};

fn message(bytes: &[u8]) -> EncapsulatedMessage {
    deserialize_encapsulated_message(bytes, |_: &[u8]| true).unwrap()
}

#[test]
fn messages_are_read_back_from_the_wire() {
    let bytes = [1u8, 2, 3];
    let is_message = |bytes: &[u8]| bytes.len() == 3;
    let read = deserialize_encapsulated_message(&bytes, is_message).unwrap();
    let header = read.with_verified_public_header();
    assert_eq!(serialize_encapsulated_message_with_verified_public_header(&header), bytes);
    let signature = EncapsulatedMessageWithVerifiedSignature::from(header);
    assert_eq!(serialize_encapsulated_message_with_verified_signature(&signature), bytes);
    let header = signature.with_verified_proof_of_quota();
    assert_eq!(serialize_encapsulated_message_with_verified_public_header(&header), bytes);
    let signature = message(&[9]).with_verified_signature();
    assert_eq!(serialize_encapsulated_message_with_verified_signature(&signature), [9]);
    assert_eq!(
        deserialize_encapsulated_message(&[1], is_message),
        Err(Error::MessageDeserializationFailed)
    );
}

#[test]
fn messages_stay_in_their_session() {
    let bound = SessionBoundEncapsulatedMessage::new(message(&[1, 2]), 7);
    let verified = bound
        .verify_public_header(|m: EncapsulatedMessage| {
            Ok::<_, ()>(m.with_verified_public_header())
        })
        .unwrap();
    assert_eq!(verified.session(), 7);
    assert_eq!(
        serialize_encapsulated_message_with_verified_public_header(verified.as_ref()),
        [1, 2]
    );

    let output = verified.decapsulate(|m: EncapsulatedMessageWithVerifiedPublicHeader| {
        let mut bytes = serialize_encapsulated_message_with_verified_public_header(&m);
        bytes.pop();
        Ok::<DecapsulationOutput<(), u8>, ()>(DecapsulationOutput::Incompleted {
            remaining_encapsulated_message: Box::new(message(&bytes)),
            blending_token: 5,
        })
    });
    let Ok(SessionBoundDecapsulationOutput::Incompleted {
        remaining_encapsulated_message,
        blending_token,
    }) = output
    else {
        panic!("there is a layer left")
    };
    assert_eq!(blending_token, 5);
    assert_eq!(
        *remaining_encapsulated_message,
        SessionBoundEncapsulatedMessage::new(message(&[1]), 7)
    );

    let completed = SessionBoundDecapsulationOutput::from_decapsulation_output(
        DecapsulationOutput::Completed { fully_decapsulated_message: "m", blending_token: 6 },
        3,
    );
    assert!(matches!(
        completed,
        SessionBoundDecapsulationOutput::Completed {
            fully_decapsulated_message: "m",
            blending_token: 6
        }
    ));
}

#[test]
fn verifiers_errors_are_handed_on() {
    let bound = SessionBoundEncapsulatedMessage::new(message(&[1]), 7);
    assert_eq!(bound.verify_public_header(|_: EncapsulatedMessage| Err("bad header")), Err("bad header"));
    let signed = SessionBoundEncapsulatedMessageWithVerifiedSignature::new(
        message(&[1]).with_verified_signature(),
        8,
    );
    assert_eq!(signed.session(), 8);
    let verified = signed
        .verify_proof_of_quota(|m: EncapsulatedMessageWithVerifiedSignature| {
            Ok::<_, &str>(m.with_verified_proof_of_quota())
        })
        .unwrap();
    let again = SessionBoundEncapsulatedMessageWithVerifiedSignature::from(verified);
    assert_eq!(again.session(), 8);
    assert_eq!(
        serialize_encapsulated_message_with_verified_signature(again.as_ref()),
        [1]
    );
    assert_eq!(
        again.verify_proof_of_quota(|_: EncapsulatedMessageWithVerifiedSignature| Err("quota")),
        Err("quota")
    );
    let mut verified = SessionBoundEncapsulatedMessage::new(message(&[1]), 9)
        .verify_public_header(|m: EncapsulatedMessage| {
            Ok::<_, &str>(m.with_verified_public_header())
        })
        .unwrap();
    *verified.as_mut() = message(&[2]).with_verified_public_header();
    let (changed, session) = verified.into_components();
    assert_eq!(session, 9);
    assert_eq!(serialize_encapsulated_message_with_verified_public_header(&changed), [2]);
}

fn peer(n: u8) -> PeerId {
    PeerId(vec![n, n, n])
}

#[test]
fn cache_knows_what_was_processed_and_seen() {
    let mut cache = MessageCache::new_with_peer_capacity(2);
    assert!(!cache.is_message_processed(&[1; 32]));
    assert!(cache.mark_message_as_processed([1; 32]));
    assert!(!cache.mark_message_as_processed([1; 32]));
    assert!(cache.is_message_processed(&[1; 32]));
    assert!(!cache.is_message_processed(&[2; 32]));

    assert!(!cache.is_message_seen_from_peer(&[1; 32], &peer(1)));
    assert!(cache.mark_message_as_seen_from_peer([1; 32], peer(1)));
    assert!(!cache.mark_message_as_seen_from_peer([1; 32], peer(1)));
    assert!(cache.mark_message_as_seen_from_peer([1; 32], peer(2)));
    assert!(cache.mark_message_as_seen_from_peer([2; 32], peer(1)));
    assert!(cache.is_message_seen_from_peer(&[2; 32], &peer(1)));
    assert!(!cache.is_message_seen_from_peer(&[2; 32], &peer(2)));

    cache.remove_peer_info(&peer(1));
    assert!(!cache.is_message_seen_from_peer(&[1; 32], &peer(1)));
    assert!(cache.is_message_seen_from_peer(&[1; 32], &peer(2)));
    assert!(cache.is_message_processed(&[1; 32]));
    cache.remove_peer_info(&peer(3));
    assert!(cache.mark_message_as_seen_from_peer([1; 32], peer(1)));
}

fn leader_inputs(quota: u64) -> LeaderInputs {
    LeaderInputs {
        lottery_0: [1; 32],
        lottery_1: [2; 32],
        pol_epoch_nonce: [3; 32],
        pol_ledger_aged: [4; 32],
        message_quota: quota,
    }
}

#[test]
fn each_winning_slot_gives_the_quotas_number_of_proofs() {
    let core = CoreInputs { quota: 9, zk_root: [8; 32] };
    let inputs = PoQVerificationInputsMinusSigningKey { leader: leader_inputs(2), core, session: 5 };
    let settings =
        ProofsGeneratorSettings { public_inputs: inputs, epoch: Epoch(3), membership_size: 4 };
    let mut generator = RealLeaderProofsGenerator::<&str>::new(settings);
    assert_eq!(generator.buffer_size(), 2);
    assert_eq!(generator.next_job(), None);
    generator.accept_secret("a");
    assert_eq!(generator.next_job(), Some(ProofJob { secret: "a", message_release_index: 0 }));
    assert_eq!(generator.next_job(), Some(ProofJob { secret: "a", message_release_index: 1 }));
    assert_eq!(generator.next_job(), None);
    generator.accept_secret("b");
    assert_eq!(generator.next_job(), Some(ProofJob { secret: "b", message_release_index: 0 }));

    generator.rotate_epoch(leader_inputs(1), Epoch(4));
    assert_eq!(generator.current_epoch(), Epoch(4));
    assert_eq!(generator.next_job(), None);
    assert_eq!(generator.settings().public_inputs.core, core);
    assert_eq!(generator.settings().public_inputs.session, 5);
    assert_eq!(generator.settings().public_inputs.leader, leader_inputs(1));
    assert_eq!(generator.settings().membership_size, 4);

    assert_eq!(
        inputs.for_signing_key([6; 32]),
        PublicInputs { signing_key: [6; 32], core, leader: leader_inputs(2), session: 5 }
    );
}

#[test]
fn chain_is_asked_at_the_first_tick_of_each_epoch() {
    let mut ticks = EpochTicks::new();
    let asked: Vec<Option<Slot>> = [(0, 5), (0, 6), (1, 7), (1, 8), (3, 9)]
        .into_iter()
        .map(|(epoch, slot)| ticks.on_tick(SlotTick { epoch: Epoch(epoch), slot: Slot(slot) }))
        .collect();
    assert_eq!(
        asked,
        vec![Some(Slot(5)), None, Some(Slot(7)), None, Some(Slot(9))]
    );
    assert_eq!(on_reply::<u8, (), ()>(Ok(Ok(4))), Some(4));
    assert_eq!(on_reply::<u8, (), ()>(Ok(Err(()))), None);
    assert_eq!(on_reply::<u8, (), ()>(Err(())), None);
}

fn declared(key: u8, zk: u8, locators: &[&str]) -> (ServiceType, Declaration) {
    let message = DeclarationMessage {
        service_type: ServiceType::BlendNetwork,
        locators: locators.iter().map(|l| Locator((*l).to_string())).collect(),
        provider_id: ProviderId([key; 32]),
        zk_id: [zk; 32],
        locked_note_id: [0; 32],
    };
    (ServiceType::BlendNetwork, Declaration::new(1, &message))
}

fn decode_id(key: &Ed25519PublicKey) -> Option<u8> {
    if key[0] < 100 { Some(key[0]) } else { None }
}

fn is_key(key: &Ed25519PublicKey) -> bool {
    key[0] % 2 == 0
}

#[test]
fn provider_becomes_a_member_at_its_first_address() {
    let locators = [Locator("/a".to_string()), Locator("/b".to_string())];
    let node =
        node_from_provider(&ProviderId([2; 32]), &locators, &[9; 32], &decode_id, &is_key).unwrap();
    assert_eq!(node.node.id, 2);
    assert_eq!(node.node.address, "/a");
    assert_eq!(node.node.public_key, [2; 32]);
    assert_eq!(node.zk_key, [9; 32]);
    let refused = |key: u8, locators: &[Locator]| {
        node_from_provider(&ProviderId([key; 32]), locators, &[9; 32], &decode_id, &is_key)
            .is_none()
    };
    assert!(refused(2, &[]));
    assert!(refused(3, &locators));
    assert!(refused(100, &locators));
}

fn epoch_state() -> EpochState {
    EpochState {
        epoch: Epoch(6),
        nonce: [1; 32],
        aged_root: [2; 32],
        total_stake: 77,
        lottery_0: [3; 32],
        lottery_1: [4; 32],
    }
}

fn membership(
    declarations: &[(ServiceType, Declaration)],
    zk_key: Option<ZkPublicKey>,
) -> MembershipInfo<u8, usize> {
    membership_info_from_epoch_state(
        &epoch_state(),
        declarations,
        &[2; 32],
        zk_key,
        decode_id,
        is_key,
        |mut nodes: Vec<ZkNode<u8>>| {
            nodes.sort_by_key(|node| node.zk_key);
            let keys: Vec<ZkPublicKey> = nodes.iter().map(|node| node.zk_key).collect();
            (nodes, keys)
        },
        |keys: &Vec<ZkPublicKey>| keys[0],
        |keys: &Vec<ZkPublicKey>, key: &ZkPublicKey| keys.iter().position(|k| k == key),
    )
}

#[test]
fn network_of_an_epoch_is_made_of_the_declared_providers() {
    let declarations =
        [declared(4, 30, &["/x"]), declared(3, 10, &["/y"]), declared(2, 20, &["/z"]), declared(6, 5, &[])];
    let info = membership(&declarations, Some([30; 32]));
    let ids: Vec<u8> = info.membership.nodes.iter().map(|node| node.id).collect();
    assert_eq!(ids, vec![2, 4]);
    assert_eq!(info.membership.local_key, [2; 32]);
    assert_eq!(info.epoch_number, 6);
    assert_eq!(info.zk, Some(ZkInfo { core_and_path_selectors: Some(1), root: [20; 32] }));
    assert_eq!(
        membership(&declarations, None).zk,
        Some(ZkInfo { core_and_path_selectors: None, root: [20; 32] })
    );
    assert_eq!(
        membership(&declarations, Some([7; 32])).zk,
        Some(ZkInfo { core_and_path_selectors: None, root: [20; 32] })
    );
    let none = membership(&[declared(6, 5, &[])], Some([5; 32]));
    assert!(none.zk.is_none());
    assert!(none.membership.nodes.is_empty());
}

fn edge_node() -> EdgeNode<u8, u8, char> {
    EdgeNode::start(session(1), |_: &MembershipInfo<u8, u8>| Ok::<(), &str>(())).unwrap()
}

/// A session with a number and no members.
fn session(number: u64) -> MembershipInfo<u8, u8> {
    MembershipInfo {
        membership: Membership { nodes: vec![], local_key: [0; 32] },
        zk: None,
        epoch_number: number,
    }
}

#[test]
fn edge_node_starts_only_among_suitable_members() {
    let node = edge_node();
    assert_eq!((node.session, node.current), (session(1), None));
    let refused = EdgeNode::<u8, u8, char>::start(session(3), |members: &MembershipInfo<u8, u8>| {
        assert_eq!(members, &session(3));
        Err("too small")
    });
    assert_eq!(refused.err(), Some("too small"));
}

#[test]
fn edge_node_handles_messages_while_it_knows_its_epoch() {
    let mut node = edge_node();
    assert_eq!(node.message_copies(3), 0);
    node.on_secret_info(Some((Epoch(2), 'h')));
    assert_eq!(node.message_copies(3), 4);
    node.on_epoch(Epoch(1));
    node.on_epoch(Epoch(2));
    assert_eq!(node.current, Some((Epoch(2), 'h')));
    node.on_epoch(Epoch(3));
    assert_eq!(node.current, None);
    assert_eq!(node.message_copies(3), 0);
    node.on_epoch(Epoch(4));
    assert_eq!(node.current, None);
    node.on_secret_info(Some((Epoch(4), 'i')));
    node.on_secret_info(None);
    assert_eq!(node.current, None);
    // Neither epochs nor secret info change the session.
    assert_eq!(node.session, session(1));
}

#[test]
fn new_session_resets_the_handler_that_there_is() {
    let suits = |_: &MembershipInfo<u8, u8>| Ok::<(), &str>(());
    let never = |_: Epoch, _: char, _: &MembershipInfo<u8, u8>| -> Result<char, &str> {
        panic!("there is no handler to reset")
    };
    let mut node = edge_node();
    assert_eq!(node.on_session(session(2), suits, never), Ok(()));
    assert_eq!((&node.session, node.current), (&session(2), None));

    node.on_secret_info(Some((Epoch(2), 'h')));
    let reset = |epoch: Epoch, handler: char, members: &MembershipInfo<u8, u8>| {
        assert_eq!((epoch, handler, members), (Epoch(2), 'h', &session(3)));
        Ok('i')
    };
    assert_eq!(node.on_session(session(3), suits, reset), Ok(()));
    assert_eq!((&node.session, node.current), (&session(3), Some((Epoch(2), 'i'))));

    let fails = |_: Epoch, _: char, _: &MembershipInfo<u8, u8>| Err("no backend");
    assert_eq!(node.on_session(session(4), suits, fails), Err("no backend"));
    assert_eq!((&node.session, node.current), (&session(4), None));
}

#[test]
fn unsuitable_members_are_an_error_with_and_without_a_handler() {
    let unsuitable = |members: &MembershipInfo<u8, u8>| {
        assert_eq!(members, &session(2));
        Err::<(), &str>("too small")
    };
    let never = |_: Epoch, _: char, _: &MembershipInfo<u8, u8>| -> Result<char, &str> {
        panic!("the members do not suit")
    };
    let mut node = edge_node();
    assert_eq!(node.on_session(session(2), unsuitable, never), Err("too small"));
    assert_eq!(node.current, None);
    let mut node = edge_node();
    node.on_secret_info(Some((Epoch(2), 'h')));
    assert_eq!(node.on_session(session(2), unsuitable, never), Err("too small"));
    assert_eq!(node.current, None);
}

#[test]
fn messages_are_cloned_with_their_session() {
    let bound = SessionBoundEncapsulatedMessage::new(message(&[1, 2]), 5);
    assert_eq!(bound.clone(), bound);
    let signed = SessionBoundEncapsulatedMessageWithVerifiedSignature::new(
        message(&[1, 2]).with_verified_signature(),
        5,
    );
    assert_eq!(signed.clone(), signed);
    let output = SessionBoundDecapsulationOutput::from_decapsulation_output(
        DecapsulationOutput::<u8, char>::Incompleted {
            remaining_encapsulated_message: Box::new(message(&[1, 2])),
            blending_token: 't',
        },
        5,
    );
    let SessionBoundDecapsulationOutput::Incompleted {
        remaining_encapsulated_message,
        blending_token,
    } = output.clone()
    else {
        panic!("layers are left")
    };
    assert_eq!((*remaining_encapsulated_message, blending_token), (bound, 't'));
}

#[test]
fn default_cache_knows_nothing() {
    let mut cache = MessageCache::default();
    assert!(!cache.is_message_processed(&[1; 32]));
    assert!(!cache.is_message_seen_from_peer(&[1; 32], &PeerId(vec![1])));
    assert!(cache.mark_message_as_processed([1; 32]));
}

#[test]
fn edge_node_answers_that_it_is_no_core_node() {
    let to_bytes = |m: &NetworkMessage<u8>| {
        let mut bytes = m.message.clone();
        bytes.push(m.broadcast_settings);
        bytes
    };
    let blend = ServiceMessage::<u8, u32>::Blend(NetworkMessage {
        message: vec![1, 2],
        broadcast_settings: 3,
    });
    let Inbound::<&str, (), u32>::Blend(bytes) = route_request(blend, "me", to_bytes) else {
        panic!("a message is blended")
    };
    assert_eq!(bytes, vec![1, 2, 3]);
    let ask = ServiceMessage::<u8, u32>::GetNetworkInfo { reply: 4 };
    let Inbound::<&str, (), u32>::Answer { reply, info } = route_request(ask, "me", to_bytes)
    else {
        panic!("a question is answered")
    };
    assert_eq!(reply, 4);
    assert_eq!(info, NetworkInfo { node_id: "me", core_info: None });
}

#[test]
fn inputs_of_proofs_follow_from_what_is_known_of_the_epoch() {
    let declarations = [declared(4, 30, &["/x"]), declared(2, 20, &["/z"])];
    let info = PolEpochInfo {
        poq_public_inputs: epoch_membership(&epoch_state(), membership(&declarations, None)),
        poq_private_inputs: (),
    };
    assert_eq!(info.poq_public_inputs.total_stake, 77);
    // The root, the size and the number are those of the session that the node is in.
    let current = MembershipInfo {
        epoch_number: 11,
        ..membership(
            &[declared(2, 25, &["/z"]), declared(8, 50, &["/y"]), declared(4, 30, &["/x"])],
            None,
        )
    };
    let (epoch, inputs) =
        handle_new_secret_epoch_info(&info, &current, 12, |size: usize| 100 + size as u64).unwrap();
    assert_eq!(epoch, Epoch(6));
    assert_eq!(
        inputs,
        PoQVerificationInputsMinusSigningKey {
            leader: LeaderInputs {
                lottery_0: [3; 32],
                lottery_1: [4; 32],
                pol_epoch_nonce: [1; 32],
                pol_ledger_aged: [2; 32],
                message_quota: 12,
            },
            core: CoreInputs { quota: 103, zk_root: [25; 32] },
            session: 11,
        }
    );
    let empty = membership(&[], None);
    assert!(handle_new_secret_epoch_info(&info, &empty, 12, |_: usize| 1).is_none());
}
