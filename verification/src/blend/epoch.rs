//! Epochs as the Blend network sees them: when to ask the chain for one, and
//! which nodes are members in it.

use vstd::prelude::*;

use crate::blend::leader_proofs::FieldElement;
use crate::mantle::primitives::{Ed25519PublicKey, Epoch, Slot, Value, ZkPublicKey};
use crate::sdp::{Declaration, Locator, ProviderId, ServiceType};

verus! {

/// A tick of the slot clock.
#[derive(Clone, Copy, Debug, PartialEq, Eq, Structural)]
pub struct SlotTick {
    pub epoch: Epoch,
    pub slot: Slot,
}

/// The epoch of the last tick, if there was one.
#[derive(Clone, Copy, Debug, PartialEq, Eq)]
pub struct EpochTicks {
    pub last_epoch: Option<Epoch>,
}

/// Whether a tick is the first of its epoch, given the epoch of the tick before.
pub open spec fn starts_epoch(last_epoch: Option<Epoch>, tick: SlotTick) -> bool {
    last_epoch != Some(tick.epoch)
}

impl EpochTicks {
    /// No tick so far.
    #[must_use]
    pub fn new() -> (r: Self)
        ensures
            r.last_epoch is None,
    {
        Self { last_epoch: None }
    }

    /// Takes a tick. If it is the first of its epoch, the chain is to be asked
    /// for the state of the epoch at this slot.
    pub fn on_tick(&mut self, tick: SlotTick) -> (r: Option<Slot>)
        ensures
            r == if starts_epoch(old(self).last_epoch, tick) {
                Some(tick.slot)
            } else {
                None::<Slot>
            },
            final(self).last_epoch == Some(tick.epoch),
    {
        let is_new_epoch: bool = match self.last_epoch {
            Some(last_epoch) => last_epoch.0 != tick.epoch.0,
            None => true,
        };
        if is_new_epoch {
            self.last_epoch = Some(tick.epoch);
            Some(tick.slot)
        } else {
            None
        }
    }
}

/// What the chain's reply comes to: the state of the epoch, or nothing if the
/// chain could not be asked or did not know.
pub fn on_reply<T, E, F>(reply: Result<Result<T, E>, F>) -> (r: Option<T>)
    ensures
        r == match reply {
            Ok(Ok(state)) => Some(state),
            _ => None::<T>,
        },
{
    match reply {
        Ok(Ok(state)) => Some(state),
        Ok(Err(_)) => None,
        Err(_) => None,
    }
}

/// The epoch of the last of the first `n` ticks, if there was one.
pub open spec fn last_epoch_of(ticks: Seq<SlotTick>, n: int) -> Option<Epoch> {
    if n == 0 {
        None
    } else {
        Some(ticks[n - 1].epoch)
    }
}

/// On a clock that does not go back, the chain is asked once for each epoch, at
/// its first tick.
pub proof fn each_epoch_is_asked_for_once(ticks: Seq<SlotTick>)
    requires
        forall|i: int, j: int|
            0 <= i <= j < ticks.len() ==> (#[trigger] ticks[i]).epoch.0 <= (
            #[trigger] ticks[j]).epoch.0,
    ensures
        forall|i: int|
            0 <= i < ticks.len() ==> (#[trigger] starts_epoch(last_epoch_of(ticks, i), ticks[i])
                <==> forall|j: int| 0 <= j < i ==> (#[trigger] ticks[j]).epoch != ticks[i].epoch),
{
    assert forall|i: int| 0 <= i < ticks.len() implies (#[trigger] starts_epoch(
        last_epoch_of(ticks, i),
        ticks[i],
    ) <==> forall|j: int| 0 <= j < i ==> (#[trigger] ticks[j]).epoch != ticks[i].epoch) by {
        if i > 0 {
            assert forall|j: int|
                0 <= j < i && starts_epoch(last_epoch_of(ticks, i), ticks[i]) implies (
            #[trigger] ticks[j]).epoch != ticks[i].epoch by {
                assert(ticks[j].epoch.0 <= ticks[i - 1].epoch.0);
                assert(ticks[i - 1].epoch.0 <= ticks[i].epoch.0);
                assert(ticks[i - 1].epoch != ticks[i].epoch);
                assert(ticks[i - 1].epoch.0 != ticks[i].epoch.0);
            }
            if !starts_epoch(last_epoch_of(ticks, i), ticks[i]) {
                assert(ticks[i - 1].epoch == ticks[i].epoch);
            }
        }
    }
}

/// A member of the network. `N` is the type of nodes' identifiers.
#[derive(Debug, PartialEq, Eq)]
pub struct Node<N> {
    pub id: N,
    pub address: String,
    pub public_key: Ed25519PublicKey,
}

/// A member of the network, and its key in the tree of members.
#[derive(Debug, PartialEq, Eq)]
pub struct ZkNode<N> {
    pub node: Node<N>,
    pub zk_key: ZkPublicKey,
}

/// `outcome` is what becomes of a provider as a member: nothing if it gives no
/// address, or if its key is no node's identifier or cannot sign. It is reached
/// at its first address.
pub open spec fn node_given<
    N,
    D: Fn(&Ed25519PublicKey) -> Option<N>,
    K: Fn(&Ed25519PublicKey) -> bool,
>(
    decode_id: D,
    is_key: K,
    provider: Ed25519PublicKey,
    locators: Seq<Locator>,
    zk_id: ZkPublicKey,
    outcome: Option<ZkNode<N>>,
) -> bool {
    match outcome {
        Some(member) => {
            &&& locators.len() > 0
            &&& call_ensures(decode_id, (&provider,), Some(member.node.id))
            &&& call_ensures(is_key, (&provider,), true)
            &&& member.node.address@ == locators[0]@
            &&& member.node.public_key == provider
            &&& member.zk_key == zk_id
        },
        None => {
            ||| locators.len() == 0
            ||| call_ensures(decode_id, (&provider,), None::<N>)
            ||| exists|id: N| #[trigger]
                call_ensures(decode_id, (&provider,), Some(id)) && call_ensures(
                    is_key,
                    (&provider,),
                    false,
                )
        },
    }
}

/// The member that a provider is, or nothing if it gives no address or if its key
/// cannot be decoded. `decode_id` decodes a key as a node's identifier, `is_key`
/// says whether it can sign.
pub fn node_from_provider<
    N,
    D: Fn(&Ed25519PublicKey) -> Option<N>,
    K: Fn(&Ed25519PublicKey) -> bool,
>(
    provider_id: &ProviderId,
    locators: &[Locator],
    zk_id: &ZkPublicKey,
    decode_id: &D,
    is_key: &K,
) -> (r: Option<ZkNode<N>>)
    requires
        call_requires(*decode_id, (&provider_id.0,)),
        call_requires(*is_key, (&provider_id.0,)),
    ensures
        node_given(*decode_id, *is_key, provider_id.0, locators@, *zk_id, r),
{
    if locators.len() == 0 {
        return None;
    }
    let address: String = locators[0].clone().into_inner();
    let id: N = match decode_id(&provider_id.0) {
        Some(id) => id,
        None => return None,
    };
    if !is_key(&provider_id.0) {
        assert(call_ensures(*decode_id, (&provider_id.0,), Some(id)));
        return None;
    }
    Some(ZkNode { node: Node { id, address, public_key: provider_id.0 }, zk_key: *zk_id })
}

/// `nodes` are the members among the declared providers of the Blend network, in
/// the order of the declarations.
pub open spec fn members_given<
    N,
    D: Fn(&Ed25519PublicKey) -> Option<N>,
    K: Fn(&Ed25519PublicKey) -> bool,
>(
    decode_id: D,
    is_key: K,
    declarations: Seq<(ServiceType, Declaration)>,
    nodes: Seq<ZkNode<N>>,
) -> bool
    decreases declarations.len(),
{
    if declarations.len() == 0 {
        nodes.len() == 0
    } else {
        let front = declarations.drop_last();
        let (service_type, declaration) = declarations.last();
        let message = declaration.message;
        if service_type != ServiceType::BlendNetwork {
            members_given(decode_id, is_key, front, nodes)
        } else {
            ||| node_given(
                decode_id,
                is_key,
                message.provider_id.0,
                message.locators@,
                message.zk_id,
                None::<ZkNode<N>>,
            ) && members_given(decode_id, is_key, front, nodes)
            ||| nodes.len() > 0 && node_given(
                decode_id,
                is_key,
                message.provider_id.0,
                message.locators@,
                message.zk_id,
                Some(nodes.last()),
            ) && members_given(decode_id, is_key, front, nodes.drop_last())
        }
    }
}

/// The members among the declared providers of the Blend network.
fn collect_members<
    N,
    D: Fn(&Ed25519PublicKey) -> Option<N>,
    K: Fn(&Ed25519PublicKey) -> bool,
>(declarations: &[(ServiceType, Declaration)], decode_id: &D, is_key: &K) -> (r: Vec<ZkNode<N>>)
    requires
        forall|key: &Ed25519PublicKey| #[trigger] call_requires(*decode_id, (key,)),
        forall|key: &Ed25519PublicKey| #[trigger] call_requires(*is_key, (key,)),
    ensures
        members_given(*decode_id, *is_key, declarations@, r@),
{
    let mut nodes: Vec<ZkNode<N>> = Vec::new();
    let mut i: usize = 0;
    while i < declarations.len()
        invariant
            i <= declarations@.len(),
            forall|key: &Ed25519PublicKey| #[trigger] call_requires(*decode_id, (key,)),
            forall|key: &Ed25519PublicKey| #[trigger] call_requires(*is_key, (key,)),
            members_given(*decode_id, *is_key, declarations@.take(i as int), nodes@),
        decreases declarations@.len() - i,
    {
        assert(declarations@.take(i + 1).drop_last() =~= declarations@.take(i as int));
        assert(declarations@.take(i + 1).last() == declarations@[i as int]);
        if declarations[i].0 == ServiceType::BlendNetwork {
            let message = &declarations[i].1.message;
            match node_from_provider(
                &message.provider_id,
                message.locators.as_slice(),
                &message.zk_id,
                decode_id,
                is_key,
            ) {
                Some(node) => {
                    let ghost before = nodes@;
                    nodes.push(node);
                    assert(nodes@.drop_last() =~= before);
                },
                None => {},
            }
        }
        i = i + 1;
    }
    assert(declarations@.take(i as int) =~= declarations@);
    nodes
}

/// The members of an epoch's network, and the key of the node that looks at it.
#[derive(Debug, PartialEq, Eq)]
pub struct Membership<N> {
    pub nodes: Vec<Node<N>>,
    pub local_key: Ed25519PublicKey,
}

/// The tree of the members' keys: its root, and the path to the local node's key
/// if that is in it. `P` is the type of paths.
#[derive(Debug, PartialEq, Eq)]
pub struct ZkInfo<P> {
    pub core_and_path_selectors: Option<P>,
    pub root: FieldElement,
}

/// The members of an epoch's network, and the tree of their keys if there are
/// any.
#[derive(Debug, PartialEq, Eq)]
pub struct MembershipInfo<N, P> {
    pub membership: Membership<N>,
    pub zk: Option<ZkInfo<P>>,
    pub epoch_number: u64,
}

/// What the chain knows of an epoch.
#[derive(Debug, Clone, Copy, PartialEq, Eq)]
pub struct EpochState {
    pub epoch: Epoch,
    pub nonce: FieldElement,
    /// The root of the tree of the notes that may lead in the epoch.
    pub aged_root: FieldElement,
    pub total_stake: Value,
    pub lottery_0: FieldElement,
    pub lottery_1: FieldElement,
}

/// What the Blend network knows of an epoch.
#[derive(Debug, PartialEq, Eq)]
pub struct BlendMembershipEpochState<N, P> {
    pub epoch: Epoch,
    pub nonce: FieldElement,
    pub aged_root: FieldElement,
    pub total_stake: Value,
    pub lottery_0: FieldElement,
    pub lottery_1: FieldElement,
    pub membership: MembershipInfo<N, P>,
}

/// What a node knows of an epoch in which it may lead. `S` is the type of what it
/// keeps to itself.
pub struct PolEpochInfo<N, P, S> {
    pub poq_public_inputs: BlendMembershipEpochState<N, P>,
    pub poq_private_inputs: S,
}

/// The nodes of members, without their keys in the tree.
pub open spec fn nodes_of<N>(members: Seq<ZkNode<N>>) -> Seq<Node<N>> {
    members.map_values(|member: ZkNode<N>| member.node)
}

fn into_nodes<N>(members: Vec<ZkNode<N>>) -> (r: Vec<Node<N>>)
    ensures
        r@ == nodes_of(members@),
{
    let ghost all = members@;
    let mut left = members;
    let mut reversed: Vec<Node<N>> = Vec::new();
    while left.len() > 0
        invariant
            left@.len() <= all.len(),
            left@ == all.take(left@.len() as int),
            reversed@.len() == all.len() - left@.len(),
            forall|j: int|
                0 <= j < reversed@.len() ==> #[trigger] reversed@[j] == all[all.len() - 1 - j].node,
        decreases left@.len(),
    {
        match left.pop() {
            Some(member) => {
                reversed.push(member.node);
                assert(left@ =~= all.take(left@.len() as int));
            },
            None => {},
        }
    }
    let mut nodes: Vec<Node<N>> = Vec::new();
    while reversed.len() > 0
        invariant
            nodes@.len() + reversed@.len() == all.len(),
            forall|j: int| 0 <= j < nodes@.len() ==> #[trigger] nodes@[j] == all[j].node,
            forall|j: int|
                0 <= j < reversed@.len() ==> #[trigger] reversed@[j] == all[all.len() - 1 - j].node,
        decreases reversed@.len(),
    {
        match reversed.pop() {
            Some(node) => nodes.push(node),
            None => {},
        }
    }
    assert(nodes@ =~= nodes_of(all));
    nodes
}

/// `info` is what the members amount to as the network of an epoch. Without
/// members there is no tree; with members, `build_tree` puts them in order and
/// makes the tree of their keys, `root` gives its root, and `path` the path to
/// the local node's key.
pub open spec fn network_given<
    N,
    P,
    T,
    B: FnOnce(Vec<ZkNode<N>>) -> (Vec<ZkNode<N>>, T),
    R: FnOnce(&T) -> FieldElement,
    Q: FnOnce(&T, &ZkPublicKey) -> Option<P>,
>(
    build_tree: B,
    root: R,
    path: Q,
    members: Vec<ZkNode<N>>,
    zk_key: Option<ZkPublicKey>,
    info: MembershipInfo<N, P>,
) -> bool {
    if members@.len() == 0 {
        info.zk is None && info.membership.nodes@.len() == 0
    } else {
        exists|ordered: Vec<ZkNode<N>>, tree: T|
            {
                &&& #[trigger] call_ensures(build_tree, (members,), (ordered, tree))
                &&& info.membership.nodes@ == nodes_of(ordered@)
                &&& info.zk matches Some(zk)
                &&& call_ensures(root, (&tree,), zk.root)
                &&& match zk_key {
                    Some(key) => call_ensures(path, (&tree, &key), zk.core_and_path_selectors),
                    None => zk.core_and_path_selectors is None,
                }
            }
    }
}

/// The network of an epoch, made of the declared providers that can be members.
pub fn membership_info_from_epoch_state<
    N,
    P,
    T,
    D: Fn(&Ed25519PublicKey) -> Option<N>,
    K: Fn(&Ed25519PublicKey) -> bool,
    B: FnOnce(Vec<ZkNode<N>>) -> (Vec<ZkNode<N>>, T),
    R: FnOnce(&T) -> FieldElement,
    Q: FnOnce(&T, &ZkPublicKey) -> Option<P>,
>(
    epoch_state: &EpochState,
    declarations: &[(ServiceType, Declaration)],
    signing_public_key: &Ed25519PublicKey,
    maybe_zk_public_key: Option<ZkPublicKey>,
    decode_id: D,
    is_key: K,
    build_tree: B,
    root: R,
    path: Q,
) -> (r: MembershipInfo<N, P>)
    requires
        forall|key: &Ed25519PublicKey| #[trigger] call_requires(decode_id, (key,)),
        forall|key: &Ed25519PublicKey| #[trigger] call_requires(is_key, (key,)),
        forall|nodes: Vec<ZkNode<N>>| #[trigger] call_requires(build_tree, (nodes,)),
        forall|tree: &T| #[trigger] call_requires(root, (tree,)),
        forall|tree: &T, key: &ZkPublicKey| #[trigger] call_requires(path, (tree, key)),
    ensures
        r.membership.local_key == *signing_public_key,
        r.epoch_number == epoch_state.epoch.0,
        exists|members: Vec<ZkNode<N>>|
            members_given(decode_id, is_key, declarations@, members@) && #[trigger] network_given(
                build_tree,
                root,
                path,
                members,
                maybe_zk_public_key,
                r,
            ),
{
    let members = collect_members(declarations, &decode_id, &is_key);
    let ghost given = members;
    let epoch_number: u64 = epoch_state.epoch.0 as u64;
    if members.len() == 0 {
        let r = MembershipInfo {
            membership: Membership { nodes: Vec::new(), local_key: *signing_public_key },
            zk: None,
            epoch_number,
        };
        assert(network_given(build_tree, root, path, given, maybe_zk_public_key, r));
        return r;
    }
    let (ordered, tree) = build_tree(members);
    let ghost ordered_given = ordered;
    let core_and_path_selectors: Option<P> = match maybe_zk_public_key {
        Some(key) => path(&tree, &key),
        None => None,
    };
    let zk = ZkInfo { core_and_path_selectors, root: root(&tree) };
    let r = MembershipInfo {
        membership: Membership { nodes: into_nodes(ordered), local_key: *signing_public_key },
        zk: Some(zk),
        epoch_number,
    };
    assert(call_ensures(build_tree, (given,), (ordered_given, tree)));
    assert(network_given(build_tree, root, path, given, maybe_zk_public_key, r));
    r
}

/// What the Blend network knows of an epoch: what the chain knows, and the
/// members.
pub fn epoch_membership<N, P>(epoch_state: &EpochState, membership: MembershipInfo<N, P>) -> (r:
    BlendMembershipEpochState<N, P>)
    ensures
        r == (BlendMembershipEpochState {
            epoch: epoch_state.epoch,
            nonce: epoch_state.nonce,
            aged_root: epoch_state.aged_root,
            total_stake: epoch_state.total_stake,
            lottery_0: epoch_state.lottery_0,
            lottery_1: epoch_state.lottery_1,
            membership,
        }),
{
    BlendMembershipEpochState {
        epoch: epoch_state.epoch,
        nonce: epoch_state.nonce,
        aged_root: epoch_state.aged_root,
        total_stake: epoch_state.total_stake,
        lottery_0: epoch_state.lottery_0,
        lottery_1: epoch_state.lottery_1,
        membership,
    }
}

} // verus!
