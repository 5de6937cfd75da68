//! Which declared providers are members of the network of an epoch.

use vstd::prelude::*;

use crate::blend::epoch::{
    members_given, network_given, node_given, nodes_of, MembershipInfo, ZkNode,
};
use crate::blend::leader_proofs::FieldElement;
use crate::mantle::primitives::{Ed25519PublicKey, ZkPublicKey};
use crate::sdp::{Declaration, ServiceType};

verus! {

/// The member is what the declaration says: it has the provider's key and its key
/// for proofs, and is reached at the first address.
pub open spec fn stands_for<N>(member: ZkNode<N>, declaration: Declaration) -> bool {
    &&& declaration.message.locators@.len() > 0
    &&& member.node.public_key == declaration.message.provider_id.0
    &&& member.node.address@ == declaration.message.locators@[0]@
    &&& member.zk_key == declaration.message.zk_id
}

/// The provider's key is a node's identifier and can sign, whatever call is made.
pub open spec fn key_is_good<
    N,
    D: Fn(&Ed25519PublicKey) -> Option<N>,
    K: Fn(&Ed25519PublicKey) -> bool,
>(decode_id: D, is_key: K, key: Ed25519PublicKey) -> bool {
    &&& forall|id: Option<N>| #[trigger] call_ensures(decode_id, (&key,), id) ==> id is Some
    &&& forall|good: bool| #[trigger] call_ensures(is_key, (&key,), good) ==> good
}

/// The members are those among the declared providers of the Blend network that
/// give an address, however many they give, and whose key is good: one member for
/// each declaration, in the order of the declarations. Hands back the places of
/// the members' declarations.
pub proof fn members_are_the_declared_providers<
    N,
    D: Fn(&Ed25519PublicKey) -> Option<N>,
    K: Fn(&Ed25519PublicKey) -> bool,
>(
    decode_id: D,
    is_key: K,
    declarations: Seq<(ServiceType, Declaration)>,
    nodes: Seq<ZkNode<N>>,
) -> (from: Seq<int>)
    requires
        members_given(decode_id, is_key, declarations, nodes),
    ensures
        from.len() == nodes.len(),
        forall|i: int, j: int| 0 <= i < j < from.len() ==> #[trigger] from[i] < #[trigger] from[j],
        forall|i: int|
            0 <= i < from.len() ==> {
                let place = #[trigger] from[i];
                let (service_type, declaration) = declarations[place];
                &&& 0 <= place < declarations.len()
                &&& service_type is BlendNetwork
                &&& stands_for(nodes[i], declaration)
                &&& call_ensures(
                    decode_id,
                    (&declaration.message.provider_id.0,),
                    Some(nodes[i].node.id),
                )
                &&& call_ensures(is_key, (&declaration.message.provider_id.0,), true)
            },
        forall|k: int|
            0 <= k < declarations.len() && (#[trigger] declarations[k]).0 is BlendNetwork
                && declarations[k].1.message.locators@.len() > 0 && key_is_good(
                decode_id,
                is_key,
                declarations[k].1.message.provider_id.0,
            ) ==> from.contains(k),
    decreases declarations.len(),
{
    if declarations.len() == 0 {
        Seq::empty()
    } else {
        let front = declarations.drop_last();
        let last = declarations.len() - 1;
        let (service_type, declaration) = declarations[last];
        let key = declaration.message.provider_id.0;
        let locators = declaration.message.locators@;
        let zk_id = declaration.message.zk_id;
        let joins = !members_given(decode_id, is_key, front, nodes) || service_type is BlendNetwork
            && !node_given(decode_id, is_key, key, locators, zk_id, None::<ZkNode<N>>);
        if !joins {
            let from = members_are_the_declared_providers(decode_id, is_key, front, nodes);
            assert forall|k: int|
                0 <= k < declarations.len() && (#[trigger] declarations[k]).0 is BlendNetwork
                    && declarations[k].1.message.locators@.len() > 0 && key_is_good(
                    decode_id,
                    is_key,
                    declarations[k].1.message.provider_id.0,
                ) implies from.contains(k) by {
                if k < last {
                    assert(front[k] == declarations[k]);
                } else {
                    assert(node_given(decode_id, is_key, key, locators, zk_id, None::<ZkNode<N>>));
                    assert(false);
                }
            }
            from
        } else {
            let earlier = members_are_the_declared_providers(
                decode_id,
                is_key,
                front,
                nodes.drop_last(),
            );
            let from = earlier.push(last);
            assert forall|i: int| 0 <= i < from.len() implies {
                let place = #[trigger] from[i];
                let (service_type, declaration) = declarations[place];
                &&& 0 <= place < declarations.len()
                &&& service_type is BlendNetwork
                &&& stands_for(nodes[i], declaration)
                &&& call_ensures(
                    decode_id,
                    (&declaration.message.provider_id.0,),
                    Some(nodes[i].node.id),
                )
                &&& call_ensures(is_key, (&declaration.message.provider_id.0,), true)
            } by {
                if i < earlier.len() {
                    assert(from[i] == earlier[i]);
                    assert(front[earlier[i]] == declarations[earlier[i]]);
                    assert(nodes.drop_last()[i] == nodes[i]);
                }
            }
            assert forall|i: int, j: int| 0 <= i < j < from.len() implies #[trigger] from[i]
                < #[trigger] from[j] by {
                assert(from[i] == earlier[i]);
                if j < earlier.len() {
                    assert(from[j] == earlier[j]);
                }
            }
            assert forall|k: int|
                0 <= k < declarations.len() && (#[trigger] declarations[k]).0 is BlendNetwork
                    && declarations[k].1.message.locators@.len() > 0 && key_is_good(
                    decode_id,
                    is_key,
                    declarations[k].1.message.provider_id.0,
                ) implies from.contains(k) by {
                if k < last {
                    assert(front[k] == declarations[k]);
                    let i = choose|i: int| 0 <= i < earlier.len() && earlier[i] == k;
                    assert(from[i] == k);
                } else {
                    assert(from[earlier.len() as int] == k);
                }
            }
            from
        }
    }
}

/// A network has a tree exactly if it has members. Its nodes are those of the
/// members as the tree has put them in order, one for each, and without a key of
/// its own a node has no path in the tree.
pub proof fn network_has_the_nodes_of_its_members<
    N,
    P,
    T,
    B: FnOnce(Vec<ZkNode<N>>) -> (Vec<ZkNode<N>>, T),
    R: FnOnce(&T) -> FieldElement,
    Q: FnOnce(&T, &ZkPublicKey) -> Option<P>,
>(
    build_tree: B,
    root: R,
    path: Q,
    members: Vec<ZkNode<N>>,
    zk_key: Option<ZkPublicKey>,
    info: MembershipInfo<N, P>,
)
    requires
        network_given(build_tree, root, path, members, zk_key, info),
    ensures
        info.zk is None <==> members@.len() == 0,
        members@.len() == 0 ==> info.membership.nodes@.len() == 0,
        members@.len() > 0 ==> exists|ordered: Vec<ZkNode<N>>, tree: T|
            {
                &&& #[trigger] call_ensures(build_tree, (members,), (ordered, tree))
                &&& info.membership.nodes@.len() == ordered@.len()
                &&& forall|i: int|
                    0 <= i < ordered@.len() ==> #[trigger] info.membership.nodes@[i]
                        == ordered@[i].node
                &&& call_ensures(root, (&tree,), info.zk->0.root)
                &&& zk_key matches Some(key) ==> call_ensures(
                    path,
                    (&tree, &key),
                    info.zk->0.core_and_path_selectors,
                )
            },
        members@.len() > 0 && zk_key is None ==> info.zk->0.core_and_path_selectors is None,
{
    if members@.len() > 0 {
        let (ordered, tree) = choose|ordered: Vec<ZkNode<N>>, tree: T|
            {
                &&& #[trigger] call_ensures(build_tree, (members,), (ordered, tree))
                &&& info.membership.nodes@ == nodes_of(ordered@)
                &&& info.zk matches Some(zk)
                &&& call_ensures(root, (&tree,), zk.root)
                &&& match zk_key {
                    Some(key) => call_ensures(path, (&tree, &key), zk.core_and_path_selectors),
                    None => zk.core_and_path_selectors is None,
                }
            };
        assert(call_ensures(build_tree, (members,), (ordered, tree)));
    }
}

} // verus!
