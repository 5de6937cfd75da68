//! What is accepted when an operation is read off bytes, and what copies keep.

use vstd::prelude::*;

use crate::mantle::codec::{all_accepted, some_refused};
use crate::mantle::layout_laws::{number_at, reading_takes_off_the_front};
use crate::mantle::ops::channel::withdraw::owners;
use crate::mantle::ops::{
    element_refused, elements_accepted, encodable, is_handed_on, length_given, proof_cloned,
    OpProof, OpView,
};
use crate::mantle::primitives::Note;

verus! {

/// Whether each or one of some 32-byte strings can be accepted or refused depends
/// on what is said of each of them.
pub proof fn strings_are_judged_one_by_one<A: Fn(&[u8; 32]) -> bool>(
    accepts: A,
    items: Seq<[u8; 32]>,
)
    ensures
        all_accepted(accepts, items) <==> forall|i: int|
            0 <= i < items.len() ==> call_ensures(accepts, (&#[trigger] items[i],), true),
        some_refused(accepts, items) <==> exists|i: int|
            0 <= i < items.len() && call_ensures(accepts, (&#[trigger] items[i],), false),
{
}

/// The keys that sign are the accredited keys of a configuration. The elements are
/// its sequencers' keys, the inputs of a deposit, and the owners of the outputs of
/// a withdrawal. An operation is accepted if each of them is, and refused if one
/// is; there are none in an operation that is handed on.
pub proof fn operation_is_accepted_with_all_its_elements<
    A: Fn(&[u8; 32]) -> bool,
    Z: Fn(&[u8; 32]) -> bool,
>(accepts_key: A, accepts_element: Z, op: OpView)
    ensures
        match op {
            OpView::ChannelConfig(config) => {
                &&& elements_accepted(accepts_key, accepts_element, op) <==> {
                    &&& forall|i: int|
                        0 <= i < config.keys.len() ==> call_ensures(
                            accepts_key,
                            (&#[trigger] config.keys[i],),
                            true,
                        )
                    &&& forall|i: int|
                        0 <= i < config.sequencer_zk_pks.len() ==> call_ensures(
                            accepts_element,
                            (&#[trigger] config.sequencer_zk_pks[i],),
                            true,
                        )
                }
                &&& element_refused(accepts_key, accepts_element, op) <==> {
                    ||| exists|i: int|
                        0 <= i < config.keys.len() && call_ensures(
                            accepts_key,
                            (&#[trigger] config.keys[i],),
                            false,
                        )
                    ||| exists|i: int|
                        0 <= i < config.sequencer_zk_pks.len() && call_ensures(
                            accepts_element,
                            (&#[trigger] config.sequencer_zk_pks[i],),
                            false,
                        )
                }
            },
            OpView::ChannelDeposit(deposit) => {
                &&& elements_accepted(accepts_key, accepts_element, op) <==> forall|i: int|
                    0 <= i < deposit.inputs.len() ==> call_ensures(
                        accepts_element,
                        (&#[trigger] deposit.inputs[i],),
                        true,
                    )
                &&& element_refused(accepts_key, accepts_element, op) <==> exists|i: int|
                    0 <= i < deposit.inputs.len() && call_ensures(
                        accepts_element,
                        (&#[trigger] deposit.inputs[i],),
                        false,
                    )
            },
            OpView::ChannelWithdraw(withdrawal) => {
                &&& elements_accepted(accepts_key, accepts_element, op) <==> forall|i: int|
                    0 <= i < withdrawal.outputs.len() ==> call_ensures(
                        accepts_element,
                        (&(#[trigger] withdrawal.outputs[i]).pk,),
                        true,
                    )
                &&& element_refused(accepts_key, accepts_element, op) <==> exists|i: int|
                    0 <= i < withdrawal.outputs.len() && call_ensures(
                        accepts_element,
                        (&(#[trigger] withdrawal.outputs[i]).pk,),
                        false,
                    )
            },
            _ => {
                &&& elements_accepted(accepts_key, accepts_element, op)
                &&& !element_refused(accepts_key, accepts_element, op)
            },
        },
{
    if let OpView::ChannelWithdraw(withdrawal) = op {
        let notes = withdrawal.outputs;
        let pks = owners(notes);
        assert(pks.len() == notes.len());
        assert(forall|i: int| 0 <= i < notes.len() ==> #[trigger] pks[i] == notes[i].pk);
        if elements_accepted(accepts_key, accepts_element, op) {
            assert forall|i: int| 0 <= i < notes.len() implies call_ensures(
                accepts_element,
                (&(#[trigger] notes[i]).pk,),
                true,
            ) by {
                assert(call_ensures(accepts_element, (&pks[i],), true));
            }
        }
        if element_refused(accepts_key, accepts_element, op) {
            let i = choose|i: int|
                0 <= i < pks.len() && call_ensures(accepts_element, (&#[trigger] pks[i],), false);
            assert(call_ensures(accepts_element, (&notes[i].pk,), false));
        }
        if exists|i: int|
            0 <= i < notes.len() && call_ensures(
                accepts_element,
                (&(#[trigger] notes[i]).pk,),
                false,
            ) {
            let i = choose|i: int|
                0 <= i < notes.len() && call_ensures(
                    accepts_element,
                    (&(#[trigger] notes[i]).pk,),
                    false,
                );
            assert(call_ensures(accepts_element, (&pks[i],), false));
        }
    }
}

/// The owners of notes are their keys, one for each note in their order.
pub proof fn owners_are_the_keys_of_the_notes(notes: Seq<Note>)
    ensures
        owners(notes).len() == notes.len(),
        forall|i: int| 0 <= i < notes.len() ==> #[trigger] owners(notes)[i] == notes[i].pk,
{
}

/// An operation can be told from its bytes exactly if its lists are as long as the
/// width of their encoded lengths allows, and a configuration has one accredited
/// key at least.
pub proof fn operations_within_the_limits_can_be_encoded(op: OpView)
    ensures
        encodable(op) <==> match op {
            OpView::ChannelConfig(config) => 1 <= config.keys.len() <= 65535
                && config.sequencer_zk_pks.len() <= 65535,
            OpView::ChannelDeposit(deposit) => deposit.inputs.len() <= 255
                && deposit.metadata.len() <= 4294967295,
            OpView::ChannelWithdraw(withdrawal) => withdrawal.outputs.len() <= 255,
            _ => true,
        },
{
}

/// The length of an operation that is handed on is what was said of its code and
/// of all bytes behind the code. Nobody is asked about other operations.
pub proof fn length_is_asked_of_what_follows_the_code<P: Fn(u8, &[u8]) -> Option<usize>>(
    payload_length: P,
    bytes: Seq<u8>,
    length: Option<usize>,
)
    requires
        bytes.len() > 0,
    ensures
        is_handed_on(bytes[0]) ==> (length_given(payload_length, bytes, length) <==> exists|
            slice: &[u8],
        |
            slice@ == bytes.skip(1) && #[trigger] call_ensures(
                payload_length,
                (bytes[0], slice),
                length,
            )),
        !is_handed_on(bytes[0]) ==> (length_given(payload_length, bytes, length)
            <==> length is None),
{
    reading_takes_off_the_front(bytes, 1);
    reveal_with_fuel(number_at, 2);
}

/// A copy of a proof of authorization is of the same kind, holds the same
/// signatures by keys, and clones of all else.
pub proof fn copy_of_a_proof_keeps_kind_and_signatures<Z: Clone, C: Clone>(
    source: OpProof<Z, C>,
    copy: OpProof<Z, C>,
)
    requires
        proof_cloned(source, copy),
    ensures
        source is Ed25519Sig <==> copy is Ed25519Sig,
        source is ZkSig <==> copy is ZkSig,
        source is ZkAndEd25519Sigs <==> copy is ZkAndEd25519Sigs,
        source is PoC <==> copy is PoC,
        source is ChannelMultiSigProof <==> copy is ChannelMultiSigProof,
        source is Ed25519Sig ==> copy->Ed25519Sig_0 == source->Ed25519Sig_0,
        source is ZkSig ==> cloned(source->ZkSig_0, copy->ZkSig_0),
        source is ZkAndEd25519Sigs ==> cloned(source->zk_sig, copy->zk_sig) && copy->ed25519_sig
            == source->ed25519_sig,
        source is PoC ==> cloned(source->PoC_0, copy->PoC_0),
        source is ChannelMultiSigProof ==> copy->ChannelMultiSigProof_0@
            == source->ChannelMultiSigProof_0@,
{
}

} // verus!
