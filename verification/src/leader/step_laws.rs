//! What the leader does next, step by step.

use vstd::prelude::*;

use crate::blend::epoch::EpochState;
use crate::blend::leader_proofs::FieldElement;
use crate::leader::proof_search::{
    after_event, answers, at_note, first_success, slot_inputs, Attempt, ProofSearch, SearchAction,
    SearchEvent, Stage,
};
use crate::leader::winning_slots::{
    decision, go_on, last_taken_up, replies, scan_from, scanned, steps_from, unscanned,
    winning_item, Awaited, ScanAction, ScanEvent, ScanStep, ScanView,
};
use crate::mantle::primitives::{Epoch, Slot};

verus! {

/// Proofs in a slot are made against the epoch's tree of notes that may lead, its
/// nonce and its lottery, the given tree of unspent notes, and the slot.
pub proof fn slot_inputs_are_those_of_the_epoch(
    epoch_state: EpochState,
    slot: Slot,
    latest_root: FieldElement,
)
    ensures
        ({
            let inputs = slot_inputs(epoch_state, slot, latest_root);
            &&& inputs.slot == slot.0
            &&& inputs.latest_root == latest_root
            &&& inputs.aged_root == epoch_state.aged_root
            &&& inputs.epoch_nonce == epoch_state.nonce
            &&& inputs.lottery_0 == epoch_state.lottery_0
            &&& inputs.lottery_1 == epoch_state.lottery_1
        }),
{
}

/// What is told of a winning slot are the private inputs, what proofs in the slot
/// are made against, and the epoch.
pub proof fn winning_slot_is_told_with_its_epoch<P>(
    private_inputs: P,
    epoch_state: EpochState,
    slot: Slot,
    latest_root: FieldElement,
)
    ensures
        ({
            let item = winning_item(private_inputs, epoch_state, slot, latest_root);
            &&& item.0 == private_inputs
            &&& item.1 == slot_inputs(epoch_state, slot, latest_root)
            &&& item.2 == epoch_state.epoch
        }),
{
}

/// An epoch's slots are looked at exactly if no epoch was taken up before, or an
/// earlier one was last. The same epoch has been processed already, and one before
/// it is outdated.
pub proof fn later_epochs_alone_are_scanned(last: Option<Epoch>, epoch: Epoch)
    ensures
        decision(last, epoch) is Scan <==> last is None || (last->0).0 < epoch.0,
        decision(last, epoch) is AlreadyProcessed <==> last == Some(epoch),
        decision(last, epoch) is Outdated <==> last is Some && (last->0).0 > epoch.0,
{
}

/// The last epoch that was taken up is the greatest of those that came and the one
/// that was taken up before them.
pub proof fn greatest_epoch_is_taken_up(last: Option<Epoch>, epochs: Seq<Epoch>)
    ensures
        last_taken_up(last, epochs) is None <==> last is None && epochs.len() == 0,
        last_taken_up(last, epochs) matches Some(taken) ==> {
            &&& last == Some(taken) || epochs.contains(taken)
            &&& last matches Some(before) ==> before.0 <= taken.0
            &&& forall|i: int| 0 <= i < epochs.len() ==> (#[trigger] epochs[i]).0 <= taken.0
        },
    decreases epochs.len(),
{
    if epochs.len() > 0 {
        let front = epochs.drop_last();
        greatest_epoch_is_taken_up(last, front);
        assert(epochs[epochs.len() - 1] == epochs.last());
        let taken = last_taken_up(last, epochs)->0;
        assert forall|i: int| 0 <= i < epochs.len() implies (#[trigger] epochs[i]).0
            <= taken.0 by {
            if i < front.len() {
                assert(front[i] == epochs[i]);
            }
        }
        if let Some(before) = last_taken_up(last, front) {
            if front.contains(before) {
                let i = choose|i: int| 0 <= i < front.len() && front[i] == before;
                assert(epochs[i] == before);
            }
        }
    }
}

/// A scan begins at the given slot if that lies in the epoch, at the epoch's start
/// if it lies before, and at its end if it lies behind, where nothing is left.
pub proof fn scan_begins_within_the_epoch(epoch_start: u64, epoch_length: u64, slot: u64)
    requires
        epoch_start + epoch_length <= u64::MAX,
    ensures
        ({
            let end = epoch_start + epoch_length;
            let from = scan_from(epoch_start, end, slot);
            &&& epoch_start <= slot <= end ==> from == slot
            &&& slot < epoch_start ==> from == epoch_start
            &&& slot > end ==> from == end
        }),
{
}

/// The steps for one slot: each note is checked, and after every hundredth slot
/// others have their turn.
pub open spec fn slot_steps(slot: u64, notes: nat) -> Seq<ScanStep> {
    Seq::new(
        if slot % 100 == 0 {
            notes + 1
        } else {
            notes
        },
        |i: int|
            if i < notes {
                ScanStep::Check { slot, note: i as usize }
            } else {
                ScanStep::Yield
            },
    )
}

proof fn lemma_rest_of_a_slot(slot: u64, end: int, note: int, notes: usize)
    requires
        slot < end <= u64::MAX,
        0 <= note <= notes,
    ensures
        steps_from(slot as int, end, note, notes as int) == slot_steps(slot, notes as nat).skip(
            note,
        ) + steps_from(slot + 1, end, 0, notes as int),
    decreases notes - note,
{
    let steps = slot_steps(slot, notes as nat);
    let later = steps_from(slot + 1, end, 0, notes as int);
    let left = steps_from(slot as int, end, note, notes as int);
    if note < notes {
        lemma_rest_of_a_slot(slot, end, note + 1, notes);
        assert(steps.skip(note) =~= seq![steps[note]] + steps.skip(note + 1));
        assert(left =~= steps.skip(note) + later);
    } else {
        assert(left =~= steps.skip(note) + later);
    }
}

/// A scan goes slot by slot up to the end: first all that is to be done for the
/// slot, then what is to be done from the next slot on, and nothing at the end.
pub proof fn scan_goes_slot_by_slot(slot: u64, end: int, notes: usize)
    requires
        slot <= end <= u64::MAX,
    ensures
        slot == end ==> unscanned(slot as int, end, notes as int).left.len() == 0,
        slot < end ==> unscanned(slot as int, end, notes as int).left == slot_steps(
            slot,
            notes as nat,
        ) + unscanned(slot + 1, end, notes as int).left,
        unscanned(slot as int, end, notes as int).found == 0,
        unscanned(slot as int, end, notes as int).awaited is Nothing,
{
    if slot < end {
        lemma_rest_of_a_slot(slot, end, 0, notes);
        assert(slot_steps(slot, notes as nat).skip(0) =~= slot_steps(slot, notes as nat));
    }
}

/// A scan takes the first step that is left: it checks a note and waits for the
/// verdict, or lets others have their turn. With no step left it is done.
pub proof fn scan_takes_the_first_step_left<P>(left: Seq<ScanStep>, found: nat)
    ensures
        ({
            let (scan, action) = go_on::<P>(left, found);
            &&& scan.found == found
            &&& left.len() == 0 ==> action is Done && scan.left.len() == 0 && scan.awaited is Nothing
            &&& left.len() > 0 ==> scan.left == left.skip(1) && match left[0] {
                ScanStep::Check { slot, note } => action == (ScanAction::<P>::Check { slot, note })
                    && scan.awaited == (Awaited::Verdict { slot, note }),
                ScanStep::Yield => action is Yield && scan.awaited is Nothing,
            }
        }),
{
}

/// A note that wins has its private inputs put together for the same slot; a slot
/// is told of with the private inputs that were, and counted. Where a note does
/// not win, its private inputs cannot be had, or something else is done, the scan
/// goes on.
pub proof fn scan_tells_of_the_slot_that_was_checked<P>(scan: ScanView, event: ScanEvent<P>)
    requires
        replies(scan.awaited, event),
    ensures
        ({
            let (next, action) = scanned(scan, event);
            match (scan.awaited, event) {
                (Awaited::Verdict { slot, note }, ScanEvent::Checked(wins)) => if wins {
                    &&& action == (ScanAction::<P>::Build { slot, note })
                    &&& next.awaited == (Awaited::Inputs { slot, note })
                    &&& next.left == scan.left
                    &&& next.found == scan.found
                } else {
                    (next, action) == go_on::<P>(scan.left, scan.found)
                },
                (Awaited::Inputs { slot, note }, ScanEvent::Built(built)) => match built {
                    Some(private_inputs) => {
                        &&& action == (ScanAction::<P>::Send { slot, private_inputs })
                        &&& next.awaited is Nothing
                        &&& next.left == scan.left
                        &&& next.found == scan.found + 1
                    },
                    None => (next, action) == go_on::<P>(scan.left, scan.found),
                },
                (Awaited::Nothing, ScanEvent::Done) => (next, action) == go_on::<P>(
                    scan.left,
                    scan.found,
                ),
                _ => false,
            }
        }),
{
}

/// The search looks at the note at hand: it asks whether that one wins, and comes
/// to nothing behind the last.
pub proof fn search_asks_about_the_note_at_hand<V, P, K, R>(count: usize, index: int)
    requires
        0 <= index <= usize::MAX,
    ensures
        ({
            let (search, action) = at_note::<V, P, K, R>(count, index);
            &&& search.count == count
            &&& index < count ==> {
                &&& search.index == index
                &&& search.stage is Checking
                &&& action == SearchAction::<V, P, K, R>::CheckWinning(index as usize)
            }
            &&& index >= count ==> search.stage is Over && action == SearchAction::<
                V,
                P,
                K,
                R,
            >::Done(None)
        }),
{
}

/// Each request is for the note at hand and made of what was had for it: a voucher
/// for one that wins, its private inputs once there is a voucher, a proof with that
/// voucher once there are private inputs, and word of those private inputs once
/// there is a proof. What is found comes with the key that was had along with the
/// private inputs. Where one of them fails, the next note is at hand.
pub proof fn search_goes_on_with_what_it_has<V, P, K, R>(
    search: ProofSearch<V, P, K, R>,
    event: SearchEvent<V, P, K, R>,
)
    requires
        answers(search, event),
        search.index < search.count,
    ensures
        ({
            let (next, action) = after_event(search, event);
            let passed_over = (next, action) == at_note::<V, P, K, R>(
                search.count,
                search.index + 1,
            );
            let kept = next.count == search.count && next.index == search.index;
            match (search.stage, event) {
                (Stage::Checking, SearchEvent::Checked(wins)) => if wins {
                    kept && next.stage is Voucher && action is GenerateVoucher
                } else {
                    passed_over
                },
                (Stage::Voucher, SearchEvent::Voucher(Some(voucher))) => {
                    &&& kept
                    &&& next.stage == (Stage::<V, P, K, R>::Building { voucher })
                    &&& action == SearchAction::<V, P, K, R>::BuildPrivateInputs(search.index)
                },
                (
                    Stage::Building { voucher },
                    SearchEvent::PrivateInputs(Some((private_inputs, key))),
                ) => {
                    &&& kept
                    &&& next.stage == (Stage::<V, P, K, R>::Proving { private_inputs, key })
                    &&& action == (SearchAction::<V, P, K, R>::Prove { voucher })
                },
                (Stage::Proving { private_inputs, key }, SearchEvent::Proved(Some(found))) => {
                    &&& kept
                    &&& next.stage == (Stage::<V, P, K, R>::Telling { found, key })
                    &&& action == (SearchAction::<V, P, K, R>::Notify { private_inputs })
                },
                (Stage::Telling { found, key }, SearchEvent::Told) => {
                    &&& kept
                    &&& next.stage is Over
                    &&& action == SearchAction::<V, P, K, R>::Done(Some((found, key)))
                },
                _ => passed_over,
            }
        }),
{
}

/// The first success is an attempt for which everything was had, and no attempt
/// before it is one.
pub proof fn first_success_comes_before_the_others<V, P, K, R>(
    attempts: Seq<Attempt<V, P, K, R>>,
    index: int,
)
    requires
        0 <= index <= attempts.len(),
    ensures
        match first_success(attempts, index) {
            Some(attempt) => exists|i: int|
                index <= i < attempts.len() && #[trigger] attempts[i] == attempt && attempt.winning
                    && attempt.voucher is Some && attempt.private_inputs is Some
                    && attempt.found is Some && forall|j: int|
                    index <= j < i ==> !((#[trigger] attempts[j]).winning && attempts[j].voucher
                        is Some && attempts[j].private_inputs is Some && attempts[j].found is Some),
            None => forall|j: int|
                index <= j < attempts.len() ==> !((#[trigger] attempts[j]).winning
                    && attempts[j].voucher is Some && attempts[j].private_inputs is Some
                    && attempts[j].found is Some),
        },
    decreases attempts.len() - index,
{
    if index < attempts.len() {
        let here = attempts[index];
        first_success_comes_before_the_others(attempts, index + 1);
        if !(here.winning && here.voucher is Some && here.private_inputs is Some
            && here.found is Some) {
            if let Some(attempt) = first_success(attempts, index + 1) {
                let i = choose|i: int|
                    index + 1 <= i < attempts.len() && #[trigger] attempts[i] == attempt
                        && attempt.winning && attempt.voucher is Some && attempt.private_inputs
                        is Some && attempt.found is Some && forall|j: int|
                        index + 1 <= j < i ==> !((#[trigger] attempts[j]).winning
                            && attempts[j].voucher is Some && attempts[j].private_inputs is Some
                            && attempts[j].found is Some);
                assert(attempts[i] == attempt);
            }
        }
    }
}

} // verus!
