//! Leaders of slots.

use logos_blockchain::blend::edge::NetworkMessage;
use logos_blockchain::blend::epoch::EpochState;
use logos_blockchain::leader::proof_search::{
    operator_for_private_inputs_arguments_for_winning_utxo_and_slot, public_inputs_for_slot,
    LeaderPublic, PrivateInputsError, ProofSearch, SearchAction, SearchEvent,
};
use logos_blockchain::leader::proposal::{BlendAdapter, ChainNetworkMessage, ServiceMessage};
use logos_blockchain::leader::winning_slots::{
    winning_info, EpochDecision, EpochWinningSlotsChannel, PotentialWinningPoLSlotNotifier,
    ScanAction, ScanEvent, SlotScan,
};
use logos_blockchain::mantle::primitives::{Epoch, Note, Slot, Utxo};

#[test]
fn proposals_are_blended_or_broadcast_with_the_same_settings() {
    let adapter = BlendAdapter::new("topic");
    let to_bytes = |message: &ChainNetworkMessage<u8>| {
        let ChainNetworkMessage::Proposal(proposal) = message;
        vec![*proposal, *proposal]
    };
    assert_eq!(
        adapter.blend_proposal(3, to_bytes),
        ServiceMessage::Blend(NetworkMessage { message: vec![3, 3], broadcast_settings: "topic" })
    );
    assert_eq!(
        adapter.broadcast_proposal(4, to_bytes),
        ServiceMessage::Broadcast(NetworkMessage {
            message: vec![4, 4],
            broadcast_settings: "topic"
        })
    );
}

fn epoch_state() -> EpochState {
    EpochState {
        epoch: Epoch(6),
        nonce: [1; 32],
        aged_root: [2; 32],
        total_stake: 77,
        lottery_0: [3; 32],
        lottery_1: [4; 32],
    }
}

fn public_inputs() -> LeaderPublic {
    public_inputs_for_slot(&epoch_state(), Slot(8), [5; 32])
}

#[test]
fn winning_slots_are_told_of_with_their_inputs_and_epoch() {
    assert_eq!(
        winning_info('p', &epoch_state(), Slot(8), [5; 32]),
        ('p', public_inputs(), Epoch(6))
    );
}

#[test]
fn inputs_of_a_slot_name_both_trees_and_the_lottery() {
    assert_eq!(
        public_inputs(),
        LeaderPublic {
            aged_root: [2; 32],
            latest_root: [5; 32],
            epoch_nonce: [1; 32],
            slot: 8,
            lottery_0: [3; 32],
            lottery_1: [4; 32],
        }
    );
}

#[test]
fn private_inputs_need_the_note_in_both_trees() {
    let utxo = Utxo::new([1; 32], 0, Note::new(1, [0; 32]));
    let arguments = |aged: Option<u8>, latest: Option<u8>| {
        operator_for_private_inputs_arguments_for_winning_utxo_and_slot(
            &utxo,
            public_inputs(),
            |_: &Utxo| aged,
            |_: &Utxo| latest,
            || "key",
            |key: &&str| key.len(),
        )
    };
    let Ok((found, key)) = arguments(Some(1), Some(2)) else {
        panic!("the note is in both trees")
    };
    // The key store is given the public half alone.
    assert_eq!((found.aged_path, found.latest_path, found.leader_pk, key), (1, 2, 3, "key"));
    assert_eq!(found.utxo, utxo);
    assert_eq!(found.public_inputs, public_inputs());
    assert_eq!(arguments(None, None).err(), Some(PrivateInputsError::AgedNoteNotFound));
    assert_eq!(arguments(Some(1), None).err(), Some(PrivateInputsError::LatestNoteNotFound));
}

/// What the wallet, the key store and the prover would answer for a note.
struct Answers {
    winning: bool,
    voucher: bool,
    inputs: bool,
    proof: bool,
}

fn search(notes: &[Answers]) -> (Option<(String, String)>, Vec<String>) {
    let mut log = vec![];
    let (mut search, mut action) =
        ProofSearch::<usize, usize, String, String>::start(notes.len());
    loop {
        let event = match action {
            SearchAction::CheckWinning(i) => {
                log.push(format!("check {i}"));
                SearchEvent::Checked(notes[i].winning)
            }
            SearchAction::GenerateVoucher => {
                log.push("voucher".to_string());
                let i = search.index;
                SearchEvent::Voucher(if notes[i].voucher { Some(i) } else { None })
            }
            SearchAction::BuildPrivateInputs(i) => {
                log.push(format!("inputs {i}"));
                SearchEvent::PrivateInputs(if notes[i].inputs {
                    Some((i, format!("key {i}")))
                } else {
                    None
                })
            }
            SearchAction::Prove { voucher } => {
                let private_inputs = *search.private_inputs().unwrap();
                assert_eq!(private_inputs, voucher);
                log.push(format!("prove {private_inputs}"));
                SearchEvent::Proved(if notes[private_inputs].proof {
                    Some(format!("proof {private_inputs}"))
                } else {
                    None
                })
            }
            SearchAction::Notify { private_inputs } => {
                log.push(format!("tell {private_inputs}"));
                SearchEvent::Told
            }
            SearchAction::Done(found) => return (found, log),
        };
        (search, action) = search.step(event);
    }
}

fn answers(winning: bool, voucher: bool, inputs: bool, proof: bool) -> Answers {
    Answers { winning, voucher, inputs, proof }
}

#[test]
fn search_ends_with_the_first_note_for_which_nothing_fails() {
    let (found, log) = search(&[
        answers(false, true, true, true),
        answers(true, false, true, true),
        answers(true, true, false, true),
        answers(true, true, true, false),
        answers(true, true, true, true),
        answers(true, true, true, true),
    ]);
    assert_eq!(found, Some(("proof 4".to_string(), "key 4".to_string())));
    assert_eq!(
        log,
        vec![
            "check 0", "check 1", "voucher", "check 2", "voucher", "inputs 2", "check 3",
            "voucher", "inputs 3", "prove 3", "check 4", "voucher", "inputs 4", "prove 4",
            "tell 4",
        ]
    );
    assert_eq!(search(&[]), (None, vec![]));
    let (found, log) = search(&[answers(true, true, true, false)]);
    assert_eq!(found, None);
    assert!(!log.iter().any(|entry| entry.starts_with("tell")));
}

#[test]
fn late_subscribers_get_a_snapshot_and_what_follows() {
    let mut channel = EpochWinningSlotsChannel::new();
    channel.send(1);
    channel.send(2);
    let (snapshot, position) = channel.subscribe();
    let snapshot = snapshot.to_vec();
    assert_eq!((snapshot, position), (vec![1, 2], 2));
    channel.send(3);
    assert_eq!(channel.since(position), &[3]);
    channel.clear();
    assert_eq!(channel.subscribe().0, &[] as &[i32]);
}

#[test]
fn each_epoch_is_scanned_once() {
    let mut notifier = PotentialWinningPoLSlotNotifier::new(EpochWinningSlotsChannel::new());
    assert_eq!(notifier.process_epoch(Epoch(4)), EpochDecision::Scan);
    notifier.channel.send('a');
    assert_eq!(notifier.process_epoch(Epoch(4)), EpochDecision::AlreadyProcessed);
    assert_eq!(notifier.process_epoch(Epoch(3)), EpochDecision::Outdated);
    assert_eq!(notifier.channel.subscribe().0, &['a']);
    assert_eq!(notifier.process_epoch(Epoch(6)), EpochDecision::Scan);
    assert_eq!(notifier.channel.subscribe().0, &[] as &[char]);
    assert_eq!(notifier.last_processed_epoch, Some(Epoch(6)));
}

/// The actions of a scan in which the listed notes win their slots, and those with
/// `true` have private inputs.
fn actions(mut scan: SlotScan, winning: &[(u64, usize, bool)]) -> Vec<ScanAction<String>> {
    let wins = |slot, note| winning.iter().find(|(s, n, _)| (*s, *n) == (slot, note));
    let mut actions = vec![];
    let mut event = ScanEvent::Done;
    loop {
        let action = scan.step(event);
        event = match action.clone() {
            ScanAction::Check { slot, note } => ScanEvent::Checked(wins(slot, note).is_some()),
            ScanAction::Build { slot, note } => {
                let (_, _, built) = wins(slot, note).unwrap();
                ScanEvent::Built(if *built { Some(format!("{slot}/{note}")) } else { None })
            }
            ScanAction::Send { .. } | ScanAction::Yield => ScanEvent::Done,
            ScanAction::Done => break,
        };
        actions.push(action);
    }
    let sent = actions.iter().filter(|a| matches!(a, ScanAction::Send { .. })).count();
    assert_eq!(scan.winning_count(), sent as u64);
    assert_eq!(scan.step(ScanEvent::<String>::Done), ScanAction::Done);
    actions
}

fn check(slot: u64, note: usize) -> ScanAction<String> {
    ScanAction::Check { slot, note }
}

#[test]
fn slots_are_scanned_in_order_with_a_pause_every_hundred() {
    assert_eq!(
        actions(SlotScan::new(98, 4, Slot(99), 2), &[]),
        vec![
            check(99, 0),
            check(99, 1),
            check(100, 0),
            check(100, 1),
            ScanAction::Yield,
            check(101, 0),
            check(101, 1),
        ]
    );
    // A slot before the epoch stands for its first one, one behind it for none.
    let one = |start| actions(SlotScan::new(10, 2, Slot(start), 1), &[]);
    assert_eq!(one(3), vec![check(10, 0), check(11, 0)]);
    assert_eq!(one(12), vec![]);
    assert_eq!(one(99), vec![]);
    assert_eq!(
        actions(SlotScan::new(199, 102, Slot(0), 0), &[]),
        vec![ScanAction::Yield, ScanAction::Yield]
    );
}

#[test]
fn winning_slots_with_private_inputs_are_sent() {
    let build = |slot, note| ScanAction::Build { slot, note };
    let send = |slot, private_inputs: &str| ScanAction::Send {
        slot,
        private_inputs: private_inputs.to_string(),
    };
    assert_eq!(
        actions(
            SlotScan::new(10, 2, Slot(0), 2),
            &[(10, 1, true), (11, 0, false), (11, 1, true), (12, 0, true)]
        ),
        vec![
            check(10, 0),
            check(10, 1),
            build(10, 1),
            send(10, "10/1"),
            check(11, 0),
            build(11, 0),
            check(11, 1),
            build(11, 1),
            send(11, "11/1"),
        ]
    );
}
