//! The slots of an epoch that a node may win: which are looked at, in which
//! order, and who is told.

use vstd::prelude::*;

use crate::blend::epoch::EpochState;
use crate::blend::leader_proofs::FieldElement;
use crate::leader::proof_search::{public_inputs_for_slot, slot_inputs, LeaderPublic};
use crate::mantle::primitives::{Epoch, Slot};

verus! {

/// The winning slots of the current epoch so far. Whoever subscribes gets a
/// snapshot of them and then those that follow.
#[derive(Debug)]
pub struct EpochWinningSlotsChannel<T> {
    log: Vec<T>,
}

impl<T> View for EpochWinningSlotsChannel<T> {
    type V = Seq<T>;

    closed spec fn view(&self) -> Seq<T> {
        self.log@
    }
}

impl<T> EpochWinningSlotsChannel<T> {
    /// No winning slots so far.
    #[must_use]
    pub fn new() -> (r: Self)
        ensures
            r@ == Seq::<T>::empty(),
    {
        Self { log: Vec::new() }
    }

    /// Notes a winning slot.
    pub fn send(&mut self, info: T)
        ensures
            final(self)@ == old(self)@.push(info),
    {
        self.log.push(info);
    }

    /// A snapshot of the winning slots so far, and the position from which on the
    /// subscriber is told of further ones.
    pub fn subscribe(&self) -> (r: (&[T], usize))
        ensures
            r.0@ == self@,
            r.1 == self@.len(),
    {
        (self.log.as_slice(), self.log.len())
    }

    /// The winning slots from a position on.
    pub fn since(&self, position: usize) -> (r: &[T])
        requires
            position <= self@.len(),
        ensures
            r@ == self@.skip(position as int),
    {
        let rest = vstd::slice::slice_subrange(self.log.as_slice(), position, self.log.len());
        assert(rest@ =~= self@.skip(position as int));
        rest
    }

    /// Forgets the winning slots, as a new epoch begins.
    pub fn clear(&mut self)
        ensures
            final(self)@ == Seq::<T>::empty(),
    {
        self.log = Vec::new();
    }
}

/// Each winning slot of an epoch reaches a subscriber once: in the snapshot if it
/// was noted before, as a further one if after, whatever was noted in between.
pub proof fn subscriber_misses_nothing<T>(at_subscription: Seq<T>, noted_since: Seq<T>)
    ensures
        ({
            let now = at_subscription + noted_since;
            let position = at_subscription.len() as int;
            &&& now.skip(position) == noted_since
            &&& at_subscription + now.skip(position) == now
        }),
{
    let now = at_subscription + noted_since;
    assert(now.skip(at_subscription.len() as int) =~= noted_since);
}

/// What is done about an epoch.
#[derive(Debug, Clone, Copy, PartialEq, Eq, Structural)]
pub enum EpochDecision {
    /// Nothing: its slots are being looked at already.
    AlreadyProcessed,
    /// Nothing: a later epoch was there before.
    Outdated,
    /// Stop looking at slots of an earlier epoch, and look at this one's.
    Scan,
}

/// Decides about epochs as they come.
#[derive(Debug)]
pub struct PotentialWinningPoLSlotNotifier<T> {
    pub channel: EpochWinningSlotsChannel<T>,
    pub last_processed_epoch: Option<Epoch>,
}

/// What is done about an epoch, given the last one that was taken up.
pub open spec fn decision(last: Option<Epoch>, epoch: Epoch) -> EpochDecision {
    match last {
        None => EpochDecision::Scan,
        Some(last) => if last == epoch {
            EpochDecision::AlreadyProcessed
        } else if last.0 > epoch.0 {
            EpochDecision::Outdated
        } else {
            EpochDecision::Scan
        },
    }
}

impl<T> PotentialWinningPoLSlotNotifier<T> {
    /// No epoch has been taken up.
    #[must_use]
    pub fn new(channel: EpochWinningSlotsChannel<T>) -> (r: Self)
        ensures
            r.channel == channel,
            r.last_processed_epoch is None,
    {
        Self { channel, last_processed_epoch: None }
    }

    /// Decides about an epoch. If its slots are to be looked at, the winning slots
    /// of the epoch before are forgotten; otherwise nothing changes.
    pub fn process_epoch(&mut self, epoch: Epoch) -> (r: EpochDecision)
        ensures
            r == decision(old(self).last_processed_epoch, epoch),
            r == EpochDecision::Scan ==> {
                &&& final(self).last_processed_epoch == Some(epoch)
                &&& final(self).channel@ == Seq::<T>::empty()
            },
            r != EpochDecision::Scan ==> *final(self) == *old(self),
    {
        match self.last_processed_epoch {
            Some(last_epoch) => {
                if last_epoch.0 == epoch.0 {
                    return EpochDecision::AlreadyProcessed;
                }
                if last_epoch.0 > epoch.0 {
                    return EpochDecision::Outdated;
                }
            },
            None => {},
        }
        self.channel.clear();
        self.last_processed_epoch = Some(epoch);
        EpochDecision::Scan
    }
}

/// The last epoch that was taken up after a number of epochs came, if any.
pub open spec fn last_taken_up(last: Option<Epoch>, epochs: Seq<Epoch>) -> Option<Epoch>
    decreases epochs.len(),
{
    if epochs.len() == 0 {
        last
    } else {
        let before = last_taken_up(last, epochs.drop_last());
        if decision(before, epochs.last()) == EpochDecision::Scan {
            Some(epochs.last())
        } else {
            before
        }
    }
}

/// However often epochs come, none is taken up twice: one that came before is
/// not taken up again.
pub proof fn no_epoch_is_taken_up_twice(last: Option<Epoch>, epochs: Seq<Epoch>, i: int)
    requires
        0 <= i < epochs.len(),
    ensures
        decision(last_taken_up(last, epochs), epochs[i]) != EpochDecision::Scan,
        last_taken_up(last, epochs) matches Some(taken) && taken.0 >= epochs[i].0,
    decreases epochs.len(),
{
    let front = epochs.drop_last();
    if i < front.len() {
        no_epoch_is_taken_up_twice(last, front, i);
        assert(front[i] == epochs[i]);
    }
}

/// The slots of an epoch that are looked at: from the one given, but none before
/// the epoch or behind its end, up to its end.
pub open spec fn scan_from(epoch_start: u64, epoch_end: int, starting_slot: u64) -> int {
    if starting_slot < epoch_start {
        epoch_start as int
    } else if starting_slot > epoch_end {
        epoch_end
    } else {
        starting_slot as int
    }
}

/// What is told of a winning slot: what the node keeps to itself, what proofs in
/// the slot are made against, and the epoch.
pub open spec fn winning_item<P>(
    private_inputs: P,
    epoch_state: EpochState,
    slot: Slot,
    latest_root: FieldElement,
) -> (P, LeaderPublic, Epoch) {
    (private_inputs, slot_inputs(epoch_state, slot, latest_root), epoch_state.epoch)
}

/// What is told of a winning slot.
pub fn winning_info<P>(
    private_inputs: P,
    epoch_state: &EpochState,
    slot: Slot,
    latest_root: FieldElement,
) -> (r: (P, LeaderPublic, Epoch))
    ensures
        r == winning_item(private_inputs, *epoch_state, slot, latest_root),
{
    (private_inputs, public_inputs_for_slot(epoch_state, slot, latest_root), epoch_state.epoch)
}

/// One of the things that a look at an epoch's slots comes to, whatever the
/// answers are.
#[derive(Debug, Clone, Copy, PartialEq, Eq, Structural)]
pub enum ScanStep {
    /// Check whether a note wins a slot.
    Check { slot: u64, note: usize },
    /// Let others have their turn.
    Yield,
}

/// What has come of the last action. `P` is the type of private inputs.
#[derive(Debug, Clone, PartialEq, Eq)]
pub enum ScanEvent<P> {
    /// Whether the note wins the slot.
    Checked(bool),
    /// The private inputs, if they could be put together.
    Built(Option<P>),
    /// It is done; or nothing was to be done yet.
    Done,
}

/// What is to be done next.
#[derive(Debug, Clone, PartialEq, Eq)]
pub enum ScanAction<P> {
    /// Check whether a note wins a slot.
    Check { slot: u64, note: usize },
    /// Put together the private inputs for a note that wins a slot.
    Build { slot: u64, note: usize },
    /// Tell of a winning slot.
    Send { slot: u64, private_inputs: P },
    /// Let others have their turn.
    Yield,
    /// Nothing: the epoch's slots have been looked at.
    Done,
}

/// The answer that is waited for.
#[derive(Debug, Clone, Copy, PartialEq, Eq)]
pub enum Awaited {
    Nothing,
    Verdict { slot: u64, note: usize },
    Inputs { slot: u64, note: usize },
}

/// How far the look at an epoch's slots has got.
#[derive(Debug, Clone, Copy, PartialEq, Eq)]
pub struct SlotScan {
    slot: u64,
    end: u64,
    note: usize,
    notes: usize,
    awaited: Awaited,
    winning_count: u64,
}

/// What a [`SlotScan`] says.
#[verifier::ext_equal]
pub struct ScanView {
    /// What is left to be done.
    pub left: Seq<ScanStep>,
    /// The answer that is waited for.
    pub awaited: Awaited,
    /// How many winning slots have been told of.
    pub found: nat,
}

/// After every so many slots others have their turn.
pub const YIELD_INTERVAL: u64 = 100;

/// What is left to be done from a note of a slot on: slot by slot, and in each
/// slot note by note.
pub open spec fn steps_from(slot: int, end: int, note: int, notes: int) -> Seq<ScanStep>
    decreases end - slot, notes - note,
{
    if slot >= end || note > notes || note < 0 {
        Seq::empty()
    } else if note < notes {
        seq![ScanStep::Check { slot: slot as u64, note: note as usize }] + steps_from(
            slot,
            end,
            note + 1,
            notes,
        )
    } else if slot % YIELD_INTERVAL as int == 0 {
        seq![ScanStep::Yield] + steps_from(slot + 1, end, 0, notes)
    } else {
        steps_from(slot + 1, end, 0, notes)
    }
}

/// Whether an event answers what is waited for.
pub open spec fn replies<P>(awaited: Awaited, event: ScanEvent<P>) -> bool {
    match awaited {
        Awaited::Nothing => event is Done,
        Awaited::Verdict { .. } => event is Checked,
        Awaited::Inputs { .. } => event is Built,
    }
}

/// The next of the things that are left, and the scan on the way.
pub open spec fn go_on<P>(left: Seq<ScanStep>, found: nat) -> (ScanView, ScanAction<P>) {
    if left.len() == 0 {
        (ScanView { left, awaited: Awaited::Nothing, found }, ScanAction::Done)
    } else {
        match left[0] {
            ScanStep::Check { slot, note } => (
                ScanView { left: left.skip(1), awaited: Awaited::Verdict { slot, note }, found },
                ScanAction::Check { slot, note },
            ),
            ScanStep::Yield => (
                ScanView { left: left.skip(1), awaited: Awaited::Nothing, found },
                ScanAction::Yield,
            ),
        }
    }
}

/// The scan after an event, and what is to be done next. A note that wins has its
/// private inputs put together; when they are, the slot is told of and counted.
/// Otherwise the scan goes on.
pub open spec fn scanned<P>(scan: ScanView, event: ScanEvent<P>) -> (ScanView, ScanAction<P>) {
    match (scan.awaited, event) {
        (Awaited::Verdict { slot, note }, ScanEvent::Checked(true)) => (
            ScanView { awaited: Awaited::Inputs { slot, note }, ..scan },
            ScanAction::Build { slot, note },
        ),
        (Awaited::Inputs { slot, .. }, ScanEvent::Built(Some(private_inputs))) => (
            ScanView { awaited: Awaited::Nothing, found: scan.found + 1, ..scan },
            ScanAction::Send { slot, private_inputs },
        ),
        _ => go_on(scan.left, scan.found),
    }
}

impl View for SlotScan {
    type V = ScanView;

    closed spec fn view(&self) -> ScanView {
        ScanView {
            left: steps_from(
                self.slot as int,
                self.end as int,
                self.note as int,
                self.notes as int,
            ),
            awaited: self.awaited,
            found: self.winning_count as nat,
        }
    }
}

/// The scan before anything is done, from a slot to an end with a number of notes.
pub open spec fn unscanned(from: int, end: int, notes: int) -> ScanView {
    ScanView { left: steps_from(from, end, 0, notes), awaited: Awaited::Nothing, found: 0 }
}

impl SlotScan {
    #[verifier::type_invariant]
    spec fn note_in_range(&self) -> bool {
        self.note <= self.notes
    }

    /// Looks at the slots of an epoch from one on, with a number of notes.
    #[must_use]
    pub fn new(epoch_start: u64, epoch_length: u64, starting_slot: Slot, notes: usize) -> (r: Self)
        requires
            epoch_start + epoch_length <= u64::MAX,
        ensures
            r@ == unscanned(
                scan_from(epoch_start, epoch_start + epoch_length, starting_slot.0),
                epoch_start + epoch_length,
                notes as int,
            ),
    {
        let end: u64 = epoch_start + epoch_length;
        let slot: u64 = if starting_slot.0 < epoch_start {
            epoch_start
        } else if starting_slot.0 > end {
            end
        } else {
            starting_slot.0
        };
        Self { slot, end, note: 0, notes, awaited: Awaited::Nothing, winning_count: 0 }
    }

    fn next_step(&mut self) -> (r: Option<ScanStep>)
        ensures
            final(self)@.found == old(self)@.found,
            final(self)@.awaited == old(self)@.awaited,
            final(self).winning_count == old(self).winning_count,
            match r {
                Some(step) => old(self)@.left == seq![step] + final(self)@.left,
                None => old(self)@.left.len() == 0 && final(self)@.left.len() == 0,
            },
    {
        proof {
            use_type_invariant(&*self);
        }
        let ghost before = self@.left;
        let mut slot: u64 = self.slot;
        let mut note: usize = self.note;
        let end: u64 = self.end;
        let notes: usize = self.notes;
        while slot < end && note == notes && slot % YIELD_INTERVAL != 0
            invariant
                note <= notes,
                before == steps_from(slot as int, end as int, note as int, notes as int),
            decreases end - slot, notes - note,
        {
            slot = slot + 1;
            note = 0;
        }
        if slot >= end {
            self.note = note;
            self.slot = slot;
            return None;
        }
        if note < notes {
            let step = ScanStep::Check { slot, note };
            self.note = note + 1;
            self.slot = slot;
            return Some(step);
        }
        self.note = 0;
        self.slot = slot + 1;
        Some(ScanStep::Yield)
    }

    fn proceed<P>(&mut self) -> (r: ScanAction<P>)
        ensures
            (final(self)@, r) == go_on::<P>(old(self)@.left, old(self)@.found),
    {
        proof {
            use_type_invariant(&*self);
        }
        let ghost before = self@.left;
        self.awaited = Awaited::Nothing;
        match self.next_step() {
            Some(ScanStep::Check { slot, note }) => {
                assert(before.skip(1) =~= self@.left);
                proof {
                    use_type_invariant(&*self);
                }
                self.awaited = Awaited::Verdict { slot, note };
                ScanAction::Check { slot, note }
            },
            Some(ScanStep::Yield) => {
                assert(before.skip(1) =~= self@.left);
                ScanAction::Yield
            },
            None => {
                assert(before =~= self@.left);
                ScanAction::Done
            },
        }
    }

    /// Takes what has come of the last action, and says what to do next. The
    /// first event is that nothing was to be done yet.
    pub fn step<P>(&mut self, event: ScanEvent<P>) -> (r: ScanAction<P>)
        requires
            replies(old(self)@.awaited, event),
            event matches ScanEvent::Built(Some(_)) ==> old(self)@.found < u64::MAX,
        ensures
            (final(self)@, r) == scanned(old(self)@, event),
    {
        proof {
            use_type_invariant(&*self);
        }
        match (self.awaited, event) {
            (Awaited::Verdict { slot, note }, ScanEvent::Checked(true)) => {
                self.awaited = Awaited::Inputs { slot, note };
                ScanAction::Build { slot, note }
            },
            (Awaited::Inputs { slot, .. }, ScanEvent::Built(Some(private_inputs))) => {
                self.awaited = Awaited::Nothing;
                self.winning_count = self.winning_count + 1;
                ScanAction::Send { slot, private_inputs }
            },
            _ => self.proceed(),
        }
    }

    /// How many winning slots have been told of.
    #[must_use]
    pub fn winning_count(&self) -> (r: u64)
        ensures
            r == self@.found,
    {
        self.winning_count
    }
}

/// The checks among steps, as slot and note.
pub open spec fn checks(steps: Seq<ScanStep>) -> Seq<(int, int)>
    decreases steps.len(),
{
    if steps.len() == 0 {
        Seq::empty()
    } else {
        match steps[0] {
            ScanStep::Check { slot, note } => seq![(slot as int, note as int)] + checks(
                steps.skip(1),
            ),
            ScanStep::Yield => checks(steps.skip(1)),
        }
    }
}

/// All notes of all slots from a note of a slot on: slot by slot, and in each
/// slot note by note.
pub open spec fn all_checks(slot: int, end: int, note: int, notes: int) -> Seq<(int, int)> {
    Seq::new(
        ((end - slot) * notes - note) as nat,
        |i: int| (slot + (note + i) / notes, (note + i) % notes),
    )
}

/// Each note is checked once in each slot that is looked at, the nearest slots
/// first.
pub proof fn every_note_is_checked_in_every_slot(slot: int, end: int, note: int, notes: int)
    requires
        0 <= slot <= end <= u64::MAX,
        0 <= note <= notes <= usize::MAX,
        slot == end ==> note == 0,
    ensures
        checks(steps_from(slot, end, note, notes)) == all_checks(slot, end, note, notes),
    decreases end - slot, notes - note,
{
    let steps = steps_from(slot, end, note, notes);
    let all = all_checks(slot, end, note, notes);
    if slot == end {
        assert((end - slot) * notes - note == 0) by (nonlinear_arith)
            requires
                slot == end,
                note == 0,
        ;
        assert(all =~= Seq::<(int, int)>::empty());
    } else if note < notes {
        every_note_is_checked_in_every_slot(slot, end, note + 1, notes);
        let rest = steps_from(slot, end, note + 1, notes);
        assert(steps.skip(1) =~= rest);
        assert((end - slot) * notes >= notes) by (nonlinear_arith)
            requires
                end - slot >= 1,
                notes > 0,
        ;
        assert(all =~= seq![(slot, note)] + all_checks(slot, end, note + 1, notes)) by {
            assert(note / notes == 0 && note % notes == note) by (nonlinear_arith)
                requires
                    0 <= note < notes,
            ;
            let tail = all_checks(slot, end, note + 1, notes);
            assert forall|i: int| 0 < i < all.len() implies #[trigger] all[i] == tail[i - 1] by {
                assert(note + i == note + 1 + (i - 1));
            }
        }
    } else {
        every_note_is_checked_in_every_slot(slot + 1, end, 0, notes);
        let rest = steps_from(slot + 1, end, 0, notes);
        if slot % YIELD_INTERVAL as int == 0 {
            assert(steps.skip(1) =~= rest);
        }
        let next = all_checks(slot + 1, end, 0, notes);
        assert((end - slot) * notes - note == (end - (slot + 1)) * notes) by (nonlinear_arith)
            requires
                note == notes,
        ;
        assert(all =~= next) by {
            assert forall|i: int| 0 <= i < all.len() implies #[trigger] all[i] == next[i] by {
                vstd::arithmetic::div_mod::lemma_div_plus_one(i, notes);
                vstd::arithmetic::div_mod::lemma_mod_add_multiples_vanish(i, notes);
            }
        }
    }
}

/// What comes of an action: `wins` says whether a note wins a slot, `built` what
/// its private inputs are, if they can be put together.
pub open spec fn reply<P>(
    action: ScanAction<P>,
    wins: spec_fn(int, int) -> bool,
    built: spec_fn(int, int) -> Option<P>,
) -> ScanEvent<P> {
    match action {
        ScanAction::Check { slot, note } => ScanEvent::Checked(wins(slot as int, note as int)),
        ScanAction::Build { slot, note } => ScanEvent::Built(built(slot as int, note as int)),
        _ => ScanEvent::Done,
    }
}

/// How many more actions there can be before the scan goes on.
pub open spec fn urgency<P>(action: ScanAction<P>) -> nat {
    match action {
        ScanAction::Check { .. } => 4,
        ScanAction::Build { .. } => 3,
        ScanAction::Send { .. } => 2,
        ScanAction::Yield => 1,
        ScanAction::Done => 0,
    }
}

/// The winning slots that are told of from an action on, each with its private
/// inputs, and the scan at the end.
pub open spec fn told<P>(
    scan: ScanView,
    action: ScanAction<P>,
    wins: spec_fn(int, int) -> bool,
    built: spec_fn(int, int) -> Option<P>,
) -> (Seq<(int, P)>, ScanView)
    decreases scan.left.len(), urgency(action),
{
    if action is Done {
        (Seq::empty(), scan)
    } else {
        let (next, next_action) = scanned(scan, reply(action, wins, built));
        let (later, last) = told(next, next_action, wins, built);
        match action {
            ScanAction::Send { slot, private_inputs } => (
                seq![(slot as int, private_inputs)] + later,
                last,
            ),
            _ => (later, last),
        }
    }
}

/// Those of the slots and notes that win and whose private inputs can be put
/// together, in their order.
pub open spec fn won<P>(
    checks: Seq<(int, int)>,
    wins: spec_fn(int, int) -> bool,
    built: spec_fn(int, int) -> Option<P>,
) -> Seq<(int, P)>
    decreases checks.len(),
{
    if checks.len() == 0 {
        Seq::empty()
    } else {
        let (slot, note) = checks[0];
        let later = won(checks.skip(1), wins, built);
        if wins(slot, note) && built(slot, note) is Some {
            seq![(slot, built(slot, note)->0)] + later
        } else {
            later
        }
    }
}

proof fn lemma_told<P>(
    left: Seq<ScanStep>,
    found: nat,
    wins: spec_fn(int, int) -> bool,
    built: spec_fn(int, int) -> Option<P>,
)
    ensures
        ({
            let (scan, action) = go_on::<P>(left, found);
            let expected = won(checks(left), wins, built);
            told(scan, action, wins, built) == (
                expected,
                ScanView {
                    left: Seq::empty(),
                    awaited: Awaited::Nothing,
                    found: found + expected.len(),
                },
            )
        }),
    decreases left.len(),
{
    reveal_with_fuel(told, 5);
    if left.len() == 0 {
        assert(left =~= Seq::empty());
    } else {
        let rest = left.skip(1);
        lemma_told(rest, found, wins, built);
        if let ScanStep::Check { slot, note } = left[0] {
            lemma_told(rest, found + 1, wins, built);
            assert(checks(left).skip(1) =~= checks(rest));
        }
    }
}

/// Whatever the answers are, a scan tells of exactly the slots and notes that win
/// and whose private inputs can be put together, the nearest slots first and in
/// each slot note by note, and counts them. From the end of the epoch on it tells
/// of nothing.
pub proof fn scan_tells_of_what_wins<P>(
    from: int,
    end: int,
    notes: int,
    wins: spec_fn(int, int) -> bool,
    built: spec_fn(int, int) -> Option<P>,
)
    requires
        0 <= from <= end <= u64::MAX,
        0 <= notes <= usize::MAX,
    ensures
        ({
            let (scan, action) = scanned(unscanned(from, end, notes), ScanEvent::<P>::Done);
            let (items, last) = told(scan, action, wins, built);
            &&& items == won(all_checks(from, end, 0, notes), wins, built)
            &&& last.found == items.len()
            &&& last.left.len() == 0
            &&& from == end ==> items.len() == 0
        }),
{
    every_note_is_checked_in_every_slot(from, end, 0, notes);
    lemma_told(steps_from(from, end, 0, notes), 0, wins, built);
    if from == end {
        assert((end - from) * notes == 0) by (nonlinear_arith)
            requires
                from == end,
        ;
    }
}

} // verus!
