//! The search for a note that wins a slot, up to the proof of leadership.
//!
//! The wallet, the key store and the prover do their work elsewhere. Here it is
//! decided what to ask of them next.

use vstd::prelude::*;

use crate::blend::epoch::EpochState;
use crate::blend::leader_proofs::FieldElement;
use crate::mantle::primitives::{Slot, Utxo};

verus! {

/// What a proof of leadership is made and checked against.
#[derive(Clone, Copy, Debug, PartialEq, Eq)]
pub struct LeaderPublic {
    pub aged_root: FieldElement,
    pub latest_root: FieldElement,
    pub epoch_nonce: FieldElement,
    pub slot: u64,
    pub lottery_0: FieldElement,
    pub lottery_1: FieldElement,
}

/// What proofs of leadership in a slot are made against: the notes that may lead,
/// those that are unspent now, and the epoch's lottery.
pub open spec fn slot_inputs(
    epoch_state: EpochState,
    slot: Slot,
    latest_root: FieldElement,
) -> LeaderPublic {
    LeaderPublic {
        aged_root: epoch_state.aged_root,
        latest_root,
        epoch_nonce: epoch_state.nonce,
        slot: slot.0,
        lottery_0: epoch_state.lottery_0,
        lottery_1: epoch_state.lottery_1,
    }
}

/// What proofs of leadership in a slot are made against.
#[must_use]
pub fn public_inputs_for_slot(epoch_state: &EpochState, slot: Slot, latest_root: FieldElement) -> (r:
    LeaderPublic)
    ensures
        r == slot_inputs(*epoch_state, slot, latest_root),
{
    LeaderPublic {
        aged_root: epoch_state.aged_root,
        latest_root,
        epoch_nonce: epoch_state.nonce,
        slot: slot.0,
        lottery_0: epoch_state.lottery_0,
        lottery_1: epoch_state.lottery_1,
    }
}

/// Why the private inputs of a proof cannot be put together.
#[derive(Debug, Clone, Copy, PartialEq, Eq, Structural)]
pub enum PrivateInputsError {
    /// The note is not among those that may lead in the epoch.
    AgedNoteNotFound,
    /// The note is spent, or not on the ledger yet.
    LatestNoteNotFound,
}

/// What the key store needs to put the private inputs of a proof together. `P` is
/// the type of paths in a tree of notes, `Q` that of public keys.
pub struct PrivateInputsArguments<P, Q> {
    pub utxo: Utxo,
    pub public_inputs: LeaderPublic,
    pub aged_path: P,
    pub latest_path: P,
    /// The public half of the key that signs. The other half is not handed out.
    pub leader_pk: Q,
}

/// What the key store needs to put the private inputs of a proof together, and the
/// key that signs, which it does not need.
///
/// `aged_path` finds the note among those that may lead, `latest_path` among the
/// unspent ones, `generate_key` makes a key that is used once, and `public_key`
/// gives its public half. Each is asked only if the ones before have succeeded.
pub fn operator_for_private_inputs_arguments_for_winning_utxo_and_slot<
    P,
    K,
    Q,
    A: FnOnce(&Utxo) -> Option<P>,
    L: FnOnce(&Utxo) -> Option<P>,
    G: FnOnce() -> K,
    B: FnOnce(&K) -> Q,
>(
    utxo: &Utxo,
    public_inputs: LeaderPublic,
    aged_path: A,
    latest_path: L,
    generate_key: G,
    public_key: B,
) -> (r: Result<(PrivateInputsArguments<P, Q>, K), PrivateInputsError>)
    requires
        call_requires(aged_path, (utxo,)),
        call_requires(latest_path, (utxo,)),
        call_requires(generate_key, ()),
        forall|key: K| #[trigger]
            call_ensures(generate_key, (), key) ==> call_requires(public_key, (&key,)),
    ensures
        match r {
            Ok((arguments, key)) => {
                &&& arguments.utxo == *utxo
                &&& arguments.public_inputs == public_inputs
                &&& call_ensures(aged_path, (utxo,), Some(arguments.aged_path))
                &&& call_ensures(latest_path, (utxo,), Some(arguments.latest_path))
                &&& call_ensures(generate_key, (), key)
                &&& call_ensures(public_key, (&key,), arguments.leader_pk)
            },
            Err(PrivateInputsError::AgedNoteNotFound) => call_ensures(
                aged_path,
                (utxo,),
                None::<P>,
            ),
            Err(PrivateInputsError::LatestNoteNotFound) => exists|path: P|
                #[trigger] call_ensures(aged_path, (utxo,), Some(path)) && call_ensures(
                    latest_path,
                    (utxo,),
                    None::<P>,
                ),
        },
{
    let aged: P = match aged_path(utxo) {
        Some(path) => path,
        None => return Err(PrivateInputsError::AgedNoteNotFound),
    };
    assert(call_ensures(aged_path, (utxo,), Some(aged)));
    let latest: P = match latest_path(utxo) {
        Some(path) => path,
        None => return Err(PrivateInputsError::LatestNoteNotFound),
    };
    let key: K = generate_key();
    let leader_pk: Q = public_key(&key);
    Ok(
        (
            PrivateInputsArguments {
                utxo: *utxo,
                public_inputs,
                aged_path: aged,
                latest_path: latest,
                leader_pk,
            },
            key,
        ),
    )
}

/// How far the search has got with a note. `V` is the type of vouchers, `P` that
/// of private inputs, `K` that of keys that sign, `R` that of proofs.
pub enum Stage<V, P, K, R> {
    /// Does the note win the slot?
    Checking,
    /// It does; a voucher for the reward is being made.
    Voucher,
    /// The private inputs are being put together.
    Building { voucher: V },
    /// The proof is being made from these.
    Proving { private_inputs: P, key: K },
    /// There is a proof, and those who want to know are being told.
    Telling { found: R, key: K },
    /// The search is over.
    Over,
}

/// The search for a note that wins, among a number of notes.
pub struct ProofSearch<V, P, K, R> {
    pub count: usize,
    pub index: usize,
    pub stage: Stage<V, P, K, R>,
}

/// What has come of the last request.
pub enum SearchEvent<V, P, K, R> {
    /// Whether the note wins.
    Checked(bool),
    /// The voucher, if it could be made.
    Voucher(Option<V>),
    /// The private inputs and the key that signs, if they could be had.
    PrivateInputs(Option<(P, K)>),
    /// The proof, if it could be made.
    Proved(Option<R>),
    /// Those who want to know have been told.
    Told,
}

/// What is to be done next.
pub enum SearchAction<V, P, K, R> {
    /// Check whether the note at an index wins.
    CheckWinning(usize),
    /// Make a voucher.
    GenerateVoucher,
    /// Put together the private inputs for the note at an index.
    BuildPrivateInputs(usize),
    /// Make the proof, with this voucher and the private inputs that the search
    /// holds.
    Prove { voucher: V },
    /// Tell those who want to know that the slot is won with these private inputs.
    Notify { private_inputs: P },
    /// Nothing: this is what the search has come to.
    Done(Option<(R, K)>),
}

/// The search at the note at `index`: if there is none, nothing has been found.
pub open spec fn at_note<V, P, K, R>(count: usize, index: int) -> (
    ProofSearch<V, P, K, R>,
    SearchAction<V, P, K, R>,
) {
    if index < count {
        (
            ProofSearch { count, index: index as usize, stage: Stage::Checking },
            SearchAction::CheckWinning(index as usize),
        )
    } else {
        (ProofSearch { count, index: count, stage: Stage::Over }, SearchAction::Done(None))
    }
}

/// Whether an event answers what was asked last.
pub open spec fn answers<V, P, K, R>(
    search: ProofSearch<V, P, K, R>,
    event: SearchEvent<V, P, K, R>,
) -> bool {
    match search.stage {
        Stage::Checking => event is Checked,
        Stage::Voucher => event is Voucher,
        Stage::Building { .. } => event is PrivateInputs,
        Stage::Proving { .. } => event is Proved,
        Stage::Telling { .. } => event is Told,
        Stage::Over => false,
    }
}

/// The search after an event, and what is to be done next. Whatever fails, the
/// next note is tried. Only when there is a proof is anyone told.
pub open spec fn after_event<V, P, K, R>(
    search: ProofSearch<V, P, K, R>,
    event: SearchEvent<V, P, K, R>,
) -> (ProofSearch<V, P, K, R>, SearchAction<V, P, K, R>) {
    let next = at_note(search.count, search.index + 1);
    match (search.stage, event) {
        (Stage::Checking, SearchEvent::Checked(true)) => (
            ProofSearch { stage: Stage::Voucher, ..search },
            SearchAction::GenerateVoucher,
        ),
        (Stage::Voucher, SearchEvent::Voucher(Some(voucher))) => (
            ProofSearch { stage: Stage::Building { voucher }, ..search },
            SearchAction::BuildPrivateInputs(search.index),
        ),
        (
            Stage::Building { voucher },
            SearchEvent::PrivateInputs(Some((private_inputs, key))),
        ) => (
            ProofSearch { stage: Stage::Proving { private_inputs, key }, ..search },
            SearchAction::Prove { voucher },
        ),
        (Stage::Proving { private_inputs, key }, SearchEvent::Proved(Some(found))) => (
            ProofSearch { stage: Stage::Telling { found, key }, ..search },
            SearchAction::Notify { private_inputs },
        ),
        (Stage::Telling { found, key }, SearchEvent::Told) => (
            ProofSearch { stage: Stage::Over, ..search },
            SearchAction::Done(Some((found, key))),
        ),
        _ => next,
    }
}

impl<V, P, K, R> ProofSearch<V, P, K, R> {
    fn at(count: usize, index: usize) -> (r: (Self, SearchAction<V, P, K, R>))
        ensures
            r == at_note::<V, P, K, R>(count, index as int),
    {
        if index < count {
            (
                Self { count, index, stage: Stage::Checking },
                SearchAction::CheckWinning(index),
            )
        } else {
            (Self { count, index: count, stage: Stage::Over }, SearchAction::Done(None))
        }
    }

    /// Starts the search among a number of notes.
    pub fn start(count: usize) -> (r: (Self, SearchAction<V, P, K, R>))
        ensures
            r == at_note::<V, P, K, R>(count, 0),
    {
        Self::at(count, 0)
    }

    /// The private inputs that the proof is to be made from, while it is.
    #[must_use]
    pub fn private_inputs(&self) -> (r: Option<&P>)
        ensures
            match self.stage {
                Stage::Proving { private_inputs, .. } => r == Some(&private_inputs),
                _ => r is None,
            },
    {
        match &self.stage {
            Stage::Proving { private_inputs, .. } => Some(private_inputs),
            _ => None,
        }
    }

    /// Takes what has come of the last request, and says what to do next.
    pub fn step(self, event: SearchEvent<V, P, K, R>) -> (r: (Self, SearchAction<V, P, K, R>))
        requires
            answers(self, event),
            self.index < self.count,
        ensures
            r == after_event(self, event),
    {
        let count: usize = self.count;
        let index: usize = self.index;
        match (self.stage, event) {
            (Stage::Checking, SearchEvent::Checked(true)) => (
                Self { count, index, stage: Stage::Voucher },
                SearchAction::GenerateVoucher,
            ),
            (Stage::Voucher, SearchEvent::Voucher(Some(voucher))) => (
                Self { count, index, stage: Stage::Building { voucher } },
                SearchAction::BuildPrivateInputs(index),
            ),
            (
                Stage::Building { voucher },
                SearchEvent::PrivateInputs(Some((private_inputs, key))),
            ) => (
                Self { count, index, stage: Stage::Proving { private_inputs, key } },
                SearchAction::Prove { voucher },
            ),
            (Stage::Proving { private_inputs, key }, SearchEvent::Proved(Some(found))) => (
                Self { count, index, stage: Stage::Telling { found, key } },
                SearchAction::Notify { private_inputs },
            ),
            (Stage::Telling { found, key }, SearchEvent::Told) => (
                Self { count, index, stage: Stage::Over },
                SearchAction::Done(Some((found, key))),
            ),
            _ => Self::at(count, index + 1),
        }
    }
}

/// What the wallet, the key store and the prover would answer for a note.
pub struct Attempt<V, P, K, R> {
    pub winning: bool,
    pub voucher: Option<V>,
    pub private_inputs: Option<(P, K)>,
    pub found: Option<R>,
}

/// The note wins and nothing fails.
pub open spec fn succeeds<V, P, K, R>(attempt: Attempt<V, P, K, R>) -> bool {
    attempt.winning && attempt.voucher is Some && attempt.private_inputs is Some
        && attempt.found is Some
}

/// The answer that comes to the search with these attempts.
pub open spec fn answer<V, P, K, R>(
    search: ProofSearch<V, P, K, R>,
    attempts: Seq<Attempt<V, P, K, R>>,
) -> SearchEvent<V, P, K, R> {
    let attempt = attempts[search.index as int];
    match search.stage {
        Stage::Checking => SearchEvent::Checked(attempt.winning),
        Stage::Voucher => SearchEvent::Voucher(attempt.voucher),
        Stage::Building { .. } => SearchEvent::PrivateInputs(attempt.private_inputs),
        Stage::Proving { .. } => SearchEvent::Proved(attempt.found),
        _ => SearchEvent::Told,
    }
}

/// How many more answers the search can need for a note.
pub open spec fn rank<V, P, K, R>(stage: Stage<V, P, K, R>) -> nat {
    match stage {
        Stage::Checking => 5,
        Stage::Voucher => 4,
        Stage::Building { .. } => 3,
        Stage::Proving { .. } => 2,
        Stage::Telling { .. } => 1,
        Stage::Over => 0,
    }
}

/// What the search comes to with these attempts, and the private inputs of which
/// others are told on the way.
pub open spec fn outcome<V, P, K, R>(
    search: ProofSearch<V, P, K, R>,
    action: SearchAction<V, P, K, R>,
    attempts: Seq<Attempt<V, P, K, R>>,
) -> (Option<(R, K)>, Seq<P>)
    decreases search.count - search.index, rank(search.stage),
{
    match action {
        SearchAction::Done(found) => (found, Seq::empty()),
        _ => if search.index < search.count && answers(search, answer(search, attempts)) {
            let (next, next_action) = after_event(search, answer(search, attempts));
            let (found, later) = outcome(next, next_action, attempts);
            match action {
                SearchAction::Notify { private_inputs } => (found, seq![private_inputs] + later),
                _ => (found, later),
            }
        } else {
            (None, Seq::empty())
        },
    }
}

/// The first of the attempts from `index` on that succeeds.
pub open spec fn first_success<V, P, K, R>(
    attempts: Seq<Attempt<V, P, K, R>>,
    index: int,
) -> Option<Attempt<V, P, K, R>>
    decreases attempts.len() - index,
{
    if index >= attempts.len() || index < 0 {
        None
    } else if succeeds(attempts[index]) {
        Some(attempts[index])
    } else {
        first_success(attempts, index + 1)
    }
}

/// The search comes to the proof for the first note that wins and for which
/// nothing fails, with the key that was made for that note, and others are told
/// once, of that note's private inputs. If there is no such note, it comes to
/// nothing and no one is told.
pub proof fn search_finds_the_first_success<V, P, K, R>(
    attempts: Seq<Attempt<V, P, K, R>>,
    index: int,
)
    requires
        0 <= index <= attempts.len() <= usize::MAX,
    ensures
        ({
            let (search, action) = at_note::<V, P, K, R>(attempts.len() as usize, index);
            outcome(search, action, attempts) == match first_success(attempts, index) {
                Some(attempt) => (
                    Some((attempt.found->0, (attempt.private_inputs->0).1)),
                    seq![(attempt.private_inputs->0).0],
                ),
                None => (None, Seq::empty()),
            }
        }),
    decreases attempts.len() - index,
{
    reveal_with_fuel(outcome, 7);
    if index < attempts.len() {
        search_finds_the_first_success(attempts, index + 1);
        if succeeds(attempts[index]) {
            let told = (attempts[index].private_inputs->0).0;
            assert(seq![told] + Seq::<P>::empty() =~= seq![told]);
        }
    }
}

} // verus!
