//! What deposits, withdrawals and configurations do to the channels as a whole.

use vstd::prelude::*;

use crate::mantle::backing::{
    all_backed, channel_backed, frozen_total, holds_its_notes, lemma_total_without,
    release_keeps_worth, worth,
};
use crate::mantle::channel::{ChannelsView, Error};
use crate::mantle::ledger::{inputs_amount, notes_value};
use crate::mantle::multisig::IndexedSignature;
use crate::mantle::ops::channel::config::{
    config_outcome, config_releases, dropped_keys, marked, ConfigView,
};
use crate::mantle::ops::channel::deposit::{deposit_outcome, DepositView};
use crate::mantle::ops::channel::withdraw::{
    reserve_of, withdraw_outcome, withdraw_refusal, WithdrawView,
};
use crate::mantle::primitives::{ChannelId, NoteId, Slot, Utxo, Value, ZkPublicKey};
use crate::mantle::release::{
    orders, release_epoch, release_fault, release_list, release_note, release_until, released,
    ReserveView,
};

verus! {

/// The release of `count` epochs' notes, back from `epoch`.
pub open spec fn release_epochs(
    reserve: ReserveView,
    epoch: u32,
    count: nat,
    sequencers: Seq<ZkPublicKey>,
) -> Result<ReserveView, Error>
    decreases count,
{
    if count == 0 {
        Ok(reserve)
    } else {
        match release_epochs(reserve, epoch, (count - 1) as nat, sequencers) {
            Err(e) => Err(e),
            Ok(before) => release_epoch(before, (epoch - (count - 1)) as u32, sequencers),
        }
    }
}

/// After `count` epochs and not before, the floating balance covers the amount.
pub open spec fn covered_after(
    reserve: ReserveView,
    amount: Value,
    epoch: u32,
    count: nat,
    sequencers: Seq<ZkPublicKey>,
) -> bool {
    &&& release_epochs(reserve, epoch, count, sequencers) matches Ok(after) && amount
        <= after.floating_balance
    &&& forall|fewer: nat|
        fewer < count ==> (#[trigger] release_epochs(reserve, epoch, fewer, sequencers) matches Ok(
            short,
        ) && short.floating_balance < amount)
}

proof fn lemma_epochs_from_the_front(
    reserve: ReserveView,
    next: ReserveView,
    epoch: u32,
    count: nat,
    sequencers: Seq<ZkPublicKey>,
)
    requires
        epoch > 0,
        count <= epoch,
        release_epoch(reserve, epoch, sequencers) == Ok::<ReserveView, Error>(next),
    ensures
        release_epochs(reserve, epoch, count + 1, sequencers) == release_epochs(
            next,
            (epoch - 1) as u32,
            count,
            sequencers,
        ),
    decreases count,
{
    reveal_with_fuel(release_epochs, 2);
    if count > 0 {
        lemma_epochs_from_the_front(reserve, next, epoch, (count - 1) as nat, sequencers);
    }
}

/// A withdrawal releases the notes of as few epochs as will do, the youngest
/// first.
pub proof fn release_takes_as_few_epochs_as_will_do(
    reserve: ReserveView,
    amount: Value,
    epoch: u32,
    sequencers: Seq<ZkPublicKey>,
)
    ensures
        release_until(reserve, amount, epoch, sequencers) matches Ok(after) ==> exists|count: nat|
            count <= epoch + 1 && #[trigger] covered_after(reserve, amount, epoch, count, sequencers)
                && release_epochs(reserve, epoch, count, sequencers) == Ok::<ReserveView, Error>(
                after,
            ),
    decreases epoch,
{
    if let Ok(after) = release_until(reserve, amount, epoch, sequencers) {
        if amount <= reserve.floating_balance {
            assert(covered_after(reserve, amount, epoch, 0, sequencers));
        } else if epoch == 0 {
            reveal_with_fuel(release_epochs, 2);
            assert(covered_after(reserve, amount, epoch, 1, sequencers));
        } else {
            let next = release_epoch(reserve, epoch, sequencers)->Ok_0;
            let earlier = (epoch - 1) as u32;
            release_takes_as_few_epochs_as_will_do(next, amount, earlier, sequencers);
            let count = choose|count: nat|
                count <= earlier + 1 && #[trigger] covered_after(
                    next,
                    amount,
                    earlier,
                    count,
                    sequencers,
                ) && release_epochs(next, earlier, count, sequencers) == Ok::<ReserveView, Error>(
                    after,
                );
            lemma_epochs_from_the_front(reserve, next, epoch, count, sequencers);
            assert forall|fewer: nat| fewer < count + 1 implies (#[trigger] release_epochs(
                reserve,
                epoch,
                fewer,
                sequencers,
            ) matches Ok(short) && short.floating_balance < amount) by {
                if fewer > 0 {
                    lemma_epochs_from_the_front(
                        reserve,
                        next,
                        epoch,
                        (fewer - 1) as nat,
                        sequencers,
                    );
                    assert(release_epochs(next, earlier, (fewer - 1) as nat, sequencers) is Ok);
                }
            }
            assert(covered_after(reserve, amount, epoch, count + 1, sequencers));
        }
    }
}

/// Where the notes of some epochs cover the amount, back from the current one
/// and down to the first if need be, a withdrawal releases just those.
pub proof fn release_succeeds_where_some_epochs_cover(
    reserve: ReserveView,
    amount: Value,
    epoch: u32,
    count: nat,
    sequencers: Seq<ZkPublicKey>,
)
    requires
        count <= epoch + 1,
        covered_after(reserve, amount, epoch, count, sequencers),
    ensures
        release_until(reserve, amount, epoch, sequencers) == release_epochs(
            reserve,
            epoch,
            count,
            sequencers,
        ),
    decreases epoch,
{
    reveal_with_fuel(release_epochs, 2);
    if count > 0 {
        assert(release_epochs(reserve, epoch, 0, sequencers) is Ok);
        if count > 1 {
            assert(release_epochs(reserve, epoch, 1, sequencers) is Ok);
        }
        let next = release_epoch(reserve, epoch, sequencers)->Ok_0;
        if epoch > 0 {
            let earlier = (epoch - 1) as u32;
            let fewer = (count - 1) as nat;
            lemma_epochs_from_the_front(reserve, next, epoch, fewer, sequencers);
            assert forall|n: nat| n < fewer implies (#[trigger] release_epochs(
                next,
                earlier,
                n,
                sequencers,
            ) matches Ok(short) && short.floating_balance < amount) by {
                lemma_epochs_from_the_front(reserve, next, epoch, n, sequencers);
                assert(release_epochs(reserve, epoch, n + 1, sequencers) is Ok);
            }
            release_succeeds_where_some_epochs_cover(next, amount, earlier, fewer, sequencers);
        }
    }
}

/// The release of an epoch takes the notes of that epoch and the listed
/// sequencers, and no others.
pub proof fn release_takes_one_epochs_notes(
    reserve: ReserveView,
    epoch: u32,
    sequencers: Seq<ZkPublicKey>,
    key: (u32, ZkPublicKey),
)
    ensures
        release_epoch(reserve, epoch, sequencers) matches Ok(after) ==> {
            &&& after.frozen_note_map.contains_key(key) <==> reserve.frozen_note_map.contains_key(
                key,
            ) && !(key.0 == epoch && sequencers.contains(key.1))
            &&& after.frozen_note_map.contains_key(key) ==> after.frozen_note_map[key]
                == reserve.frozen_note_map[key]
        },
    decreases sequencers.len(),
{
    if sequencers.len() > 0 {
        let front = sequencers.drop_last();
        release_takes_one_epochs_notes(reserve, epoch, front, key);
        assert(sequencers.contains(key.1) <==> front.contains(key.1) || key.1
            == sequencers.last()) by {
            if front.contains(key.1) {
                let i = choose|i: int| 0 <= i < front.len() && front[i] == key.1;
                assert(sequencers[i] == key.1);
            }
            if sequencers.contains(key.1) && key.1 != sequencers.last() {
                let i = choose|i: int| 0 <= i < sequencers.len() && sequencers[i] == key.1;
                assert(front[i] == key.1);
            }
            assert(sequencers[sequencers.len() - 1] == sequencers.last());
        }
    }
}

/// Every note that the reserve holds is on the ledger.
pub open spec fn on_ledger(reserve: ReserveView) -> bool {
    forall|key: (u32, ZkPublicKey)| #[trigger]
        reserve.frozen_note_map.contains_key(key) ==> reserve.utxos.contains_key(
            reserve.frozen_note_map[key],
        )
}

/// Every note that the reserve holds was minted to a listed sequencer, in an epoch
/// up to `epoch`.
pub open spec fn within_reach(
    reserve: ReserveView,
    epoch: u32,
    sequencers: Seq<ZkPublicKey>,
) -> bool {
    forall|key: (u32, ZkPublicKey)| #[trigger]
        reserve.frozen_note_map.contains_key(key) ==> key.0 <= epoch && sequencers.contains(key.1)
}

proof fn lemma_note_can_be_released(reserve: ReserveView, key: (u32, ZkPublicKey))
    requires
        holds_its_notes(reserve.frozen_note_map, reserve.frozen_notes),
        on_ledger(reserve),
        worth(reserve) <= Value::MAX,
    ensures
        release_note(reserve, key) matches Ok(after) && holds_its_notes(
            after.frozen_note_map,
            after.frozen_notes,
        ) && on_ledger(after) && worth(after) == worth(reserve),
{
    if reserve.frozen_note_map.contains_key(key) {
        lemma_total_without(reserve.frozen_note_map, reserve.frozen_notes, key);
        assert(release_fault(reserve, key) is None);
        let after = released(reserve, key);
        release_keeps_worth(reserve, key);
        assert forall|k: (u32, ZkPublicKey)| #[trigger]
            after.frozen_note_map.contains_key(k) implies after.utxos.contains_key(
            after.frozen_note_map[k],
        ) by {
            assert(reserve.frozen_note_map.contains_key(k));
        }
    }
}

proof fn lemma_epoch_can_be_released(
    reserve: ReserveView,
    epoch: u32,
    sequencers: Seq<ZkPublicKey>,
)
    requires
        holds_its_notes(reserve.frozen_note_map, reserve.frozen_notes),
        on_ledger(reserve),
        worth(reserve) <= Value::MAX,
    ensures
        release_epoch(reserve, epoch, sequencers) matches Ok(after) && holds_its_notes(
            after.frozen_note_map,
            after.frozen_notes,
        ) && on_ledger(after) && worth(after) == worth(reserve),
    decreases sequencers.len(),
{
    if sequencers.len() > 0 {
        lemma_epoch_can_be_released(reserve, epoch, sequencers.drop_last());
        let before = release_epoch(reserve, epoch, sequencers.drop_last())->Ok_0;
        lemma_note_can_be_released(before, (epoch, sequencers.last()));
    }
}

/// Notes that are on the ledger, of listed sequencers and of epochs up to the
/// current one, cover whatever the reserve is worth.
pub proof fn release_covers_what_the_reserve_is_worth(
    reserve: ReserveView,
    amount: Value,
    epoch: u32,
    sequencers: Seq<ZkPublicKey>,
)
    requires
        holds_its_notes(reserve.frozen_note_map, reserve.frozen_notes),
        on_ledger(reserve),
        within_reach(reserve, epoch, sequencers),
        amount <= worth(reserve) <= Value::MAX,
    ensures
        release_until(reserve, amount, epoch, sequencers) is Ok,
    decreases epoch,
{
    if amount > reserve.floating_balance {
        lemma_epoch_can_be_released(reserve, epoch, sequencers);
        let after = release_epoch(reserve, epoch, sequencers)->Ok_0;
        assert forall|key: (u32, ZkPublicKey)| #[trigger]
            after.frozen_note_map.contains_key(key) implies key.0 < epoch && sequencers.contains(
            key.1,
        ) by {
            release_takes_one_epochs_notes(reserve, epoch, sequencers, key);
            assert(reserve.frozen_note_map.contains_key(key));
        }
        if epoch == 0 {
            assert(after.frozen_note_map.dom() =~= Set::empty()) by {
                assert forall|key: (u32, ZkPublicKey)|
                    !after.frozen_note_map.dom().contains(key) by {
                    if after.frozen_note_map.contains_key(key) {
                        assert(key.0 < epoch);
                    }
                }
            }
        } else {
            release_covers_what_the_reserve_is_worth(
                after,
                amount,
                (epoch - 1) as u32,
                sequencers,
            );
        }
    }
}

/// What is accepted can be paid: a withdrawal that nothing speaks against before
/// its signatures are looked at succeeds, if the channel is backed by notes that
/// are on the ledger, of its sequencers and of epochs up to the current one, and
/// can count one more withdrawal.
pub proof fn accepted_withdrawal_can_be_paid(
    op: WithdrawView,
    channels: ChannelsView,
    utxos: Map<NoteId, Utxo>,
    signatures: Seq<IndexedSignature>,
    epoch: u32,
)
    requires
        all_backed(channels),
        withdraw_refusal(op, channels, signatures) is None,
        op.withdraw_nonce < u32::MAX,
        on_ledger(reserve_of(channels, utxos, op.channel_id)),
        within_reach(
            reserve_of(channels, utxos, op.channel_id),
            epoch,
            channels.channels[op.channel_id].sequencers_zk_pks,
        ),
    ensures
        withdraw_outcome(op, channels, utxos, epoch) is Ok,
{
    let channel = channels.channels[op.channel_id];
    let reserve = reserve_of(channels, utxos, op.channel_id);
    assert(channels.channels.contains_key(op.channel_id));
    assert(channel_backed(channel, channels.frozen_notes));
    release_covers_what_the_reserve_is_worth(
        reserve,
        notes_value(op.outputs) as Value,
        epoch,
        channel.sequencers_zk_pks,
    );
}

/// The release of several epochs takes the notes of those epochs and the listed
/// sequencers, and no others.
pub proof fn release_takes_the_youngest_notes(
    reserve: ReserveView,
    epoch: u32,
    count: nat,
    sequencers: Seq<ZkPublicKey>,
    key: (u32, ZkPublicKey),
)
    requires
        count <= epoch + 1,
    ensures
        release_epochs(reserve, epoch, count, sequencers) matches Ok(after) ==> {
            &&& after.frozen_note_map.contains_key(key) <==> reserve.frozen_note_map.contains_key(
                key,
            ) && !(epoch - count < key.0 <= epoch && sequencers.contains(key.1))
            &&& after.frozen_note_map.contains_key(key) ==> after.frozen_note_map[key]
                == reserve.frozen_note_map[key]
        },
    decreases count,
{
    if count > 0 {
        release_takes_the_youngest_notes(reserve, epoch, (count - 1) as nat, sequencers, key);
        if let Ok(before) = release_epochs(reserve, epoch, (count - 1) as nat, sequencers) {
            release_takes_one_epochs_notes(before, (epoch - (count - 1)) as u32, sequencers, key);
        }
    }
}

/// A withdrawal that the floating balance covers leaves the frozen notes alone.
pub proof fn withdraw_spends_floating_balance_first(
    op: WithdrawView,
    channels: ChannelsView,
    utxos: Map<NoteId, Utxo>,
    epoch: u32,
)
    requires
        notes_value(op.outputs) <= channels.channels[op.channel_id].floating_balance,
    ensures
        withdraw_outcome(op, channels, utxos, epoch) matches Ok((after, left)) ==> {
            let channel = channels.channels[op.channel_id];
            &&& left == utxos
            &&& after.frozen_notes == channels.frozen_notes
            &&& after.channels[op.channel_id].frozen_note_map == channel.frozen_note_map
            &&& after.channels[op.channel_id].floating_balance == channel.floating_balance
                - notes_value(op.outputs)
        },
{
}

/// A withdrawal lowers the channel's solvency by the amount, counts itself, and
/// leaves the other channels and the marks alone.
pub proof fn withdraw_lowers_solvency_by_the_amount(
    op: WithdrawView,
    channels: ChannelsView,
    utxos: Map<NoteId, Utxo>,
    epoch: u32,
)
    ensures
        withdraw_outcome(op, channels, utxos, epoch) matches Ok((after, _)) ==> {
            let channel = channels.channels[op.channel_id];
            &&& after.channels[op.channel_id].solvency == channel.solvency - notes_value(
                op.outputs,
            )
            &&& after.channels[op.channel_id].withdrawal_nonce == channel.withdrawal_nonce + 1
            &&& after.mint_eligible_channels == channels.mint_eligible_channels
            &&& after.channels.remove(op.channel_id) == channels.channels.remove(op.channel_id)
        },
{
    if let Ok((after, _)) = withdraw_outcome(op, channels, utxos, epoch) {
        assert(after.channels.remove(op.channel_id) =~= channels.channels.remove(op.channel_id));
    }
}

/// A withdrawal that went through is refused the second time.
pub proof fn withdraw_cannot_be_repeated(
    op: WithdrawView,
    channels: ChannelsView,
    utxos: Map<NoteId, Utxo>,
    epoch: u32,
    first: Seq<IndexedSignature>,
    second: Seq<IndexedSignature>,
)
    requires
        withdraw_refusal(op, channels, first) is None,
    ensures
        withdraw_outcome(op, channels, utxos, epoch) matches Ok((after, _)) ==> withdraw_refusal(
            op,
            after,
            second,
        ) == Some(Error::InvalidWithdrawNonce),
{
}

/// The identifiers of the notes under `keys`.
pub open spec fn ids_under(map: Map<(u32, ZkPublicKey), NoteId>, keys: Set<(u32, ZkPublicKey)>) -> Set<
    NoteId,
> {
    Set::new(
        |id: NoteId|
            exists|key: (u32, ZkPublicKey)| #[trigger] keys.contains(key) && map[key] == id,
    )
}

/// The notes under `keys` are different, frozen and on the ledger, and their
/// values can be added to the floating balance.
pub open spec fn can_release(reserve: ReserveView, keys: Set<(u32, ZkPublicKey)>) -> bool {
    let map = reserve.frozen_note_map;
    &&& forall|key: (u32, ZkPublicKey)| #[trigger]
        keys.contains(key) ==> reserve.frozen_notes.contains_key(map[key])
            && reserve.utxos.contains_key(map[key])
    &&& forall|a: (u32, ZkPublicKey), b: (u32, ZkPublicKey)|
        #![trigger keys.contains(a), keys.contains(b)]
        keys.contains(a) && keys.contains(b) && a != b ==> map[a] != map[b]
    &&& reserve.floating_balance + frozen_total(map.restrict(keys), reserve.frozen_notes)
        <= Value::MAX
}

/// The reserve without the notes under `keys`, whose values float.
pub open spec fn release_all(reserve: ReserveView, keys: Set<(u32, ZkPublicKey)>) -> ReserveView {
    let ids = ids_under(reserve.frozen_note_map, keys);
    ReserveView {
        frozen_note_map: reserve.frozen_note_map.remove_keys(keys),
        frozen_notes: reserve.frozen_notes.remove_keys(ids),
        utxos: reserve.utxos.remove_keys(ids),
        floating_balance: (reserve.floating_balance + frozen_total(
            reserve.frozen_note_map.restrict(keys),
            reserve.frozen_notes,
        )) as Value,
    }
}

/// Listed notes can be released exactly if they are different, frozen and on the
/// ledger, and their values can be added up. The order of the list does not
/// matter.
pub proof fn release_order_does_not_matter(reserve: ReserveView, order: Seq<(u32, ZkPublicKey)>)
    requires
        order.no_duplicates(),
        forall|i: int|
            0 <= i < order.len() ==> reserve.frozen_note_map.contains_key(#[trigger] order[i]),
    ensures
        release_list(reserve, order) is Ok <==> can_release(reserve, order.to_set()),
        release_list(reserve, order) matches Ok(after) ==> after == release_all(
            reserve,
            order.to_set(),
        ),
    decreases order.len(),
{
    let map = reserve.frozen_note_map;
    if order.len() == 0 {
        let none = order.to_set();
        assert(map.restrict(none).dom() =~= Set::empty());
        assert(ids_under(map, none) =~= Set::empty());
        assert(release_all(reserve, none) =~= reserve) by {
            assert(map.remove_keys(none) =~= map);
            assert(reserve.frozen_notes.remove_keys(Set::empty()) =~= reserve.frozen_notes);
            assert(reserve.utxos.remove_keys(Set::empty()) =~= reserve.utxos);
        }
    } else {
        let front = order.drop_last();
        let key = order.last();
        let keys = order.to_set();
        let fewer = front.to_set();
        let id = map[key];
        assert(order[order.len() - 1] == key);
        assert forall|i: int| 0 <= i < front.len() implies map.contains_key(#[trigger] front[i]) by {
            assert(front[i] == order[i]);
        }
        assert(front.no_duplicates());
        release_order_does_not_matter(reserve, front);
        assert(!front.contains(key)) by {
            if front.contains(key) {
                let i = choose|i: int| 0 <= i < front.len() && front[i] == key;
                assert(order[i] == order[order.len() - 1]);
            }
        }
        assert forall|k: (u32, ZkPublicKey)| #[trigger]
            keys.contains(k) == (fewer.contains(k) || k == key) by {
            if front.contains(k) {
                let i = choose|i: int| 0 <= i < front.len() && front[i] == k;
                assert(order[i] == k);
            }
            if order.contains(k) && k != key {
                let i = choose|i: int| 0 <= i < order.len() && order[i] == k;
                assert(front[i] == k);
            }
        }
        assert(keys =~= fewer.insert(key));
        let part = map.restrict(keys);
        assert(part.dom() =~= keys) by {
            assert forall|k: (u32, ZkPublicKey)| #[trigger] keys.contains(k) implies map.contains_key(
                k,
            ) by {
                let i = choose|i: int| 0 <= i < order.len() && order[i] == k;
                assert(map.contains_key(order[i]));
            }
        }
        order.unique_seq_to_set();
        assert(part.contains_key(key));
        lemma_total_without(part, reserve.frozen_notes, key);
        assert(part.remove(key) =~= map.restrict(fewer));
        assert(fewer.contains(key) == false);
        if can_release(reserve, keys) {
            assert(can_release(reserve, fewer)) by {
                assert forall|k: (u32, ZkPublicKey)| #[trigger] fewer.contains(k) implies {
                    &&& reserve.frozen_notes.contains_key(map[k])
                    &&& reserve.utxos.contains_key(map[k])
                } by {
                    assert(keys.contains(k));
                }
                assert forall|a: (u32, ZkPublicKey), b: (u32, ZkPublicKey)|
                    #![trigger fewer.contains(a), fewer.contains(b)]
                    fewer.contains(a) && fewer.contains(b) && a != b implies map[a] != map[b] by {
                    assert(keys.contains(a) && keys.contains(b));
                }
            }
        }
        if let Ok(before) = release_list(reserve, front) {
            assert(before == release_all(reserve, fewer));
            assert(before.frozen_note_map.contains_key(key));
            assert(before.frozen_note_map[key] == id);
            assert(keys.contains(key));
            let taken = ids_under(map, fewer);
            assert(ids_under(map, keys) =~= taken.insert(id)) by {
                assert forall|x: NoteId| #[trigger]
                    ids_under(map, keys).contains(x) == taken.insert(id).contains(x) by {
                    if ids_under(map, keys).contains(x) {
                        let k = choose|k: (u32, ZkPublicKey)| #[trigger]
                            keys.contains(k) && map[k] == x;
                        assert(fewer.contains(k) || k == key);
                    }
                    if taken.contains(x) {
                        let k = choose|k: (u32, ZkPublicKey)| #[trigger]
                            fewer.contains(k) && map[k] == x;
                        assert(keys.contains(k));
                    }
                }
            }
            if can_release(reserve, keys) {
                assert(!taken.contains(id)) by {
                    if taken.contains(id) {
                        let k = choose|k: (u32, ZkPublicKey)| #[trigger]
                            fewer.contains(k) && map[k] == id;
                        assert(keys.contains(k) && keys.contains(key));
                    }
                }
                assert(release_fault(before, key) is None);
            }
            if let Ok(after) = release_note(before, key) {
                assert(release_fault(before, key) is None);
                assert(after == released(before, key));
                assert(!taken.contains(id));
                assert(before.frozen_notes[id] == reserve.frozen_notes[id]);
                assert forall|a: (u32, ZkPublicKey), b: (u32, ZkPublicKey)|
                    #![trigger keys.contains(a), keys.contains(b)]
                    keys.contains(a) && keys.contains(b) && a != b implies map[a] != map[b] by {
                    assert(fewer.contains(a) || a == key);
                    assert(fewer.contains(b) || b == key);
                    if a == key {
                        assert(taken.contains(map[b]));
                    }
                    if b == key {
                        assert(taken.contains(map[a]));
                    }
                }
                assert forall|k: (u32, ZkPublicKey)| #[trigger] keys.contains(k) implies {
                    &&& reserve.frozen_notes.contains_key(map[k])
                    &&& reserve.utxos.contains_key(map[k])
                } by {
                    assert(fewer.contains(k) || k == key);
                }
                assert(can_release(reserve, keys));
                assert(after =~= release_all(reserve, keys)) by {
                    assert(after.frozen_note_map =~= map.remove_keys(keys));
                    assert(after.frozen_notes =~= reserve.frozen_notes.remove_keys(
                        ids_under(map, keys),
                    ));
                    assert(after.utxos =~= reserve.utxos.remove_keys(ids_under(map, keys)));
                }
            }
        }
    }
}

/// The order in which a configuration releases notes decides neither whether it
/// succeeds nor what it leads to.
pub proof fn config_order_does_not_matter(
    op: ConfigView,
    channels: ChannelsView,
    utxos: Map<NoteId, Utxo>,
    slot: Slot,
    first: Seq<(u32, ZkPublicKey)>,
    second: Seq<(u32, ZkPublicKey)>,
)
    requires
        orders(first, config_releases(op, channels)),
        orders(second, config_releases(op, channels)),
        config_outcome(op, channels, utxos, slot, first) is Ok,
    ensures
        config_outcome(op, channels, utxos, slot, second) == config_outcome(
            op,
            channels,
            utxos,
            slot,
            first,
        ),
{
    if channels.channels.contains_key(op.channel) {
        lemma_orders_are_entries(op, channels, first);
        lemma_orders_are_entries(op, channels, second);
        let reserve = reserve_of(channels, utxos, op.channel);
        release_order_does_not_matter(reserve, first);
        release_order_does_not_matter(reserve, second);
    }
}

proof fn lemma_orders_are_entries(
    op: ConfigView,
    channels: ChannelsView,
    order: Seq<(u32, ZkPublicKey)>,
)
    requires
        channels.channels.contains_key(op.channel),
        orders(order, config_releases(op, channels)),
    ensures
        forall|i: int|
            0 <= i < order.len() ==> channels.channels[op.channel].frozen_note_map.contains_key(
                #[trigger] order[i],
            ),
{
    assert forall|i: int|
        0 <= i < order.len() implies channels.channels[op.channel].frozen_note_map.contains_key(
        #[trigger] order[i],
    ) by {
        assert(order.to_set().contains(order[i]));
        assert(dropped_keys(channels.channels[op.channel], op.sequencer_zk_pks).contains(order[i]));
    }
}

/// A configuration takes the notes of the sequencers that it drops, adds what
/// they are worth to the floating balance, and leaves all other notes and the
/// solvency alone.
pub proof fn config_releases_the_notes_of_dropped_sequencers(
    op: ConfigView,
    channels: ChannelsView,
    utxos: Map<NoteId, Utxo>,
    slot: Slot,
    order: Seq<(u32, ZkPublicKey)>,
    key: (u32, ZkPublicKey),
)
    requires
        channels.channels.contains_key(op.channel),
        orders(order, config_releases(op, channels)),
    ensures
        config_outcome(op, channels, utxos, slot, order) matches Ok((after, _)) ==> {
            let channel = channels.channels[op.channel];
            let updated = after.channels[op.channel];
            &&& updated.frozen_note_map.contains_key(key) <==> channel.frozen_note_map.contains_key(
                key,
            ) && !(channel.sequencers_zk_pks.contains(key.1) && !op.sequencer_zk_pks.contains(
                key.1,
            ))
            &&& updated.frozen_note_map.contains_key(key) ==> updated.frozen_note_map[key]
                == channel.frozen_note_map[key]
            &&& updated.floating_balance == channel.floating_balance + frozen_total(
                channel.frozen_note_map.restrict(dropped_keys(channel, op.sequencer_zk_pks)),
                channels.frozen_notes,
            )
            &&& updated.solvency == channel.solvency
            &&& after.channels.remove(op.channel) == channels.channels.remove(op.channel)
        },
{
    lemma_orders_are_entries(op, channels, order);
    let reserve = reserve_of(channels, utxos, op.channel);
    release_order_does_not_matter(reserve, order);
    if let Ok((after, _)) = config_outcome(op, channels, utxos, slot, order) {
        let channel = channels.channels[op.channel];
        assert(dropped_keys(channel, op.sequencer_zk_pks).contains(key)
            <==> channel.frozen_note_map.contains_key(key) && channel.sequencers_zk_pks.contains(
            key.1,
        ) && !op.sequencer_zk_pks.contains(key.1));
        assert(after.channels.remove(op.channel) =~= channels.channels.remove(op.channel));
    }
}

proof fn lemma_marks_stay_unique(list: Seq<ChannelId>, channel_id: ChannelId)
    requires
        list.no_duplicates(),
    ensures
        marked(list, channel_id).no_duplicates(),
{
    let after = marked(list, channel_id);
    assert forall|i: int, j: int|
        0 <= i < after.len() && 0 <= j < after.len() && i != j implies after[i] != after[j] by {
        if !list.contains(channel_id) {
            if i == list.len() {
                assert(list[j] == after[j]);
            } else if j == list.len() {
                assert(list[i] == after[i]);
            }
        }
    }
}

/// A deposit raises the channel's floating balance and its solvency by what the
/// inputs are worth, and leaves the frozen notes and the other channels alone.
pub proof fn deposit_raises_balances_by_the_amount(
    op: DepositView,
    channels: ChannelsView,
    utxos: Map<NoteId, Utxo>,
)
    ensures
        deposit_outcome(op, channels, utxos) matches Ok((after, _)) ==> {
            let channel = channels.channels[op.channel_id];
            let updated = after.channels[op.channel_id];
            let amount = inputs_amount(op.inputs, utxos)->Ok_0;
            &&& updated.floating_balance == channel.floating_balance + amount
            &&& updated.solvency == channel.solvency + amount
            &&& updated.frozen_note_map == channel.frozen_note_map
            &&& after.frozen_notes == channels.frozen_notes
            &&& after.channels.remove(op.channel_id) == channels.channels.remove(op.channel_id)
        },
{
    if let Ok((after, _)) = deposit_outcome(op, channels, utxos) {
        assert(after.channels.remove(op.channel_id) =~= channels.channels.remove(op.channel_id));
    }
}

/// No deposit marks a channel twice.
pub proof fn deposit_marks_a_channel_once(
    op: DepositView,
    channels: ChannelsView,
    utxos: Map<NoteId, Utxo>,
)
    requires
        channels.mint_eligible_channels.no_duplicates(),
    ensures
        deposit_outcome(op, channels, utxos) matches Ok((after, _))
            ==> after.mint_eligible_channels.no_duplicates(),
{
    lemma_marks_stay_unique(channels.mint_eligible_channels, op.channel_id);
}

/// No configuration marks a channel twice.
pub proof fn config_marks_a_channel_once(
    op: ConfigView,
    channels: ChannelsView,
    utxos: Map<NoteId, Utxo>,
    slot: Slot,
    order: Seq<(u32, ZkPublicKey)>,
)
    requires
        channels.mint_eligible_channels.no_duplicates(),
    ensures
        config_outcome(op, channels, utxos, slot, order) matches Ok((after, _))
            ==> after.mint_eligible_channels.no_duplicates(),
{
    lemma_marks_stay_unique(channels.mint_eligible_channels, op.channel);
}

} // verus!
