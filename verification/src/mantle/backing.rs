//! What every operation on channels keeps: a channel's floating balance and its
//! frozen notes together are worth its solvency.

use vstd::prelude::*;

use crate::mantle::channel::{ChannelView, ChannelsView};
use crate::mantle::ops::channel::config::{config_outcome, ConfigView};
use crate::mantle::ops::channel::deposit::{deposit_outcome, DepositView};
use crate::mantle::ops::channel::withdraw::{
    lemma_released_covers, reserve_of, withdraw_outcome, WithdrawView,
};
use crate::mantle::ledger::notes_value;
use crate::mantle::primitives::{ChannelId, Note, NoteId, Slot, Utxo, Value, ZkPublicKey};
use crate::mantle::release::{
    release_epoch, release_fault, release_list, release_note, release_until, released, ReserveView,
};

verus! {

/// What the notes under the entries of `map` are worth together.
pub open spec fn frozen_total(
    map: Map<(u32, ZkPublicKey), NoteId>,
    notes: Map<NoteId, Note>,
) -> nat
    decreases map.dom().len(),
{
    if map.dom().finite() && map.dom().len() > 0 {
        let key = map.dom().choose();
        proof {
            assert(map.remove(key).dom() =~= map.dom().remove(key));
        }
        notes[map[key]].value as nat + frozen_total(map.remove(key), notes)
    } else {
        0
    }
}

/// The total is that of any one entry and that of the others.
pub proof fn lemma_total_without(
    map: Map<(u32, ZkPublicKey), NoteId>,
    notes: Map<NoteId, Note>,
    key: (u32, ZkPublicKey),
)
    requires
        map.dom().finite(),
        map.contains_key(key),
    ensures
        frozen_total(map, notes) == notes[map[key]].value + frozen_total(map.remove(key), notes),
    decreases map.dom().len(),
{
    let first = map.dom().choose();
    assert(map.dom().contains(key));
    assert(map.dom().len() > 0);
    assert(map.dom().contains(first));
    assert(map.remove(first).dom() =~= map.dom().remove(first));
    assert(map.remove(key).dom() =~= map.dom().remove(key));
    if first != key {
        lemma_total_without(map.remove(first), notes, key);
        lemma_total_without(map.remove(key), notes, first);
        assert(map.remove(first).remove(key) =~= map.remove(key).remove(first));
    }
}

/// The total depends on the values of the notes under the entries alone.
pub proof fn lemma_total_depends_on_its_notes(
    map: Map<(u32, ZkPublicKey), NoteId>,
    notes: Map<NoteId, Note>,
    other: Map<NoteId, Note>,
)
    requires
        map.dom().finite(),
        forall|key: (u32, ZkPublicKey)| #[trigger]
            map.contains_key(key) ==> notes[map[key]].value == other[map[key]].value,
    ensures
        frozen_total(map, notes) == frozen_total(map, other),
    decreases map.dom().len(),
{
    if map.dom().len() > 0 {
        let key = map.dom().choose();
        assert(map.contains_key(key));
        assert(map.remove(key).dom() =~= map.dom().remove(key));
        assert forall|k: (u32, ZkPublicKey)| #[trigger] map.remove(key).contains_key(k) implies
            notes[map.remove(key)[k]].value == other[map.remove(key)[k]].value by {
            assert(map.contains_key(k));
        }
        lemma_total_depends_on_its_notes(map.remove(key), notes, other);
    }
}

/// The notes under the entries are frozen, and no two entries share a note.
pub open spec fn holds_its_notes(
    map: Map<(u32, ZkPublicKey), NoteId>,
    notes: Map<NoteId, Note>,
) -> bool {
    &&& map.dom().finite()
    &&& forall|key: (u32, ZkPublicKey)| #[trigger]
        map.contains_key(key) ==> notes.contains_key(map[key])
    &&& forall|a: (u32, ZkPublicKey), b: (u32, ZkPublicKey)|
        #![trigger map.contains_key(a), map.contains_key(b)]
        map.contains_key(a) && map.contains_key(b) && a != b ==> map[a] != map[b]
}

/// What a reserve is worth: its floating balance and its frozen notes.
pub open spec fn worth(reserve: ReserveView) -> nat {
    reserve.floating_balance as nat + frozen_total(reserve.frozen_note_map, reserve.frozen_notes)
}

/// `after` has come from `before` by the release of notes: it holds some of the
/// same entries, lacks no other frozen note than those it gave up, and is worth
/// the same.
pub open spec fn releases_into(before: ReserveView, after: ReserveView) -> bool {
    &&& holds_its_notes(after.frozen_note_map, after.frozen_notes)
    &&& worth(after) == worth(before)
    &&& forall|key: (u32, ZkPublicKey)| #[trigger]
        after.frozen_note_map.contains_key(key) ==> before.frozen_note_map.contains_key(key)
            && before.frozen_note_map[key] == after.frozen_note_map[key]
    &&& forall|id: NoteId| #[trigger]
        after.frozen_notes.contains_key(id) ==> before.frozen_notes.contains_key(id)
            && before.frozen_notes[id] == after.frozen_notes[id]
    &&& forall|id: NoteId| #[trigger]
        before.frozen_notes.contains_key(id) && !after.frozen_notes.contains_key(id)
            ==> exists|key: (u32, ZkPublicKey)| #[trigger]
            before.frozen_note_map.contains_key(key) && before.frozen_note_map[key] == id
}

/// Releasing a note moves its value, and changes no total.
pub proof fn release_keeps_worth(reserve: ReserveView, key: (u32, ZkPublicKey))
    requires
        holds_its_notes(reserve.frozen_note_map, reserve.frozen_notes),
    ensures
        release_note(reserve, key) matches Ok(after) ==> releases_into(reserve, after),
{
    if let Ok(after) = release_note(reserve, key) {
        let map = reserve.frozen_note_map;
        if map.contains_key(key) {
            assert(release_fault(reserve, key) is None);
            let id = map[key];
            assert(after == released(reserve, key));
            assert(map.remove(key).dom() =~= map.dom().remove(key));
            lemma_total_without(map, reserve.frozen_notes, key);
            assert forall|k: (u32, ZkPublicKey)| #[trigger]
                map.remove(key).contains_key(k) implies {
                &&& after.frozen_notes.contains_key(map[k])
                &&& after.frozen_notes[map[k]] == reserve.frozen_notes[map[k]]
            } by {
                assert(map.contains_key(k));
                assert(map.contains_key(key));
            }
            assert forall|a: (u32, ZkPublicKey), b: (u32, ZkPublicKey)|
                #![trigger map.remove(key).contains_key(a), map.remove(key).contains_key(b)]
                map.remove(key).contains_key(a) && map.remove(key).contains_key(b) && a
                    != b implies map.remove(key)[a] != map.remove(key)[b] by {
                assert(map.contains_key(a));
                assert(map.contains_key(b));
            }
            lemma_total_depends_on_its_notes(
                map.remove(key),
                reserve.frozen_notes,
                after.frozen_notes,
            );
        }
    }
}

proof fn lemma_releases_compose(a: ReserveView, b: ReserveView, c: ReserveView)
    requires
        releases_into(a, b),
        releases_into(b, c),
    ensures
        releases_into(a, c),
{
    assert forall|key: (u32, ZkPublicKey)| #[trigger] c.frozen_note_map.contains_key(key) implies {
        &&& a.frozen_note_map.contains_key(key)
        &&& a.frozen_note_map[key] == c.frozen_note_map[key]
    } by {
        assert(b.frozen_note_map.contains_key(key));
    }
    assert forall|id: NoteId| #[trigger] c.frozen_notes.contains_key(id) implies {
        &&& a.frozen_notes.contains_key(id)
        &&& a.frozen_notes[id] == c.frozen_notes[id]
    } by {
        assert(b.frozen_notes.contains_key(id));
    }
    assert forall|id: NoteId| #[trigger]
        a.frozen_notes.contains_key(id) && !c.frozen_notes.contains_key(id) implies exists|
        key: (u32, ZkPublicKey),
    | #[trigger] a.frozen_note_map.contains_key(key) && a.frozen_note_map[key] == id by {
        if b.frozen_notes.contains_key(id) {
            let key = choose|key: (u32, ZkPublicKey)| #[trigger]
                b.frozen_note_map.contains_key(key) && b.frozen_note_map[key] == id;
            assert(a.frozen_note_map.contains_key(key));
        }
    }
}

/// Releasing one epoch's notes changes no total.
pub proof fn release_epoch_keeps_worth(
    reserve: ReserveView,
    epoch: u32,
    sequencers: Seq<ZkPublicKey>,
)
    requires
        holds_its_notes(reserve.frozen_note_map, reserve.frozen_notes),
    ensures
        release_epoch(reserve, epoch, sequencers) matches Ok(after) ==> releases_into(
            reserve,
            after,
        ),
    decreases sequencers.len(),
{
    if sequencers.len() > 0 {
        release_epoch_keeps_worth(reserve, epoch, sequencers.drop_last());
        if let Ok(before) = release_epoch(reserve, epoch, sequencers.drop_last()) {
            release_keeps_worth(before, (epoch, sequencers.last()));
            if let Ok(after) = release_note(before, (epoch, sequencers.last())) {
                lemma_releases_compose(reserve, before, after);
            }
        }
    }
}

/// Releasing notes until an amount is covered changes no total.
pub proof fn release_until_keeps_worth(
    reserve: ReserveView,
    amount: Value,
    epoch: u32,
    sequencers: Seq<ZkPublicKey>,
)
    requires
        holds_its_notes(reserve.frozen_note_map, reserve.frozen_notes),
    ensures
        release_until(reserve, amount, epoch, sequencers) matches Ok(after) ==> releases_into(
            reserve,
            after,
        ),
    decreases epoch,
{
    if amount > reserve.floating_balance {
        release_epoch_keeps_worth(reserve, epoch, sequencers);
        if let Ok(next) = release_epoch(reserve, epoch, sequencers) {
            if epoch > 0 {
                release_until_keeps_worth(next, amount, (epoch - 1) as u32, sequencers);
                if let Ok(after) = release_until(next, amount, (epoch - 1) as u32, sequencers) {
                    lemma_releases_compose(reserve, next, after);
                }
            }
        }
    }
}

/// Releasing listed notes changes no total.
pub proof fn release_list_keeps_worth(reserve: ReserveView, keys: Seq<(u32, ZkPublicKey)>)
    requires
        holds_its_notes(reserve.frozen_note_map, reserve.frozen_notes),
    ensures
        release_list(reserve, keys) matches Ok(after) ==> releases_into(reserve, after),
    decreases keys.len(),
{
    if keys.len() > 0 {
        release_list_keeps_worth(reserve, keys.drop_last());
        if let Ok(before) = release_list(reserve, keys.drop_last()) {
            release_keeps_worth(before, keys.last());
            if let Ok(after) = release_note(before, keys.last()) {
                lemma_releases_compose(reserve, before, after);
            }
        }
    }
}

/// A channel's floating balance and its frozen notes together are worth its
/// solvency.
pub open spec fn channel_backed(channel: ChannelView, notes: Map<NoteId, Note>) -> bool {
    &&& holds_its_notes(channel.frozen_note_map, notes)
    &&& channel.floating_balance + frozen_total(channel.frozen_note_map, notes) == channel.solvency
}

/// No two channels share a note.
pub open spec fn notes_apart(a: ChannelView, b: ChannelView) -> bool {
    forall|k: (u32, ZkPublicKey), l: (u32, ZkPublicKey)|
        #![trigger a.frozen_note_map.contains_key(k), b.frozen_note_map.contains_key(l)]
        a.frozen_note_map.contains_key(k) && b.frozen_note_map.contains_key(l)
            ==> a.frozen_note_map[k] != b.frozen_note_map[l]
}

/// Every channel is backed, by notes of its own.
pub open spec fn all_backed(channels: ChannelsView) -> bool {
    &&& forall|id: ChannelId| #[trigger]
        channels.channels.contains_key(id) ==> channel_backed(
            channels.channels[id],
            channels.frozen_notes,
        )
    &&& forall|a: ChannelId, b: ChannelId|
        #![trigger channels.channels.contains_key(a), channels.channels.contains_key(b)]
        channels.channels.contains_key(a) && channels.channels.contains_key(b) && a != b
            ==> notes_apart(channels.channels[a], channels.channels[b])
}

/// Changing one channel and releasing some of its notes leaves the others backed.
proof fn lemma_others_stay_backed(
    before: ChannelsView,
    after: ChannelsView,
    channel_id: ChannelId,
    reserve: ReserveView,
    released: ReserveView,
    channel: ChannelView,
)
    requires
        all_backed(before),
        before.channels.contains_key(channel_id),
        reserve.frozen_note_map == before.channels[channel_id].frozen_note_map,
        reserve.frozen_notes == before.frozen_notes,
        releases_into(reserve, released),
        after.channels == before.channels.insert(channel_id, channel),
        after.frozen_notes == released.frozen_notes,
        channel.frozen_note_map == released.frozen_note_map,
        channel_backed(channel, after.frozen_notes),
    ensures
        all_backed(after),
{
    let own = before.channels[channel_id];
    assert forall|id: ChannelId| #[trigger] after.channels.contains_key(id) implies channel_backed(
        after.channels[id],
        after.frozen_notes,
    ) by {
        if id != channel_id {
            assert(before.channels.contains_key(id));
            let other = before.channels[id];
            assert(after.channels[id] == other);
            assert(notes_apart(other, own));
            assert forall|key: (u32, ZkPublicKey)| #[trigger]
                other.frozen_note_map.contains_key(key) implies {
                &&& after.frozen_notes.contains_key(other.frozen_note_map[key])
                &&& after.frozen_notes[other.frozen_note_map[key]]
                    == before.frozen_notes[other.frozen_note_map[key]]
            } by {
                let note = other.frozen_note_map[key];
                assert(before.frozen_notes.contains_key(note));
                if !after.frozen_notes.contains_key(note) {
                    let k = choose|k: (u32, ZkPublicKey)| #[trigger]
                        reserve.frozen_note_map.contains_key(k) && reserve.frozen_note_map[k]
                            == note;
                    assert(own.frozen_note_map.contains_key(k));
                }
            }
            lemma_total_depends_on_its_notes(
                other.frozen_note_map,
                before.frozen_notes,
                after.frozen_notes,
            );
        }
    }
    assert forall|a: ChannelId, b: ChannelId|
        #![trigger after.channels.contains_key(a), after.channels.contains_key(b)]
        after.channels.contains_key(a) && after.channels.contains_key(b) && a
            != b implies notes_apart(after.channels[a], after.channels[b]) by {
        assert(before.channels.contains_key(a) && before.channels.contains_key(b));
        assert(notes_apart(before.channels[a], before.channels[b]));
        let x = after.channels[a];
        let y = after.channels[b];
        assert forall|k: (u32, ZkPublicKey), l: (u32, ZkPublicKey)|
            #![trigger x.frozen_note_map.contains_key(k), y.frozen_note_map.contains_key(l)]
            x.frozen_note_map.contains_key(k) && y.frozen_note_map.contains_key(
                l,
            ) implies x.frozen_note_map[k] != y.frozen_note_map[l] by {
            assert(before.channels[a].frozen_note_map.contains_key(k));
            assert(before.channels[b].frozen_note_map.contains_key(l));
        }
    }
}

/// A deposit leaves every channel backed.
pub proof fn deposit_keeps_channels_backed(
    op: DepositView,
    channels: ChannelsView,
    utxos: Map<NoteId, Utxo>,
)
    requires
        all_backed(channels),
    ensures
        deposit_outcome(op, channels, utxos) matches Ok((after, _)) ==> all_backed(after),
{
    if let Ok((after, _)) = deposit_outcome(op, channels, utxos) {
        let reserve = reserve_of(channels, utxos, op.channel_id);
        assert(channels.channels.contains_key(op.channel_id));
        assert(releases_into(reserve, reserve));
        lemma_others_stay_backed(
            channels,
            after,
            op.channel_id,
            reserve,
            reserve,
            after.channels[op.channel_id],
        );
    }
}

/// A withdrawal leaves every channel backed.
pub proof fn withdraw_keeps_channels_backed(
    op: WithdrawView,
    channels: ChannelsView,
    utxos: Map<NoteId, Utxo>,
    epoch: u32,
)
    requires
        all_backed(channels),
    ensures
        withdraw_outcome(op, channels, utxos, epoch) matches Ok((after, _)) ==> all_backed(after),
{
    if let Ok((after, _)) = withdraw_outcome(op, channels, utxos, epoch) {
        let reserve = reserve_of(channels, utxos, op.channel_id);
        let channel = channels.channels[op.channel_id];
        let amount = notes_value(op.outputs) as Value;
        assert(channel_backed(channel, channels.frozen_notes));
        release_until_keeps_worth(reserve, amount, epoch, channel.sequencers_zk_pks);
        lemma_released_covers(reserve, amount, epoch, channel.sequencers_zk_pks);
        let released = release_until(reserve, amount, epoch, channel.sequencers_zk_pks)->Ok_0;
        lemma_others_stay_backed(
            channels,
            after,
            op.channel_id,
            reserve,
            released,
            after.channels[op.channel_id],
        );
    }
}

/// A configuration leaves every channel backed, in whichever order it releases
/// notes.
pub proof fn config_keeps_channels_backed(
    op: ConfigView,
    channels: ChannelsView,
    utxos: Map<NoteId, Utxo>,
    slot: Slot,
    order: Seq<(u32, ZkPublicKey)>,
)
    requires
        all_backed(channels),
    ensures
        config_outcome(op, channels, utxos, slot, order) matches Ok((after, _)) ==> all_backed(
            after,
        ),
{
    if let Ok((after, _)) = config_outcome(op, channels, utxos, slot, order) {
        if channels.channels.contains_key(op.channel) {
            let reserve = reserve_of(channels, utxos, op.channel);
            assert(channel_backed(channels.channels[op.channel], channels.frozen_notes));
            release_list_keeps_worth(reserve, order);
            lemma_others_stay_backed(
                channels,
                after,
                op.channel,
                reserve,
                release_list(reserve, order)->Ok_0,
                after.channels[op.channel],
            );
        } else {
            let created = after.channels[op.channel];
            assert(created.frozen_note_map.dom() =~= Set::empty());
            assert(channel_backed(created, after.frozen_notes));
            assert forall|id: ChannelId| #[trigger]
                after.channels.contains_key(id) implies channel_backed(
                after.channels[id],
                after.frozen_notes,
            ) by {
                if id != op.channel {
                    assert(channels.channels.contains_key(id));
                }
            }
            assert forall|a: ChannelId, b: ChannelId|
                #![trigger after.channels.contains_key(a), after.channels.contains_key(b)]
                after.channels.contains_key(a) && after.channels.contains_key(b) && a
                    != b implies notes_apart(after.channels[a], after.channels[b]) by {
                if a != op.channel && b != op.channel {
                    assert(channels.channels.contains_key(a) && channels.channels.contains_key(b));
                }
            }
        }
    }
}

} // verus!
