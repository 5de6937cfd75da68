//! What a minting does to the channels as a whole.

use vstd::prelude::*;

use crate::mantle::backing::{
    all_backed, channel_backed, frozen_total, holds_its_notes, lemma_total_depends_on_its_notes,
    lemma_total_without, notes_apart,
};
use crate::mantle::channel::{no_channels, ChannelView, ChannelsView};
use crate::mantle::ledger::notes_value;
use crate::mantle::mint::{
    lemma_share, mint_channel, mint_channels, minted, minted_for, mints, note_share, with_frozen,
    with_registered,
};
use crate::mantle::primitives::{ChannelId, Note, NoteId, Utxo, ZkPublicKey};

verus! {

/// The channel's sequencers have different keys, and it holds no notes of the
/// epoch yet.
pub open spec fn ready_for_epoch(channel: ChannelView, epoch: u32) -> bool {
    &&& channel.sequencers_zk_pks.no_duplicates()
    &&& forall|pk: ZkPublicKey| !#[trigger] channel.frozen_note_map.contains_key((epoch, pk))
}

/// The notes of minted outputs.
pub open spec fn notes_of(utxos: Seq<Utxo>) -> Seq<Note> {
    utxos.map_values(|utxo: Utxo| utxo.note)
}

/// The identifiers are different from each other, and none of them is taken.
pub open spec fn fresh_ids(ids: Seq<NoteId>, notes: Map<NoteId, Note>) -> bool {
    &&& ids.no_duplicates()
    &&& forall|i: int| 0 <= i < ids.len() ==> !notes.contains_key(#[trigger] ids[i])
}

/// A channel mints a note for each sequencer in the sequencers' order, all worth
/// the same, or none at all.
pub proof fn minted_notes_are_equal_shares(channel_id: ChannelId, channel: ChannelView, epoch: u32)
    requires
        channel.sequencers_zk_pks.len() <= 0xffff,
    ensures
        note_share(channel) > 0 ==> minted(channel_id, channel, epoch).len()
            == channel.sequencers_zk_pks.len(),
        note_share(channel) == 0 <==> minted(channel_id, channel, epoch).len() == 0,
        note_share(channel) == 0 <==> channel.sequencers_zk_pks.len() == 0
            || channel.floating_balance < channel.sequencers_zk_pks.len(),
        forall|i: int|
            0 <= i < minted(channel_id, channel, epoch).len() ==> {
                &&& (#[trigger] minted(channel_id, channel, epoch)[i]).note.value == note_share(
                    channel,
                )
                &&& minted(channel_id, channel, epoch)[i].note.pk == channel.sequencers_zk_pks[i]
                &&& minted(channel_id, channel, epoch)[i].output_index == i
            },
{
    let n = channel.sequencers_zk_pks.len() as int;
    let balance = channel.floating_balance as int;
    if n > 0 {
        lemma_share(balance, n);
    }
}

/// What is left floating after a minting is less than one unit for each
/// sequencer, and what was taken is what the minted notes are worth.
pub proof fn minting_moves_whole_shares(
    all: ChannelsView,
    channel_id: ChannelId,
    epoch: u32,
    ids: Seq<NoteId>,
)
    requires
        all.channels.contains_key(channel_id),
        all.channels[channel_id].sequencers_zk_pks.len() <= 0xffff,
        minted(channel_id, all.channels[channel_id], epoch).len() > 0,
    ensures
        ({
            let before = all.channels[channel_id];
            let after = mint_channel(all, channel_id, epoch, ids).channels[channel_id];
            &&& after.floating_balance < after.sequencers_zk_pks.len()
            &&& before.floating_balance == after.floating_balance + notes_value(
                notes_of(minted(channel_id, before, epoch)),
            )
            &&& after.solvency == before.solvency
        }),
{
    let channel = all.channels[channel_id];
    let n = channel.sequencers_zk_pks.len() as int;
    let utxos = minted(channel_id, channel, epoch);
    minted_notes_are_equal_shares(channel_id, channel, epoch);
    lemma_share(channel.floating_balance as int, n);
    lemma_equal_values(notes_of(utxos), note_share(channel) as nat);
}

/// Each minted note is frozen, and is the channel's under its epoch and owner.
pub proof fn minted_notes_are_frozen_and_registered(
    all: ChannelsView,
    channel_id: ChannelId,
    epoch: u32,
    ids: Seq<NoteId>,
    i: int,
)
    requires
        all.channels.contains_key(channel_id),
        all.channels[channel_id].sequencers_zk_pks.len() <= 0xffff,
        all.channels[channel_id].sequencers_zk_pks.no_duplicates(),
        ids.no_duplicates(),
        ids.len() == minted(channel_id, all.channels[channel_id], epoch).len(),
        0 <= i < ids.len(),
    ensures
        ({
            let utxo = minted(channel_id, all.channels[channel_id], epoch)[i];
            let after = mint_channel(all, channel_id, epoch, ids);
            &&& after.frozen_notes.contains_key(ids[i])
            &&& after.frozen_notes[ids[i]] == utxo.note
            &&& after.channels[channel_id].frozen_note_map.contains_key((epoch, utxo.note.pk))
            &&& after.channels[channel_id].frozen_note_map[(epoch, utxo.note.pk)] == ids[i]
        }),
{
    let channel = all.channels[channel_id];
    minted_notes_are_equal_shares(channel_id, channel, epoch);
    lemma_registered_each(
        channel.frozen_note_map,
        all.frozen_notes,
        epoch,
        minted(channel_id, channel, epoch),
        ids,
        i,
    );
}

proof fn lemma_registered_each(
    map: Map<(u32, ZkPublicKey), NoteId>,
    notes: Map<NoteId, Note>,
    epoch: u32,
    utxos: Seq<Utxo>,
    ids: Seq<NoteId>,
    i: int,
)
    requires
        ids.len() == utxos.len(),
        ids.no_duplicates(),
        distinct_owners(utxos),
        0 <= i < ids.len(),
    ensures
        with_registered(map, epoch, utxos, ids).contains_key((epoch, utxos[i].note.pk)),
        with_registered(map, epoch, utxos, ids)[(epoch, utxos[i].note.pk)] == ids[i],
        with_frozen(notes, utxos, ids).contains_key(ids[i]),
        with_frozen(notes, utxos, ids)[ids[i]] == utxos[i].note,
    decreases utxos.len(),
{
    if i < utxos.len() - 1 {
        lemma_registered_each(map, notes, epoch, utxos.drop_last(), ids.drop_last(), i);
        assert(ids[i] != ids[ids.len() - 1]);
        assert(utxos[i].note.pk != utxos[utxos.len() - 1].note.pk);
    }
}

/// No two of these outputs have the same owner.
pub open spec fn distinct_owners(utxos: Seq<Utxo>) -> bool {
    forall|i: int, j: int|
        0 <= i < j < utxos.len() ==> (#[trigger] utxos[i]).note.pk != (
        #[trigger] utxos[j]).note.pk
}

proof fn lemma_equal_values(notes: Seq<Note>, share: nat)
    requires
        forall|i: int| 0 <= i < notes.len() ==> (#[trigger] notes[i]).value == share,
    ensures
        notes_value(notes) == notes.len() * share,
    decreases notes.len(),
{
    if notes.len() > 0 {
        lemma_equal_values(notes.drop_last(), share);
        assert((notes.len() - 1) * share + share == notes.len() * share) by (nonlinear_arith);
    } else {
        assert(0 * share == 0) by (nonlinear_arith);
    }
}

proof fn lemma_register_one(
    map: Map<(u32, ZkPublicKey), NoteId>,
    notes: Map<NoteId, Note>,
    key: (u32, ZkPublicKey),
    id: NoteId,
    note: Note,
)
    requires
        holds_its_notes(map, notes),
        !map.contains_key(key),
        !notes.contains_key(id),
    ensures
        holds_its_notes(map.insert(key, id), notes.insert(id, note)),
        frozen_total(map.insert(key, id), notes.insert(id, note)) == frozen_total(map, notes)
            + note.value,
{
    let map2 = map.insert(key, id);
    let notes2 = notes.insert(id, note);
    assert(map2.dom() =~= map.dom().insert(key));
    assert forall|k: (u32, ZkPublicKey)| #[trigger] map.contains_key(k) implies map[k] != id by {}
    assert forall|k: (u32, ZkPublicKey)| #[trigger] map2.contains_key(k) implies notes2.contains_key(
        map2[k],
    ) by {
        if k != key {
            assert(map.contains_key(k));
        }
    }
    assert forall|a: (u32, ZkPublicKey), b: (u32, ZkPublicKey)|
        #![trigger map2.contains_key(a), map2.contains_key(b)]
        map2.contains_key(a) && map2.contains_key(b) && a != b implies map2[a] != map2[b] by {
        if a != key {
            assert(map.contains_key(a));
        }
        if b != key {
            assert(map.contains_key(b));
        }
    }
    lemma_total_without(map2, notes2, key);
    assert(map2.remove(key) =~= map);
    lemma_total_depends_on_its_notes(map, notes, notes2);
}

proof fn lemma_register_all(
    map: Map<(u32, ZkPublicKey), NoteId>,
    notes: Map<NoteId, Note>,
    epoch: u32,
    utxos: Seq<Utxo>,
    ids: Seq<NoteId>,
)
    requires
        holds_its_notes(map, notes),
        ids.len() == utxos.len(),
        fresh_ids(ids, notes),
        distinct_owners(utxos),
        forall|pk: ZkPublicKey| !#[trigger] map.contains_key((epoch, pk)),
    ensures
        ({
            let map2 = with_registered(map, epoch, utxos, ids);
            let notes2 = with_frozen(notes, utxos, ids);
            &&& holds_its_notes(map2, notes2)
            &&& frozen_total(map2, notes2) == frozen_total(map, notes) + notes_value(
                notes_of(utxos),
            )
            &&& forall|key: (u32, ZkPublicKey)| #[trigger]
                map2.contains_key(key) ==> map.contains_key(key) && map2[key] == map[key] || (
                ids.contains(map2[key]) && key.0 == epoch && owned_by_some(utxos, key.1))
            &&& forall|id: NoteId| #[trigger]
                notes2.contains_key(id) ==> notes.contains_key(id) || ids.contains(id)
            &&& forall|id: NoteId| #[trigger]
                notes.contains_key(id) ==> notes2.contains_key(id) && notes2[id] == notes[id]
        }),
    decreases utxos.len(),
{
    if utxos.len() > 0 {
        let front = utxos.drop_last();
        let front_ids = ids.drop_last();
        let last = utxos.last();
        let id = ids.last();
        assert forall|i: int| 0 <= i < front_ids.len() implies !notes.contains_key(
            #[trigger] front_ids[i],
        ) by {
            assert(front_ids[i] == ids[i]);
        }
        lemma_register_all(map, notes, epoch, front, front_ids);
        let map1 = with_registered(map, epoch, front, front_ids);
        let notes1 = with_frozen(notes, front, front_ids);
        let key = (epoch, last.note.pk);
        assert(ids[ids.len() - 1] == id);
        assert(!front_ids.contains(id)) by {
            if front_ids.contains(id) {
                let i = choose|i: int| 0 <= i < front_ids.len() && front_ids[i] == id;
                assert(ids[i] == ids[ids.len() - 1]);
            }
        }
        assert(!map1.contains_key(key)) by {
            if map1.contains_key(key) {
                assert(!map.contains_key((epoch, last.note.pk)));
                let i = choose|i: int| 0 <= i < front.len() && (#[trigger] front[i]).note.pk == key.1;
                assert(utxos[i].note.pk == utxos[utxos.len() - 1].note.pk);
            }
        }
        lemma_register_one(map1, notes1, key, id, last.note);
        let map2 = with_registered(map, epoch, utxos, ids);
        assert(notes_of(utxos).drop_last() =~= notes_of(front));
        assert forall|k: (u32, ZkPublicKey)| #[trigger] map2.contains_key(k) implies map.contains_key(
            k,
        ) && map2[k] == map[k] || (ids.contains(map2[k]) && k.0 == epoch && owned_by_some(
            utxos,
            k.1,
        )) by {
            if k == key {
                assert(utxos[utxos.len() - 1].note.pk == k.1);
            } else {
                assert(map1.contains_key(k));
                if !(map.contains_key(k) && map1[k] == map[k]) {
                    let i = choose|i: int|
                        0 <= i < front_ids.len() && front_ids[i] == map1[k];
                    assert(ids[i] == map1[k]);
                    let j = choose|j: int|
                        0 <= j < front.len() && (#[trigger] front[j]).note.pk == k.1;
                    assert(utxos[j].note.pk == k.1);
                }
            }
        }
        assert forall|x: NoteId| #[trigger] with_frozen(notes, utxos, ids).contains_key(
            x,
        ) implies notes.contains_key(x) || ids.contains(x) by {
            if x != id && !notes.contains_key(x) {
                assert(notes1.contains_key(x));
                let i = choose|i: int| 0 <= i < front_ids.len() && front_ids[i] == x;
                assert(ids[i] == x);
            }
        }
    } else {
        assert(notes_of(utxos) =~= Seq::<Note>::empty());
    }
}

/// One of the outputs belongs to `pk`.
pub open spec fn owned_by_some(utxos: Seq<Utxo>, pk: ZkPublicKey) -> bool {
    exists|i: int| 0 <= i < utxos.len() && (#[trigger] utxos[i]).note.pk == pk
}

/// Minting for one channel leaves every channel backed.
pub proof fn minting_one_keeps_channels_backed(
    all: ChannelsView,
    channel_id: ChannelId,
    epoch: u32,
    ids: Seq<NoteId>,
)
    requires
        all_backed(all),
        all.channels.contains_key(channel_id),
        all.channels[channel_id].sequencers_zk_pks.len() <= 0xffff,
        ready_for_epoch(all.channels[channel_id], epoch),
        ids.len() == minted(channel_id, all.channels[channel_id], epoch).len(),
        fresh_ids(ids, all.frozen_notes),
    ensures
        all_backed(mint_channel(all, channel_id, epoch, ids)),
{
    let channel = all.channels[channel_id];
    let utxos = minted(channel_id, channel, epoch);
    if utxos.len() > 0 {
        let after = mint_channel(all, channel_id, epoch, ids);
        minted_notes_are_equal_shares(channel_id, channel, epoch);
        minting_moves_whole_shares(all, channel_id, epoch, ids);
        assert(channel_backed(channel, all.frozen_notes));
        assert(distinct_owners(utxos));
        lemma_register_all(channel.frozen_note_map, all.frozen_notes, epoch, utxos, ids);
        assert forall|id: ChannelId| #[trigger] after.channels.contains_key(id) implies channel_backed(
            after.channels[id],
            after.frozen_notes,
        ) by {
            if id != channel_id {
                assert(all.channels.contains_key(id));
                let other = all.channels[id];
                assert forall|k: (u32, ZkPublicKey)| #[trigger]
                    other.frozen_note_map.contains_key(k) implies {
                    &&& after.frozen_notes.contains_key(other.frozen_note_map[k])
                    &&& after.frozen_notes[other.frozen_note_map[k]]
                        == all.frozen_notes[other.frozen_note_map[k]]
                } by {
                    assert(all.frozen_notes.contains_key(other.frozen_note_map[k]));
                }
                lemma_total_depends_on_its_notes(
                    other.frozen_note_map,
                    all.frozen_notes,
                    after.frozen_notes,
                );
            }
        }
        assert forall|a: ChannelId, b: ChannelId|
            #![trigger after.channels.contains_key(a), after.channels.contains_key(b)]
            after.channels.contains_key(a) && after.channels.contains_key(b) && a
                != b implies notes_apart(after.channels[a], after.channels[b]) by {
            assert(all.channels.contains_key(a) && all.channels.contains_key(b));
            assert(notes_apart(all.channels[a], all.channels[b]));
            let x = after.channels[a];
            let y = after.channels[b];
            assert forall|k: (u32, ZkPublicKey), l: (u32, ZkPublicKey)|
                #![trigger x.frozen_note_map.contains_key(k), y.frozen_note_map.contains_key(l)]
                x.frozen_note_map.contains_key(k) && y.frozen_note_map.contains_key(
                    l,
                ) implies x.frozen_note_map[k] != y.frozen_note_map[l] by {
                if a == channel_id {
                    assert(all.channels[b].frozen_note_map.contains_key(l));
                    assert(all.frozen_notes.contains_key(y.frozen_note_map[l]));
                    if all.channels[a].frozen_note_map.contains_key(k) {
                    }
                    if ids.contains(x.frozen_note_map[k]) {
                        let i = choose|i: int| 0 <= i < ids.len() && ids[i] == x.frozen_note_map[k];
                        assert(!all.frozen_notes.contains_key(ids[i]));
                    }
                } else if b == channel_id {
                    assert(all.channels[a].frozen_note_map.contains_key(k));
                    assert(all.frozen_notes.contains_key(x.frozen_note_map[k]));
                    if all.channels[b].frozen_note_map.contains_key(l) {
                    }
                    if ids.contains(y.frozen_note_map[l]) {
                        let i = choose|i: int| 0 <= i < ids.len() && ids[i] == y.frozen_note_map[l];
                        assert(!all.frozen_notes.contains_key(ids[i]));
                    }
                } else {
                    assert(all.channels[a].frozen_note_map.contains_key(k));
                    assert(all.channels[b].frozen_note_map.contains_key(l));
                }
            }
        }
    }
}

/// A channel is as it was, or has minted and has no share left to hand out.
pub open spec fn untouched_or_spent(before: ChannelView, after: ChannelView) -> bool {
    before == after || note_share(after) == 0 && after.sequencers_zk_pks.len() <= 0xffff
}

/// What holds while the marked channels mint one after the other.
spec fn minting_invariant(
    before: ChannelsView,
    after: ChannelsView,
    ids: Seq<NoteId>,
    count: nat,
) -> bool {
    &&& all_backed(after)
    &&& forall|id: ChannelId| #[trigger]
        after.channels.contains_key(id) ==> before.channels.contains_key(id)
            && untouched_or_spent(before.channels[id], after.channels[id])
    &&& forall|id: NoteId| #[trigger]
        after.frozen_notes.contains_key(id) ==> before.frozen_notes.contains_key(id)
            || ids.take(count as int).contains(id)
}

proof fn lemma_minting_run(
    before: ChannelsView,
    list: Seq<ChannelId>,
    epoch: u32,
    ids: Seq<NoteId>,
)
    requires
        all_backed(before),
        forall|id: ChannelId| #[trigger]
            before.channels.contains_key(id) ==> ready_for_epoch(before.channels[id], epoch)
                && before.channels[id].sequencers_zk_pks.len() <= 0xffff,
        fresh_ids(ids, before.frozen_notes),
        mint_channels(before, list, epoch, ids).1.len() <= ids.len(),
    ensures
        minting_invariant(
            before,
            mint_channels(before, list, epoch, ids).0,
            ids,
            mint_channels(before, list, epoch, ids).1.len(),
        ),
    decreases list.len(),
{
    if list.len() == 0 {
    } else {
        lemma_minting_run(before, list.drop_last(), epoch, ids);
        let (now, utxos) = mint_channels(before, list.drop_last(), epoch, ids);
        let channel_id = list.last();
        let more = minted_for(now, channel_id, epoch);
        let start = utxos.len() as int;
        let end = (utxos.len() + more.len()) as int;
        let own = ids.subrange(start, end);
        let after = mint_channel(now, channel_id, epoch, own);
        if more.len() > 0 {
            let channel = now.channels[channel_id];
            assert(now.channels.contains_key(channel_id));
            assert(before.channels.contains_key(channel_id));
            minted_notes_are_equal_shares(channel_id, channel, epoch);
            assert(channel == before.channels[channel_id]);
            assert(own.no_duplicates()) by {
                assert forall|i: int, j: int|
                    0 <= i < own.len() && 0 <= j < own.len() && i != j implies own[i] != own[j] by {
                    assert(own[i] == ids[start + i]);
                    assert(own[j] == ids[start + j]);
                }
            }
            assert forall|i: int| 0 <= i < own.len() implies !now.frozen_notes.contains_key(
                #[trigger] own[i],
            ) by {
                assert(own[i] == ids[start + i]);
                if ids.take(start).contains(own[i]) {
                    let j = choose|j: int| 0 <= j < start && ids.take(start)[j] == own[i];
                    assert(ids[j] == ids[start + i]);
                }
            }
            minting_one_keeps_channels_backed(now, channel_id, epoch, own);
            minting_moves_whole_shares(now, channel_id, epoch, own);
            minted_notes_are_equal_shares(channel_id, after.channels[channel_id], epoch);
            assert forall|id: ChannelId| #[trigger] after.channels.contains_key(id) implies {
                &&& before.channels.contains_key(id)
                &&& untouched_or_spent(before.channels[id], after.channels[id])
            } by {
                assert(now.channels.contains_key(id));
            }
            lemma_register_all(
                channel.frozen_note_map,
                now.frozen_notes,
                epoch,
                minted(channel_id, channel, epoch),
                own,
            );
        }
        assert forall|id: NoteId| #[trigger] after.frozen_notes.contains_key(id) implies {
            ||| before.frozen_notes.contains_key(id)
            ||| ids.take(end).contains(id)
        } by {
            if now.frozen_notes.contains_key(id) && !before.frozen_notes.contains_key(id) {
                let j = choose|j: int| 0 <= j < start && ids.take(start)[j] == id;
                assert(ids.take(end)[j] == id);
            } else if !now.frozen_notes.contains_key(id) {
                assert(own.contains(id));
                let j = choose|j: int| 0 <= j < own.len() && own[j] == id;
                assert(ids.take(end)[start + j] == id);
            }
        }
    }
}

/// A minting leaves every channel backed, and takes all marks away: if the
/// sequencers of each channel have different keys, no channel has minted for the
/// epoch before, and no two notes get the same identifier.
pub proof fn minting_keeps_channels_backed(
    before: ChannelsView,
    epoch: u32,
    ids: Seq<NoteId>,
    after: ChannelsView,
    utxos: Seq<Utxo>,
)
    requires
        all_backed(before),
        forall|id: ChannelId| #[trigger]
            before.channels.contains_key(id) ==> ready_for_epoch(before.channels[id], epoch)
                && before.channels[id].sequencers_zk_pks.len() <= 0xffff,
        fresh_ids(ids, before.frozen_notes),
        ids.len() == utxos.len(),
        mints(before, epoch, ids, after, utxos),
    ensures
        all_backed(after),
        after.mint_eligible_channels.len() == 0,
{
    lemma_minting_run(before, before.mint_eligible_channels, epoch, ids);
    let (done, _) = mint_channels(before, before.mint_eligible_channels, epoch, ids);
    assert(after.channels == done.channels && after.frozen_notes == done.frozen_notes);
    assert forall|id: ChannelId| #[trigger] after.channels.contains_key(id) implies channel_backed(
        after.channels[id],
        after.frozen_notes,
    ) by {
        assert(done.channels.contains_key(id));
    }
    assert forall|a: ChannelId, b: ChannelId|
        #![trigger after.channels.contains_key(a), after.channels.contains_key(b)]
        after.channels.contains_key(a) && after.channels.contains_key(b) && a
            != b implies notes_apart(after.channels[a], after.channels[b]) by {
        assert(done.channels.contains_key(a) && done.channels.contains_key(b));
    }
}

/// The same channels with the same sequencers and floating balances.
pub open spec fn same_shares(a: ChannelsView, b: ChannelsView) -> bool {
    &&& a.channels.dom() == b.channels.dom()
    &&& forall|id: ChannelId| #[trigger]
        a.channels.contains_key(id) ==> a.channels[id].sequencers_zk_pks
            == b.channels[id].sequencers_zk_pks && a.channels[id].floating_balance
            == b.channels[id].floating_balance
}

proof fn lemma_minted_alike(
    all: ChannelsView,
    list: Seq<ChannelId>,
    epoch: u32,
    first: Seq<NoteId>,
    second: Seq<NoteId>,
)
    ensures
        mint_channels(all, list, epoch, first).1 == mint_channels(all, list, epoch, second).1,
        same_shares(
            mint_channels(all, list, epoch, first).0,
            mint_channels(all, list, epoch, second).0,
        ),
    decreases list.len(),
{
    if list.len() > 0 {
        lemma_minted_alike(all, list.drop_last(), epoch, first, second);
        let (a, utxos) = mint_channels(all, list.drop_last(), epoch, first);
        let (b, _) = mint_channels(all, list.drop_last(), epoch, second);
        let id = list.last();
        assert(a.channels.dom().contains(id) == b.channels.dom().contains(id));
        if a.channels.contains_key(id) {
            assert(note_share(a.channels[id]) == note_share(b.channels[id]));
            assert(minted(id, a.channels[id], epoch) =~= minted(id, b.channels[id], epoch));
        }
        let x = mint_channels(all, list, epoch, first).0;
        let y = mint_channels(all, list, epoch, second).0;
        assert(x.channels.dom() =~= y.channels.dom()) by {
            assert(x.channels.dom() =~= a.channels.dom());
            assert(y.channels.dom() =~= b.channels.dom());
        }
        assert forall|k: ChannelId| #[trigger] x.channels.contains_key(k) implies {
            &&& x.channels[k].sequencers_zk_pks == y.channels[k].sequencers_zk_pks
            &&& x.channels[k].floating_balance == y.channels[k].floating_balance
        } by {
            assert(a.channels.contains_key(k));
        }
    }
}

/// Minting is deterministic: the channels and the epoch alone decide which notes
/// are minted, whatever identifiers the notes get.
pub proof fn minted_notes_follow_from_channels_and_epoch(
    before: ChannelsView,
    epoch: u32,
    first: Seq<NoteId>,
    first_after: ChannelsView,
    first_utxos: Seq<Utxo>,
    second: Seq<NoteId>,
    second_after: ChannelsView,
    second_utxos: Seq<Utxo>,
)
    requires
        mints(before, epoch, first, first_after, first_utxos),
        mints(before, epoch, second, second_after, second_utxos),
    ensures
        first_utxos == second_utxos,
{
    lemma_minted_alike(before, before.mint_eligible_channels, epoch, first, second);
}

/// Where there are no channels, every channel is backed.
pub proof fn no_channels_are_backed()
    ensures
        all_backed(no_channels()),
{
}

} // verus!
