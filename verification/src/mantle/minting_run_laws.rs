//! What a minting of all marked channels comes to, channel by channel and note by
//! note.

use vstd::prelude::*;

use crate::crypto::blake2b_256;
use crate::mantle::channel::{ChannelView, ChannelsView};
use crate::mantle::codec::le_bytes;
use crate::mantle::mint::{
    bridge_label, bridge_op_id, lemma_share, mint_channel, mint_channels, minted, minted_for,
    mints, with_frozen, with_registered,
};
use crate::mantle::primitives::{ChannelId, Note, NoteId, Utxo, ZkPublicKey};

verus! {

/// How many notes are minted for the channel at a place of the list: one for each
/// of its sequencers, if it has not been on the list before and holds one unit at
/// least for each of them.
pub open spec fn notes_at(before: ChannelsView, list: Seq<ChannelId>, place: int) -> nat {
    let channel = before.channels[list[place]];
    let n = channel.sequencers_zk_pks.len();
    if before.channels.contains_key(list[place]) && !list.take(place).contains(list[place]) && 0
        < n <= channel.floating_balance {
        n
    } else {
        0
    }
}

/// How many notes are minted for the channels before a place of the list.
pub open spec fn notes_before(before: ChannelsView, list: Seq<ChannelId>, place: nat) -> nat
    decreases place,
{
    if place == 0 {
        0
    } else {
        notes_before(before, list, (place - 1) as nat) + notes_at(before, list, place - 1)
    }
}

/// No channel has more sequencers than a channel can have.
pub open spec fn sequencers_bounded(channels: ChannelsView) -> bool {
    forall|id: ChannelId| #[trigger]
        channels.channels.contains_key(id) ==> channels.channels[id].sequencers_zk_pks.len()
            <= 0xffff
}

/// The channels differ in their floating balance and frozen notes at most.
pub open spec fn same_but_for_funds(a: ChannelView, b: ChannelView) -> bool {
    &&& a.accredited_keys == b.accredited_keys
    &&& a.configuration_threshold == b.configuration_threshold
    &&& a.withdraw_threshold == b.withdraw_threshold
    &&& a.tip_message == b.tip_message
    &&& a.tip_slot == b.tip_slot
    &&& a.tip_sequencer == b.tip_sequencer
    &&& a.tip_sequencer_starting_slot == b.tip_sequencer_starting_slot
    &&& a.posting_timeframe == b.posting_timeframe
    &&& a.posting_timeout == b.posting_timeout
    &&& a.solvency == b.solvency
    &&& a.sequencers_zk_pks == b.sequencers_zk_pks
    &&& a.withdrawal_nonce == b.withdrawal_nonce
}

proof fn lemma_places_of_front(before: ChannelsView, list: Seq<ChannelId>, place: nat)
    requires
        list.len() > 0,
        place < list.len(),
    ensures
        notes_before(before, list.drop_last(), place) == notes_before(before, list, place),
        place < list.len() - 1 ==> notes_at(before, list.drop_last(), place as int) == notes_at(
            before,
            list,
            place as int,
        ),
    decreases place,
{
    let front = list.drop_last();
    if place < list.len() - 1 {
        assert(front.take(place as int) =~= list.take(place as int));
        assert(front[place as int] == list[place as int]);
    }
    if place > 0 {
        lemma_places_of_front(before, list, (place - 1) as nat);
        let previous = place - 1;
        assert(front.take(previous) =~= list.take(previous));
        assert(front[previous] == list[previous]);
    }
}

proof fn lemma_contains_front(list: Seq<ChannelId>, id: ChannelId)
    requires
        list.len() > 0,
    ensures
        list.contains(id) <==> list.drop_last().contains(id) || id == list.last(),
{
    let front = list.drop_last();
    assert(list[list.len() - 1] == list.last());
    if front.contains(id) {
        let i = choose|i: int| 0 <= i < front.len() && front[i] == id;
        assert(list[i] == id);
    }
    if list.contains(id) && id != list.last() {
        let i = choose|i: int| 0 <= i < list.len() && list[i] == id;
        assert(front[i] == id);
    }
}

/// A listed channel is left with what cannot be shared equally among its
/// sequencers, if it has any; every other channel keeps its floating balance. All
/// channels keep all else but their frozen notes, and as many notes are minted as
/// the listed channels' balances allow for.
pub proof fn minting_leaves_remainders(
    before: ChannelsView,
    list: Seq<ChannelId>,
    epoch: u32,
    ids: Seq<NoteId>,
)
    requires
        sequencers_bounded(before),
    ensures
        ({
            let (after, utxos) = mint_channels(before, list, epoch, ids);
            &&& utxos.len() == notes_before(before, list, list.len())
            &&& after.mint_eligible_channels == before.mint_eligible_channels
            &&& forall|id: ChannelId| #[trigger]
                after.channels.contains_key(id) <==> before.channels.contains_key(id)
            &&& forall|id: ChannelId| #[trigger]
                after.channels.contains_key(id) ==> {
                    let was = before.channels[id];
                    let now = after.channels[id];
                    let n = was.sequencers_zk_pks.len();
                    &&& same_but_for_funds(was, now)
                    &&& list.contains(id) && n > 0 ==> now.floating_balance
                        == was.floating_balance as int % n as int
                    &&& !list.contains(id) || n == 0 ==> now.floating_balance
                        == was.floating_balance && now.frozen_note_map == was.frozen_note_map
                }
        }),
    decreases list.len(),
{
    if list.len() > 0 {
        let front = list.drop_last();
        let id = list.last();
        let place = list.len() - 1;
        minting_leaves_remainders(before, front, epoch, ids);
        lemma_places_of_front(before, list, place as nat);
        let (now, utxos) = mint_channels(before, front, epoch, ids);
        let more = minted_for(now, id, epoch);
        let own = ids.subrange(utxos.len() as int, (utxos.len() + more.len()) as int);
        let after = mint_channel(now, id, epoch, own);
        let was = before.channels[id];
        let channel = now.channels[id];
        let n = was.sequencers_zk_pks.len();
        assert(list.take(place) =~= front);
        assert(list[place] == id);
        if now.channels.contains_key(id) && n > 0 {
            lemma_share(was.floating_balance as int, n as int);
            lemma_share(channel.floating_balance as int, n as int);
            vstd::arithmetic::div_mod::lemma_fundamental_div_mod(
                was.floating_balance as int,
                n as int,
            );
            vstd::arithmetic::div_mod::lemma_mod_bound(was.floating_balance as int, n as int);
            if was.floating_balance < n {
                vstd::arithmetic::div_mod::lemma_small_mod(
                    was.floating_balance as nat,
                    n,
                );
            }
            if front.contains(id) {
                assert(channel.floating_balance < n);
                assert(more.len() == 0);
            } else {
                assert(channel.floating_balance == was.floating_balance);
                assert(more.len() == notes_at(before, list, place));
            }
        }
        assert forall|k: ChannelId| #[trigger] after.channels.contains_key(k) implies {
            let was = before.channels[k];
            let then = after.channels[k];
            let n = was.sequencers_zk_pks.len();
            &&& same_but_for_funds(was, then)
            &&& list.contains(k) && n > 0 ==> then.floating_balance == was.floating_balance as int
                % n as int
            &&& !list.contains(k) || n == 0 ==> then.floating_balance == was.floating_balance
                && then.frozen_note_map == was.frozen_note_map
        } by {
            lemma_contains_front(list, k);
            assert(now.channels.contains_key(k));
        }
        assert forall|k: ChannelId| #[trigger] after.channels.contains_key(k)
            <==> before.channels.contains_key(k) by {
            assert(now.channels.contains_key(k) <==> before.channels.contains_key(k));
        }
    }
}

proof fn lemma_notes_before_grows(
    before: ChannelsView,
    list: Seq<ChannelId>,
    place: nat,
    end: nat,
)
    requires
        place < end,
    ensures
        notes_before(before, list, place) + notes_at(before, list, place as int) <= notes_before(
            before,
            list,
            end,
        ),
    decreases end,
{
    if end > place + 1 {
        lemma_notes_before_grows(before, list, place, (end - 1) as nat);
    }
}

/// Each sequencer of a listed channel that can share anything out gets one note:
/// worth an equal share, rounded down, of what the channel had floating, with the
/// sequencer's number. Neither the notes that the channel holds already nor the
/// other channels play a part in it.
pub proof fn minting_gives_each_sequencer_an_equal_share(
    before: ChannelsView,
    list: Seq<ChannelId>,
    epoch: u32,
    ids: Seq<NoteId>,
    place: int,
    j: int,
)
    requires
        sequencers_bounded(before),
        0 <= place < list.len(),
        0 <= j < notes_at(before, list, place),
    ensures
        ({
            let utxos = mint_channels(before, list, epoch, ids).1;
            let at = notes_before(before, list, place as nat) + j;
            let channel = before.channels[list[place]];
            &&& 0 <= at < utxos.len()
            &&& utxos[at].op_id == bridge_op_id(list[place], epoch)
            &&& utxos[at].output_index == j
            &&& utxos[at].note.pk == channel.sequencers_zk_pks[j]
            &&& utxos[at].note.value == channel.floating_balance as int
                / channel.sequencers_zk_pks.len() as int
        }),
    decreases list.len(),
{
    let front = list.drop_last();
    let id = list.last();
    let (now, utxos) = mint_channels(before, front, epoch, ids);
    let more = minted_for(now, id, epoch);
    minting_leaves_remainders(before, front, epoch, ids);
    minting_leaves_remainders(before, list, epoch, ids);
    lemma_places_of_front(before, list, place as nat);
    lemma_notes_before_grows(before, list, place as nat, list.len());
    if place < list.len() - 1 {
        minting_gives_each_sequencer_an_equal_share(before, front, epoch, ids, place, j);
        assert(front[place] == list[place]);
    } else {
        assert(list.take(place) =~= front);
        assert(before.channels.contains_key(id));
        assert(now.channels.contains_key(id));
        assert(now.channels[id].floating_balance == before.channels[id].floating_balance);
        let channel = before.channels[id];
        lemma_share(channel.floating_balance as int, channel.sequencers_zk_pks.len() as int);
        assert(more == minted(id, now.channels[id], epoch));
    }
}

/// The maps hold the same under a key, or nothing both.
pub open spec fn agree_on<K, V>(a: Map<K, V>, b: Map<K, V>, key: K) -> bool {
    &&& a.contains_key(key) <==> b.contains_key(key)
    &&& a.contains_key(key) ==> a[key] == b[key]
}

/// Notes that are frozen under their identifiers: each is there afterwards, unless
/// a later one has the same identifier, and the others are as they were.
pub proof fn frozen_notes_are_added(
    notes: Map<NoteId, Note>,
    utxos: Seq<Utxo>,
    ids: Seq<NoteId>,
)
    requires
        ids.len() == utxos.len(),
    ensures
        forall|i: int|
            0 <= i < ids.len() ==> with_frozen(notes, utxos, ids).contains_key(#[trigger] ids[i]),
        forall|i: int|
            0 <= i < ids.len() && !ids.skip(i + 1).contains(#[trigger] ids[i]) ==> with_frozen(
                notes,
                utxos,
                ids,
            )[ids[i]] == utxos[i].note,
        forall|id: NoteId|
            !ids.contains(id) ==> #[trigger] agree_on(notes, with_frozen(notes, utxos, ids), id),
{
    let after = with_frozen(notes, utxos, ids);
    assert forall|i: int| 0 <= i < ids.len() implies after.contains_key(#[trigger] ids[i]) by {
        lemma_note_is_added(notes, utxos, ids, i);
    }
    assert forall|i: int|
        0 <= i < ids.len() && !ids.skip(i + 1).contains(#[trigger] ids[i]) implies after[ids[i]]
        == utxos[i].note by {
        let tail = ids.skip(i + 1);
        let id = ids[i];
        assert forall|j: int| i < j < ids.len() implies #[trigger] ids[j] != id by {
            assert(tail[j - i - 1] == ids[j]);
        }
        lemma_note_is_added(notes, utxos, ids, i);
    }
    assert forall|id: NoteId| !ids.contains(id) implies #[trigger] agree_on(notes, after, id) by {
        lemma_note_is_kept(notes, utxos, ids, id);
    }
}

proof fn lemma_note_is_added(
    notes: Map<NoteId, Note>,
    utxos: Seq<Utxo>,
    ids: Seq<NoteId>,
    i: int,
)
    requires
        ids.len() == utxos.len(),
        0 <= i < ids.len(),
    ensures
        with_frozen(notes, utxos, ids).contains_key(ids[i]),
        (forall|j: int| i < j < ids.len() ==> #[trigger] ids[j] != ids[i]) ==> with_frozen(
            notes,
            utxos,
            ids,
        )[ids[i]] == utxos[i].note,
    decreases utxos.len(),
{
    let front = ids.drop_last();
    let last = ids.len() - 1;
    if i < last {
        lemma_note_is_added(notes, utxos.drop_last(), front, i);
        assert(front[i] == ids[i]);
        assert(ids[last] == ids.last());
        if forall|j: int| i < j < ids.len() ==> #[trigger] ids[j] != ids[i] {
            assert forall|j: int| i < j < front.len() implies #[trigger] front[j] != front[i] by {
                assert(front[j] == ids[j]);
            }
            assert(ids[last] != ids[i]);
        }
    }
}

proof fn lemma_note_is_kept(
    notes: Map<NoteId, Note>,
    utxos: Seq<Utxo>,
    ids: Seq<NoteId>,
    id: NoteId,
)
    requires
        ids.len() == utxos.len(),
        !ids.contains(id),
    ensures
        agree_on(notes, with_frozen(notes, utxos, ids), id),
    decreases utxos.len(),
{
    if utxos.len() > 0 {
        let front = ids.drop_last();
        assert(ids[ids.len() - 1] == ids.last());
        if front.contains(id) {
            let j = choose|j: int| 0 <= j < front.len() && front[j] == id;
            assert(ids[j] == id);
        }
        lemma_note_is_kept(notes, utxos.drop_last(), front, id);
    }
}

/// One of the outputs is owned by `pk`, from a place on.
pub open spec fn owned_from(utxos: Seq<Utxo>, place: int, pk: ZkPublicKey) -> bool {
    exists|k: int| place <= k < utxos.len() && (#[trigger] utxos[k]).note.pk == pk
}

/// Notes that become the channel's under an epoch and their owners: each is there
/// afterwards, unless a later one has the same owner, and the others are as they
/// were.
pub proof fn notes_are_registered(
    map: Map<(u32, ZkPublicKey), NoteId>,
    epoch: u32,
    utxos: Seq<Utxo>,
    ids: Seq<NoteId>,
)
    requires
        ids.len() == utxos.len(),
    ensures
        forall|i: int|
            0 <= i < ids.len() ==> with_registered(map, epoch, utxos, ids).contains_key(
                (epoch, (#[trigger] utxos[i]).note.pk),
            ),
        forall|i: int|
            0 <= i < ids.len() && !owned_from(utxos, i + 1, (#[trigger] utxos[i]).note.pk)
                ==> with_registered(map, epoch, utxos, ids)[(epoch, utxos[i].note.pk)] == ids[i],
        forall|key: (u32, ZkPublicKey)|
            key.0 != epoch || !owned_from(utxos, 0, key.1) ==> #[trigger] agree_on(
                map,
                with_registered(map, epoch, utxos, ids),
                key,
            ),
    decreases utxos.len(),
{
    if utxos.len() > 0 {
        let front = utxos.drop_last();
        let last = utxos.len() - 1;
        notes_are_registered(map, epoch, front, ids.drop_last());
        let before = with_registered(map, epoch, front, ids.drop_last());
        let after = with_registered(map, epoch, utxos, ids);
        assert(utxos[last] == utxos.last());
        assert forall|i: int| 0 <= i < ids.len() implies after.contains_key(
            (epoch, (#[trigger] utxos[i]).note.pk),
        ) by {
            if i < last {
                assert(front[i] == utxos[i]);
                assert(before.contains_key((epoch, front[i].note.pk)));
            }
        }
        assert forall|i: int|
            0 <= i < ids.len() && !owned_from(utxos, i + 1, (
            #[trigger] utxos[i]).note.pk) implies after[(epoch, utxos[i].note.pk)] == ids[i] by {
            if i < last {
                assert(front[i] == utxos[i]);
                assert(utxos[last].note.pk != utxos[i].note.pk);
                if owned_from(front, i + 1, front[i].note.pk) {
                    let k = choose|k: int|
                        i + 1 <= k < front.len() && (#[trigger] front[k]).note.pk
                            == front[i].note.pk;
                    assert(utxos[k].note.pk == utxos[i].note.pk);
                }
                assert(before[(epoch, front[i].note.pk)] == ids.drop_last()[i]);
            }
        }
        assert forall|key: (u32, ZkPublicKey)|
            key.0 != epoch || !owned_from(utxos, 0, key.1) implies #[trigger] agree_on(
            map,
            after,
            key,
        ) by {
            if owned_from(front, 0, key.1) {
                let k = choose|k: int|
                    0 <= k < front.len() && (#[trigger] front[k]).note.pk == key.1;
                assert(utxos[k].note.pk == key.1);
            }
            assert(agree_on(map, before, key));
        }
    }
}

proof fn lemma_frozen_in_steps(
    notes: Map<NoteId, Note>,
    a: Seq<Utxo>,
    a_ids: Seq<NoteId>,
    b: Seq<Utxo>,
    b_ids: Seq<NoteId>,
)
    requires
        a_ids.len() == a.len(),
        b_ids.len() == b.len(),
    ensures
        with_frozen(with_frozen(notes, a, a_ids), b, b_ids) == with_frozen(
            notes,
            a + b,
            a_ids + b_ids,
        ),
    decreases b.len(),
{
    if b.len() == 0 {
        assert(a + b =~= a);
        assert(a_ids + b_ids =~= a_ids);
    } else {
        lemma_frozen_in_steps(notes, a, a_ids, b.drop_last(), b_ids.drop_last());
        assert((a + b).drop_last() =~= a + b.drop_last());
        assert((a_ids + b_ids).drop_last() =~= a_ids + b_ids.drop_last());
    }
}

proof fn lemma_run_freezes(
    before: ChannelsView,
    list: Seq<ChannelId>,
    epoch: u32,
    ids: Seq<NoteId>,
)
    requires
        mint_channels(before, list, epoch, ids).1.len() <= ids.len(),
    ensures
        ({
            let (after, utxos) = mint_channels(before, list, epoch, ids);
            after.frozen_notes == with_frozen(
                before.frozen_notes,
                utxos,
                ids.take(utxos.len() as int),
            )
        }),
    decreases list.len(),
{
    if list.len() > 0 {
        let front = list.drop_last();
        let (now, utxos) = mint_channels(before, front, epoch, ids);
        let more = minted_for(now, list.last(), epoch);
        let start = utxos.len() as int;
        let end = start + more.len();
        let own = ids.subrange(start, end);
        lemma_run_freezes(before, front, epoch, ids);
        lemma_frozen_in_steps(before.frozen_notes, utxos, ids.take(start), more, own);
        assert(ids.take(start) + own =~= ids.take(end));
    }
}

/// Every minted note is frozen under its identifier, unless a later one has the
/// same, and no other frozen note changes.
pub proof fn minting_freezes_what_it_mints(
    before: ChannelsView,
    list: Seq<ChannelId>,
    epoch: u32,
    ids: Seq<NoteId>,
)
    requires
        mint_channels(before, list, epoch, ids).1.len() == ids.len(),
    ensures
        ({
            let (after, utxos) = mint_channels(before, list, epoch, ids);
            &&& forall|k: int|
                0 <= k < utxos.len() ==> after.frozen_notes.contains_key(#[trigger] ids[k])
            &&& forall|k: int|
                0 <= k < utxos.len() && !ids.skip(k + 1).contains(#[trigger] ids[k])
                    ==> after.frozen_notes[ids[k]] == utxos[k].note
            &&& forall|id: NoteId|
                !ids.contains(id) ==> #[trigger] agree_on(
                    before.frozen_notes,
                    after.frozen_notes,
                    id,
                )
        }),
{
    let utxos = mint_channels(before, list, epoch, ids).1;
    lemma_run_freezes(before, list, epoch, ids);
    assert(ids.take(utxos.len() as int) =~= ids);
    frozen_notes_are_added(before.frozen_notes, utxos, ids);
}

/// The note that a sequencer is minted is the channel's under the epoch and the
/// sequencer, unless a later sequencer of the channel has the same key. The
/// channel's notes of other epochs and owners stay.
pub proof fn minting_registers_each_note(
    before: ChannelsView,
    list: Seq<ChannelId>,
    epoch: u32,
    ids: Seq<NoteId>,
    place: int,
)
    requires
        sequencers_bounded(before),
        mint_channels(before, list, epoch, ids).1.len() <= ids.len(),
        0 <= place < list.len(),
        before.channels.contains_key(list[place]),
        !list.take(place).contains(list[place]),
    ensures
        ({
            let was = before.channels[list[place]];
            let now = mint_channels(before, list, epoch, ids).0.channels[list[place]];
            let sequencers = was.sequencers_zk_pks;
            &&& forall|j: int|
                0 <= j < notes_at(before, list, place) ==> now.frozen_note_map.contains_key(
                    (epoch, #[trigger] sequencers[j]),
                )
            &&& forall|j: int|
                0 <= j < notes_at(before, list, place) && !sequencers.skip(j + 1).contains(
                    #[trigger] sequencers[j],
                ) ==> now.frozen_note_map[(epoch, sequencers[j])] == ids[notes_before(
                    before,
                    list,
                    place as nat,
                ) + j]
            &&& forall|key: (u32, ZkPublicKey)|
                key.0 != epoch || !sequencers.contains(key.1) || notes_at(before, list, place) == 0
                    ==> #[trigger] agree_on(was.frozen_note_map, now.frozen_note_map, key)
        }),
    decreases list.len(),
{
    let front = list.drop_last();
    let id = list[place];
    let (now, utxos) = mint_channels(before, front, epoch, ids);
    let more = minted_for(now, list.last(), epoch);
    let start = utxos.len() as int;
    let own = ids.subrange(start, start + more.len());
    let after = mint_channels(before, list, epoch, ids).0;
    minting_leaves_remainders(before, front, epoch, ids);
    lemma_places_of_front(before, list, place as nat);
    let was = before.channels[id];
    let sequencers = was.sequencers_zk_pks;
    if place < list.len() - 1 {
        assert(front[place] == id);
        assert(front.take(place) =~= list.take(place));
        minting_registers_each_note(before, front, epoch, ids, place);
        if list.last() == id {
            assert(front.contains(id));
            let n = sequencers.len();
            if n > 0 {
                vstd::arithmetic::div_mod::lemma_mod_bound(was.floating_balance as int, n as int);
                lemma_share(now.channels[id].floating_balance as int, n as int);
            }
            assert(more.len() == 0);
        }
        assert(after.channels[id] == now.channels[id]);
    } else {
        assert(list.take(place) =~= front);
        assert(now.channels.contains_key(id));
        assert(now.channels[id].floating_balance == was.floating_balance);
        assert(now.channels[id].frozen_note_map == was.frozen_note_map);
        if sequencers.len() > 0 {
            lemma_share(was.floating_balance as int, sequencers.len() as int);
        }
        assert(more.len() == notes_at(before, list, place));
        notes_are_registered(was.frozen_note_map, epoch, more, own);
        let map = after.channels[id].frozen_note_map;
        assert forall|j: int| 0 <= j < notes_at(before, list, place) implies map.contains_key(
            (epoch, #[trigger] sequencers[j]),
        ) by {
            assert(more[j].note.pk == sequencers[j]);
        }
        assert forall|j: int|
            0 <= j < notes_at(before, list, place) && !sequencers.skip(j + 1).contains(
                #[trigger] sequencers[j],
            ) implies map[(epoch, sequencers[j])] == ids[start + j] by {
            let pk = sequencers[j];
            let tail = sequencers.skip(j + 1);
            assert(more[j].note.pk == pk);
            if owned_from(more, j + 1, pk) {
                let k = choose|k: int|
                    j + 1 <= k < more.len() && (#[trigger] more[k]).note.pk == pk;
                assert(more[k].note.pk == sequencers[k]);
                assert(tail[k - j - 1] == pk);
            }
            assert(own[j] == ids[start + j]);
        }
        assert forall|key: (u32, ZkPublicKey)|
            key.0 != epoch || !sequencers.contains(key.1) || notes_at(before, list, place)
                == 0 implies #[trigger] agree_on(was.frozen_note_map, map, key) by {
            if owned_from(more, 0, key.1) {
                let k = choose|k: int|
                    0 <= k < more.len() && (#[trigger] more[k]).note.pk == key.1;
                assert(more[k].note.pk == sequencers[k]);
            }
        }
    }
}

/// A minting goes through the marked channels in their order, and takes all marks
/// away.
pub proof fn minting_serves_all_marked_channels(
    before: ChannelsView,
    epoch: u32,
    ids: Seq<NoteId>,
    after: ChannelsView,
    utxos: Seq<Utxo>,
)
    requires
        sequencers_bounded(before),
        mints(before, epoch, ids, after, utxos),
    ensures
        ({
            let list = before.mint_eligible_channels;
            &&& after.mint_eligible_channels.len() == 0
            &&& utxos.len() == notes_before(before, list, list.len())
            &&& utxos == mint_channels(before, list, epoch, ids).1
            &&& after.channels == mint_channels(before, list, epoch, ids).0.channels
            &&& after.frozen_notes == mint_channels(before, list, epoch, ids).0.frozen_notes
            &&& forall|id: ChannelId| #[trigger]
                before.channels.contains_key(id) ==> {
                    let was = before.channels[id];
                    let now = after.channels[id];
                    let n = was.sequencers_zk_pks.len();
                    &&& after.channels.contains_key(id)
                    &&& same_but_for_funds(was, now)
                    &&& list.contains(id) && n > 0 ==> now.floating_balance
                        == was.floating_balance as int % n as int
                    &&& !list.contains(id) || n == 0 ==> now.floating_balance
                        == was.floating_balance && now.frozen_note_map == was.frozen_note_map
                }
        }),
{
    let list = before.mint_eligible_channels;
    minting_leaves_remainders(before, list, epoch, ids);
    let done = mint_channels(before, list, epoch, ids).0;
    assert forall|id: ChannelId| #[trigger] before.channels.contains_key(id) implies {
        let was = before.channels[id];
        let now = after.channels[id];
        let n = was.sequencers_zk_pks.len();
        &&& after.channels.contains_key(id)
        &&& same_but_for_funds(was, now)
        &&& list.contains(id) && n > 0 ==> now.floating_balance == was.floating_balance as int
            % n as int
        &&& !list.contains(id) || n == 0 ==> now.floating_balance == was.floating_balance
            && now.frozen_note_map == was.frozen_note_map
    } by {
        assert(done.channels.contains_key(id));
    }
}

/// What stands for the operation in minted notes is the hash of the text
/// `CHANNEL_BRIDGE_NOTES`, the channel and the epoch in four bytes.
pub proof fn minted_notes_name_channel_and_epoch(channel_id: ChannelId, epoch: u32)
    ensures
        bridge_op_id(channel_id, epoch) == blake2b_256(
            bridge_label() + channel_id@ + le_bytes(epoch as nat, 4),
        ),
        bridge_label().map_values(|b: u8| b as char) == "CHANNEL_BRIDGE_NOTES"@,
{
    reveal_strlit("CHANNEL_BRIDGE_NOTES");
    assert(bridge_label().map_values(|b: u8| b as char) =~= "CHANNEL_BRIDGE_NOTES"@);
}

} // verus!
