//! Minting the floating balance of channels into frozen notes.

use vstd::prelude::*;

use crate::crypto::{blake2b, blake2b_256};
use crate::mantle::channel::{ChannelView, Channels, ChannelsView, Error};
use crate::mantle::codec::{le_bytes, push_bytes, push_le};
use crate::mantle::ledger::created_utxos;
use crate::mantle::primitives::{
    ids_given, ChannelId, Epoch, Note, NoteId, OperationId, Utxo, Value, ZkPublicKey,
};

verus! {

/// The bytes of `CHANNEL_BRIDGE_NOTES`, which set the hash of a minting apart.
pub open spec fn bridge_label() -> Seq<u8> {
    seq![67u8, 72, 65, 78, 78, 69, 76, 95, 66, 82, 73, 68, 71, 69, 95, 78, 79, 84, 69, 83]
}

/// What stands for the identifier of an operation in a minted note: the hash of
/// the label, the channel and the epoch.
pub open spec fn bridge_op_id(channel_id: ChannelId, epoch: u32) -> OperationId {
    blake2b_256(bridge_label() + channel_id@ + le_bytes(epoch as nat, 4))
}

/// What each sequencer's note is worth: an equal share of the floating balance,
/// rounded down.
pub open spec fn note_share(channel: ChannelView) -> int {
    if channel.sequencers_zk_pks.len() == 0 {
        0
    } else {
        channel.floating_balance as int / channel.sequencers_zk_pks.len() as int
    }
}

/// What is minted for a channel: a note for each sequencer, or nothing if there
/// is no share to hand out.
pub open spec fn minted(channel_id: ChannelId, channel: ChannelView, epoch: u32) -> Seq<Utxo> {
    if note_share(channel) == 0 {
        Seq::empty()
    } else {
        created_utxos(
            bridge_op_id(channel_id, epoch),
            channel.sequencers_zk_pks.map_values(
                |pk: ZkPublicKey| Note { value: note_share(channel) as Value, pk },
            ),
        )
    }
}

/// A channel's notes together with further ones, under their epoch and owner.
pub open spec fn with_registered(
    map: Map<(u32, ZkPublicKey), NoteId>,
    epoch: u32,
    utxos: Seq<Utxo>,
    ids: Seq<NoteId>,
) -> Map<(u32, ZkPublicKey), NoteId>
    decreases utxos.len(),
{
    if utxos.len() == 0 {
        map
    } else {
        with_registered(map, epoch, utxos.drop_last(), ids.drop_last()).insert(
            (epoch, utxos.last().note.pk),
            ids.last(),
        )
    }
}

/// The frozen notes together with further ones.
pub open spec fn with_frozen(
    notes: Map<NoteId, Note>,
    utxos: Seq<Utxo>,
    ids: Seq<NoteId>,
) -> Map<NoteId, Note>
    decreases utxos.len(),
{
    if utxos.len() == 0 {
        notes
    } else {
        with_frozen(notes, utxos.drop_last(), ids.drop_last()).insert(
            ids.last(),
            utxos.last().note,
        )
    }
}

/// The channels after one of them has minted notes with these identifiers.
pub open spec fn mint_channel(
    all: ChannelsView,
    channel_id: ChannelId,
    epoch: u32,
    ids: Seq<NoteId>,
) -> ChannelsView {
    let channel = all.channels[channel_id];
    let utxos = minted(channel_id, channel, epoch);
    if all.channels.contains_key(channel_id) && utxos.len() > 0 {
        ChannelsView {
            channels: all.channels.insert(
                channel_id,
                ChannelView {
                    floating_balance: (channel.floating_balance - utxos.len() * note_share(
                        channel,
                    )) as Value,
                    frozen_note_map: with_registered(channel.frozen_note_map, epoch, utxos, ids),
                    ..channel
                },
            ),
            frozen_notes: with_frozen(all.frozen_notes, utxos, ids),
            ..all
        }
    } else {
        all
    }
}

/// What one channel mints: nothing, if there is no such channel.
pub open spec fn minted_for(all: ChannelsView, channel_id: ChannelId, epoch: u32) -> Seq<Utxo> {
    if all.channels.contains_key(channel_id) {
        minted(channel_id, all.channels[channel_id], epoch)
    } else {
        Seq::empty()
    }
}

/// The channels after those listed have minted, one after the other, and what
/// they minted. `ids` are the identifiers of all minted notes, in order.
pub open spec fn mint_channels(
    all: ChannelsView,
    list: Seq<ChannelId>,
    epoch: u32,
    ids: Seq<NoteId>,
) -> (ChannelsView, Seq<Utxo>)
    decreases list.len(),
{
    if list.len() == 0 {
        (all, Seq::empty())
    } else {
        let (before, utxos) = mint_channels(all, list.drop_last(), epoch, ids);
        let more = minted_for(before, list.last(), epoch);
        (
            mint_channel(
                before,
                list.last(),
                epoch,
                ids.subrange(utxos.len() as int, (utxos.len() + more.len()) as int),
            ),
            utxos + more,
        )
    }
}

/// `after` are the channels, and `utxos` the minted notes, once all marked
/// channels have minted notes with these identifiers and lost their marks.
pub open spec fn mints(
    before: ChannelsView,
    epoch: u32,
    ids: Seq<NoteId>,
    after: ChannelsView,
    utxos: Seq<Utxo>,
) -> bool {
    let (done, minted) = mint_channels(before, before.mint_eligible_channels, epoch, ids);
    &&& utxos == minted
    &&& after == ChannelsView { mint_eligible_channels: Seq::empty(), ..done }
}

/// The hash that stands for the identifier of an operation in minted notes.
fn mint_op_id(channel_id: &ChannelId, epoch: Epoch) -> (r: OperationId)
    ensures
        r == bridge_op_id(*channel_id, epoch.0),
{
    let label: [u8; 20] = [67u8, 72, 65, 78, 78, 69, 76, 95, 66, 82, 73, 68, 71, 69, 95, 78, 79, 84, 69, 83];
    let mut bytes: Vec<u8> = Vec::new();
    push_bytes(&mut bytes, label.as_slice());
    push_bytes(&mut bytes, channel_id.as_slice());
    push_le(&mut bytes, epoch.0 as u64, 4);
    assert(label@ =~= bridge_label());
    assert(bytes@ =~= bridge_label() + channel_id@ + le_bytes(epoch.0 as nat, 4));
    blake2b(bytes.as_slice())
}

proof fn lemma_earlier_ids_alone(
    all: ChannelsView,
    list: Seq<ChannelId>,
    epoch: u32,
    ids: Seq<NoteId>,
    more: Seq<NoteId>,
)
    requires
        mint_channels(all, list, epoch, ids).1.len() <= ids.len(),
    ensures
        mint_channels(all, list, epoch, ids + more) == mint_channels(all, list, epoch, ids),
    decreases list.len(),
{
    if list.len() > 0 {
        lemma_earlier_ids_alone(all, list.drop_last(), epoch, ids, more);
        let (before, utxos) = mint_channels(all, list.drop_last(), epoch, ids);
        let end = utxos.len() + minted_for(before, list.last(), epoch).len();
        assert((ids + more).subrange(utxos.len() as int, end as int) =~= ids.subrange(
            utxos.len() as int,
            end as int,
        ));
    }
}

impl Channels {
    /// Mints the floating balance of the channels that are marked for it into
    /// frozen notes, one for each sequencer, and takes the marks away. Hands
    /// back the minted notes, which `note_id` gives identifiers. This never
    /// fails.
    ///
    /// What cannot be split evenly among the sequencers stays floating.
    pub fn mint_frozen_notes<F: Fn(&Utxo) -> NoteId>(&self, epoch: Epoch, note_id: F) -> (r: Result<
        (Self, Vec<Utxo>),
        Error,
    >)
        requires
            forall|utxo: &Utxo| #[trigger] call_requires(note_id, (utxo,)),
        ensures
            match r {
                Ok((channels, utxos)) => exists|ids: Seq<NoteId>| #[trigger]
                    ids_given(note_id, utxos@, ids) && mints(
                        self@,
                        epoch.0,
                        ids,
                        channels@,
                        utxos@,
                    ),
                Err(_) => false,
            },
    {
        let mut channels = self.clone();
        let mut minted_utxos: Vec<Utxo> = Vec::new();
        let ghost mut ids: Seq<NoteId> = Seq::empty();
        let list = self.mint_eligible_channels.as_slice();
        let mut i: usize = 0;
        while i < list.len()
            invariant
                i <= list@.len(),
                list@ == self@.mint_eligible_channels,
                forall|utxo: &Utxo| #[trigger] call_requires(note_id, (utxo,)),
                ids_given(note_id, minted_utxos@, ids),
                mint_channels(self@, list@.take(i as int), epoch.0, ids) == (
                    channels@,
                    minted_utxos@,
                ),
            decreases list@.len() - i,
        {
            let ghost before = channels@;
            let ghost utxos_before = minted_utxos@;
            let ghost ids_before = ids;
            let more = channels.mint_one(&list[i], epoch, &note_id, &mut minted_utxos);
            proof {
                let new_ids = more@;
                let utxos = minted_for(before, list@[i as int], epoch.0);
                ids = ids_before + new_ids;
                lemma_earlier_ids_alone(
                    self@,
                    list@.take(i as int),
                    epoch.0,
                    ids_before,
                    new_ids,
                );
                assert(list@.take(i + 1).drop_last() =~= list@.take(i as int));
                assert(ids.subrange(
                    utxos_before.len() as int,
                    (utxos_before.len() + utxos.len()) as int,
                ) =~= new_ids);
                assert forall|j: int| 0 <= j < minted_utxos@.len() implies call_ensures(
                    note_id,
                    (&#[trigger] minted_utxos@[j],),
                    ids[j],
                ) by {
                    if j < utxos_before.len() {
                        assert(minted_utxos@[j] == utxos_before[j]);
                    } else {
                        assert(minted_utxos@[j] == utxos[j - utxos_before.len()]);
                    }
                }
            }
            i = i + 1;
        }
        assert(list@.take(i as int) =~= list@);
        let ghost done = channels@;
        channels.mint_eligible_channels = Vec::new();
        proof {
            assert(channels@ == (ChannelsView { mint_eligible_channels: Seq::empty(), ..done }));
            assert(mints(self@, epoch.0, ids, channels@, minted_utxos@));
        }
        let result: Result<(Self, Vec<Utxo>), Error> = Ok((channels, minted_utxos));
        assert(ids_given(note_id, result->Ok_0.1@, ids));
        result
    }

    /// Mints for one channel. The identifiers of the minted notes come back for
    /// the proof's sake.
    fn mint_one<F: Fn(&Utxo) -> NoteId>(
        &mut self,
        channel_id: &ChannelId,
        epoch: Epoch,
        note_id: &F,
        minted_utxos: &mut Vec<Utxo>,
    ) -> (ids: Ghost<Seq<NoteId>>)
        requires
            forall|utxo: &Utxo| #[trigger] call_requires(*note_id, (utxo,)),
        ensures
            ids_given(*note_id, minted_for(old(self)@, *channel_id, epoch.0), ids@),
            final(self)@ == mint_channel(old(self)@, *channel_id, epoch.0, ids@),
            final(minted_utxos)@ == old(minted_utxos)@ + minted_for(
                old(self)@,
                *channel_id,
                epoch.0,
            ),
    {
        let ghost start = self@;
        let ghost utxos_before = minted_utxos@;
        let ghost mut ids: Seq<NoteId> = Seq::empty();
        let mut channel = match self.channels.get(channel_id) {
            Some(channel) => channel.clone(),
            None => {
                assert(utxos_before + Seq::<Utxo>::empty() =~= utxos_before);
                return Ghost(ids);
            },
        };
        let ghost view = channel@;
        let num_sequencers: usize = channel.sequencers_zk_pks.len();
        let note_value: Value = if num_sequencers > 0 {
            channel.floating_balance / num_sequencers as Value
        } else {
            0
        };
        if note_value == 0 {
            assert(utxos_before + Seq::<Utxo>::empty() =~= utxos_before);
            return Ghost(ids);
        }
        let ghost utxos = minted(*channel_id, view, epoch.0);
        proof {
            lemma_share(view.floating_balance as int, num_sequencers as int);
        }
        channel.floating_balance =
        channel.floating_balance - note_value * num_sequencers as Value;
        let op_id: OperationId = mint_op_id(channel_id, epoch);
        let mut idx: usize = 0;
        let ghost channels_before = self.channels@;
        let ghost eligible = self.mint_eligible_channels@;
        while idx < num_sequencers
            invariant
                idx <= num_sequencers == view.sequencers_zk_pks.len(),
                num_sequencers == utxos.len(),
                note_value == note_share(view),
                note_value != 0,
                op_id == bridge_op_id(*channel_id, epoch.0),
                utxos == minted(*channel_id, view, epoch.0),
                forall|utxo: &Utxo| #[trigger] call_requires(*note_id, (utxo,)),
                channel@ == (ChannelView {
                    floating_balance: (view.floating_balance - num_sequencers * note_share(
                        view,
                    )) as Value,
                    frozen_note_map: with_registered(
                        view.frozen_note_map,
                        epoch.0,
                        utxos.take(idx as int),
                        ids,
                    ),
                    ..view
                }),
                self.channels@ == channels_before,
                self.mint_eligible_channels@ == eligible,
                self.frozen_notes@ == with_frozen(start.frozen_notes, utxos.take(idx as int), ids),
                ids_given(*note_id, utxos.take(idx as int), ids),
                minted_utxos@ == utxos_before + utxos.take(idx as int),
            decreases num_sequencers - idx,
        {
            let pk: ZkPublicKey = channel.sequencers_zk_pks.as_slice()[idx];
            let note = Note::new(note_value, pk);
            let utxo = Utxo::new(op_id, idx, note);
            let id: NoteId = note_id(&utxo);
            match self.frozen_notes.clone().freeze(note, &id) {
                Ok(frozen_notes) => self.frozen_notes = frozen_notes,
                Err(_) => {},
            }
            channel.frozen_note_map = channel.frozen_note_map.insert((epoch.0, pk), id);
            minted_utxos.push(utxo);
            proof {
                let ids_before = ids;
                ids = ids.push(id);
                assert(utxos[idx as int] == utxo);
                assert(utxos.take(idx + 1).drop_last() =~= utxos.take(idx as int));
                assert(utxos.take(idx + 1).last() == utxo);
                assert(ids.drop_last() =~= ids_before);
                assert(utxos.take(idx + 1) =~= utxos.take(idx as int).push(utxo));
                assert forall|j: int| 0 <= j < idx + 1 implies call_ensures(
                    *note_id,
                    (&#[trigger] utxos.take(idx + 1)[j],),
                    ids[j],
                ) by {
                    if j < idx {
                        assert(utxos.take(idx + 1)[j] == utxos.take(idx as int)[j]);
                    }
                }
            }
            idx = idx + 1;
        }
        assert(utxos.take(idx as int) =~= utxos);
        self.channels = self.channels.insert(*channel_id, channel);
        Ghost(ids)
    }
}

/// A balance divided into equal shares: they fit in it, and less than one of each
/// is left.
pub proof fn lemma_share(balance: int, n: int)
    requires
        0 <= balance,
        0 < n,
    ensures
        0 <= balance / n <= balance,
        balance / n == 0 <==> balance < n,
        0 <= n * (balance / n) <= balance,
        (balance / n) * n == n * (balance / n),
        balance - n * (balance / n) < n,
{
    assert(0 <= balance / n <= balance && (balance / n == 0 <==> balance < n) && 0 <= n * (balance
        / n) <= balance && (balance / n) * n == n * (balance / n) && balance - n * (balance / n)
        < n) by (nonlinear_arith)
        requires
            0 <= balance,
            0 < n,
    ;
}

} // verus!
