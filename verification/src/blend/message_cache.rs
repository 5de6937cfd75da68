//! Which messages a node has processed, and which it has had from which peer.

use vstd::prelude::*;

use crate::blend::message::MessageIdentifier;
use crate::crypto::holds_bytes;

verus! {

/// Identifier of a peer: the bytes of its multihash.
#[derive(Debug, PartialEq, Eq, Hash)]
pub struct PeerId(pub Vec<u8>);

impl View for PeerId {
    type V = Seq<u8>;

    open spec fn view(&self) -> Seq<u8> {
        self.0@
    }
}

/// The messages that one peer has sent.
#[derive(Debug)]
struct PeerRecord {
    peer_id: PeerId,
    messages: Vec<MessageIdentifier>,
}

/// Which messages a node has processed, and which it has had from which peer.
#[derive(Debug)]
pub struct MessageCache {
    processed_messages: Vec<MessageIdentifier>,
    received_messages: Vec<PeerRecord>,
}

/// What a [`MessageCache`] says.
#[verifier::ext_equal]
pub struct CacheView {
    pub processed: Set<MessageIdentifier>,
    pub received: Map<Seq<u8>, Set<MessageIdentifier>>,
}

/// The index of the peer's record, if there is one.
spec fn record_of(records: Seq<PeerRecord>, peer: Seq<u8>, i: int) -> bool {
    0 <= i < records.len() && records[i].peer_id@ == peer
}

/// No two records are of the same peer.
spec fn distinct_peers(records: Seq<PeerRecord>) -> bool {
    forall|i: int, j: int|
        0 <= i < j < records.len() ==> (#[trigger] records[i]).peer_id@ != (
        #[trigger] records[j]).peer_id@
}

/// The messages of each peer.
spec fn received_from(records: Seq<PeerRecord>) -> Map<Seq<u8>, Set<MessageIdentifier>> {
    Map::new(
        |peer: Seq<u8>| exists|i: int| #[trigger] record_of(records, peer, i),
        |peer: Seq<u8>|
            records[choose|i: int| #[trigger] record_of(records, peer, i)].messages@.to_set(),
    )
}

impl View for MessageCache {
    type V = CacheView;

    closed spec fn view(&self) -> CacheView {
        CacheView {
            processed: self.processed_messages@.to_set(),
            received: received_from(self.received_messages@),
        }
    }
}

/// Whether a peer has sent a message.
pub open spec fn seen(cache: CacheView, peer: Seq<u8>, message: MessageIdentifier) -> bool {
    cache.received.contains_key(peer) && cache.received[peer].contains(message)
}

/// The messages that a peer has sent.
pub open spec fn sent_by(cache: CacheView, peer: Seq<u8>) -> Set<MessageIdentifier> {
    if cache.received.contains_key(peer) {
        cache.received[peer]
    } else {
        Set::empty()
    }
}

fn same_peer(a: &PeerId, b: &PeerId) -> (r: bool)
    ensures
        r == (a@ == b@),
{
    if a.0.len() != b.0.len() {
        return false;
    }
    let mut i: usize = 0;
    while i < a.0.len()
        invariant
            i <= a.0@.len() == b.0@.len(),
            forall|j: int| 0 <= j < i ==> a.0@[j] == b.0@[j],
        decreases a.0@.len() - i,
    {
        if a.0[i] != b.0[i] {
            return false;
        }
        i = i + 1;
    }
    assert(a@ =~= b@);
    true
}

proof fn lemma_record(records: Seq<PeerRecord>, i: int)
    requires
        distinct_peers(records),
        0 <= i < records.len(),
    ensures
        received_from(records).contains_key(records[i].peer_id@),
        received_from(records)[records[i].peer_id@] == records[i].messages@.to_set(),
{
    let peer = records[i].peer_id@;
    assert(record_of(records, peer, i));
    let found = choose|j: int| #[trigger] record_of(records, peer, j);
    assert(record_of(records, peer, found));
    if found != i {
        assert(records[found].peer_id@ == records[i].peer_id@);
    }
}

proof fn lemma_no_record(records: Seq<PeerRecord>, peer: Seq<u8>)
    requires
        forall|i: int| 0 <= i < records.len() ==> (#[trigger] records[i]).peer_id@ != peer,
    ensures
        !received_from(records).contains_key(peer),
{
}

proof fn lemma_push_to_set(list: Seq<MessageIdentifier>, item: MessageIdentifier)
    ensures
        list.push(item).to_set() == list.to_set().insert(item),
{
    let longer = list.push(item);
    assert forall|x: MessageIdentifier| #[trigger]
        longer.to_set().contains(x) == list.to_set().insert(item).contains(x) by {
        if list.contains(x) {
            let i = choose|i: int| 0 <= i < list.len() && list[i] == x;
            assert(longer[i] == x);
        }
        assert(longer[list.len() as int] == item);
    }
    assert(longer.to_set() =~= list.to_set().insert(item));
}

impl Default for MessageCache {
    fn default() -> (r: Self)
        ensures
            r@ == (CacheView { processed: Set::empty(), received: Map::empty() }),
    {
        Self::new_with_peer_capacity(0)
    }
}

impl MessageCache {
    #[verifier::type_invariant]
    spec fn records_differ(&self) -> bool {
        distinct_peers(self.received_messages@)
    }

    /// An empty cache, with room for the records of some peers.
    #[must_use]
    pub fn new_with_peer_capacity(capacity: usize) -> (r: Self)
        ensures
            r@ == (CacheView { processed: Set::empty(), received: Map::empty() }),
    {
        let processed_messages: Vec<MessageIdentifier> = Vec::new();
        let received_messages: Vec<PeerRecord> = Vec::with_capacity(capacity);
        assert(processed_messages@.to_set() =~= Set::empty());
        assert(received_from(received_messages@) =~= Map::empty());
        Self { processed_messages, received_messages }
    }

    /// Marks a message as processed, and says whether it was not marked before.
    ///
    /// Whether a peer has sent the message plays no part in this.
    pub fn mark_message_as_processed(&mut self, message_id: MessageIdentifier) -> (r: bool)
        ensures
            r == !old(self)@.processed.contains(message_id),
            final(self)@ == (CacheView {
                processed: old(self)@.processed.insert(message_id),
                ..old(self)@
            }),
    {
        proof {
            use_type_invariant(&*self);
        }
        let ghost before = self.processed_messages@;
        if holds_bytes(self.processed_messages.as_slice(), &message_id) {
            assert(before.to_set().insert(message_id) =~= before.to_set());
            return false;
        }
        let mut processed: Vec<MessageIdentifier> = Vec::new();
        core::mem::swap(&mut processed, &mut self.processed_messages);
        processed.push(message_id);
        proof {
            lemma_push_to_set(before, message_id);
        }
        self.processed_messages = processed;
        true
    }

    /// Whether a message is marked as processed.
    #[must_use]
    pub fn is_message_processed(&self, message_id: &MessageIdentifier) -> (r: bool)
        ensures
            r == self@.processed.contains(*message_id),
    {
        holds_bytes(self.processed_messages.as_slice(), message_id)
    }

    fn find_peer(&self, peer_id: &PeerId) -> (r: Option<usize>)
        ensures
            match r {
                Some(i) => i < self.received_messages@.len()
                    && self.received_messages@[i as int].peer_id@ == peer_id@,
                None => forall|i: int|
                    0 <= i < self.received_messages@.len() ==> (
                    #[trigger] self.received_messages@[i]).peer_id@ != peer_id@,
            },
    {
        let mut i: usize = 0;
        while i < self.received_messages.len()
            invariant
                i <= self.received_messages@.len(),
                forall|j: int|
                    0 <= j < i ==> (#[trigger] self.received_messages@[j]).peer_id@ != peer_id@,
            decreases self.received_messages@.len() - i,
        {
            if same_peer(&self.received_messages[i].peer_id, peer_id) {
                return Some(i);
            }
            i = i + 1;
        }
        None
    }

    /// Marks a message as sent by a peer, and says whether it was not marked
    /// before.
    pub fn mark_message_as_seen_from_peer(
        &mut self,
        message_id: MessageIdentifier,
        peer_id: PeerId,
    ) -> (r: bool)
        ensures
            r == !seen(old(self)@, peer_id@, message_id),
            final(self)@ == (CacheView {
                received: old(self)@.received.insert(
                    peer_id@,
                    sent_by(old(self)@, peer_id@).insert(message_id),
                ),
                ..old(self)@
            }),
    {
        proof {
            use_type_invariant(&*self);
        }
        let ghost before = self.received_messages@;
        let found = self.find_peer(&peer_id);
        let mut records: Vec<PeerRecord> = Vec::new();
        match found {
            Some(i) => {
                proof {
                    lemma_record(before, i as int);
                }
                if holds_bytes(self.received_messages[i].messages.as_slice(), &message_id) {
                    proof {
                        let messages = before[i as int].messages@.to_set();
                        assert(messages.insert(message_id) =~= messages);
                        assert(self@.received.insert(peer_id@, messages) =~= self@.received);
                    }
                    return false;
                }
                core::mem::swap(&mut records, &mut self.received_messages);
                let mut record = records.remove(i);
                let ghost old_messages = record.messages@;
                record.messages.push(message_id);
                records.insert(i, record);
                proof {
                    lemma_push_to_set(old_messages, message_id);
                    assert(records@ =~= before.update(i as int, record));
                    lemma_updated(before, records@, i as int);
                }
                self.received_messages = records;
                true
            },
            None => {
                let mut messages: Vec<MessageIdentifier> = Vec::new();
                messages.push(message_id);
                core::mem::swap(&mut records, &mut self.received_messages);
                proof {
                    lemma_no_record(before, peer_id@);
                    lemma_push_to_set(Seq::empty(), message_id);
                    assert(messages@ =~= Seq::<MessageIdentifier>::empty().push(message_id));
                    assert(Seq::<MessageIdentifier>::empty().to_set() =~= Set::empty());
                }
                records.push(PeerRecord { peer_id, messages });
                proof {
                    assert(records@.drop_last() =~= before);
                    lemma_added(before, records@);
                }
                self.received_messages = records;
                true
            },
        }
    }

    /// Whether a message is marked as sent by a peer.
    #[must_use]
    pub fn is_message_seen_from_peer(
        &self,
        message_id: &MessageIdentifier,
        peer_id: &PeerId,
    ) -> (r: bool)
        ensures
            r == seen(self@, peer_id@, *message_id),
    {
        proof {
            use_type_invariant(self);
        }
        match self.find_peer(peer_id) {
            Some(i) => {
                proof {
                    lemma_record(self.received_messages@, i as int);
                }
                holds_bytes(self.received_messages[i].messages.as_slice(), message_id)
            },
            None => {
                proof {
                    lemma_no_record(self.received_messages@, peer_id@);
                }
                false
            },
        }
    }

    /// Forgets what a peer has sent.
    pub fn remove_peer_info(&mut self, peer_id: &PeerId)
        ensures
            final(self)@ == (CacheView {
                received: old(self)@.received.remove(peer_id@),
                ..old(self)@
            }),
    {
        proof {
            use_type_invariant(&*self);
        }
        let ghost before = self.received_messages@;
        match self.find_peer(peer_id) {
            Some(i) => {
                let mut records: Vec<PeerRecord> = Vec::new();
                core::mem::swap(&mut records, &mut self.received_messages);
                let _removed = records.remove(i);
                proof {
                    lemma_removed(before, records@, i as int);
                }
                self.received_messages = records;
            },
            None => {
                proof {
                    lemma_no_record(before, peer_id@);
                    assert(self@.received.remove(peer_id@) =~= self@.received);
                }
            },
        }
    }
}

proof fn lemma_same_entries(
    records: Seq<PeerRecord>,
    map: Map<Seq<u8>, Set<MessageIdentifier>>,
)
    requires
        distinct_peers(records),
        forall|i: int|
            0 <= i < records.len() ==> map.contains_key((#[trigger] records[i]).peer_id@)
                && map[records[i].peer_id@] == records[i].messages@.to_set(),
        forall|peer: Seq<u8>| #[trigger]
            map.contains_key(peer) ==> exists|i: int| #[trigger] record_of(records, peer, i),
    ensures
        received_from(records) == map,
{
    let found = received_from(records);
    assert forall|peer: Seq<u8>| #[trigger] found.contains_key(peer) == map.contains_key(peer) by {
        if found.contains_key(peer) {
            let i = choose|i: int| #[trigger] record_of(records, peer, i);
            assert(map.contains_key(records[i].peer_id@));
        }
    }
    assert forall|peer: Seq<u8>| #[trigger] found.contains_key(peer) implies found[peer]
        == map[peer] by {
        let i = choose|i: int| #[trigger] record_of(records, peer, i);
        lemma_record(records, i);
    }
    assert(found =~= map);
}

proof fn lemma_updated(before: Seq<PeerRecord>, after: Seq<PeerRecord>, i: int)
    requires
        distinct_peers(before),
        0 <= i < before.len(),
        after == before.update(i, after[i]),
        after[i].peer_id@ == before[i].peer_id@,
    ensures
        distinct_peers(after),
        received_from(after) == received_from(before).insert(
            after[i].peer_id@,
            after[i].messages@.to_set(),
        ),
{
    let map = received_from(before).insert(after[i].peer_id@, after[i].messages@.to_set());
    assert forall|a: int, b: int| 0 <= a < b < after.len() implies (#[trigger] after[a]).peer_id@
        != (#[trigger] after[b]).peer_id@ by {
        assert(before[a].peer_id@ != before[b].peer_id@);
    }
    assert forall|j: int| 0 <= j < after.len() implies map.contains_key(
        (#[trigger] after[j]).peer_id@,
    ) && map[after[j].peer_id@] == after[j].messages@.to_set() by {
        lemma_record(before, j);
        if j < i {
            assert(before[j].peer_id@ != before[i].peer_id@);
        }
        if j > i {
            assert(before[i].peer_id@ != before[j].peer_id@);
        }
    }
    assert forall|peer: Seq<u8>| #[trigger] map.contains_key(peer) implies exists|j: int| #[trigger]
        record_of(after, peer, j) by {
        if peer == after[i].peer_id@ {
            assert(record_of(after, peer, i));
        } else {
            let j = choose|j: int| #[trigger] record_of(before, peer, j);
            assert(record_of(after, peer, j));
        }
    }
    lemma_same_entries(after, map);
}

proof fn lemma_added(before: Seq<PeerRecord>, after: Seq<PeerRecord>)
    requires
        distinct_peers(before),
        after.len() == before.len() + 1,
        after.drop_last() == before,
        forall|i: int|
            0 <= i < before.len() ==> (#[trigger] before[i]).peer_id@ != after.last().peer_id@,
    ensures
        distinct_peers(after),
        received_from(after) == received_from(before).insert(
            after.last().peer_id@,
            after.last().messages@.to_set(),
        ),
{
    let last = after.last();
    let map = received_from(before).insert(last.peer_id@, last.messages@.to_set());
    assert(forall|j: int| 0 <= j < before.len() ==> #[trigger] after[j] == before[j]);
    assert(after[before.len() as int] == last);
    assert forall|j: int| 0 <= j < after.len() implies map.contains_key(
        (#[trigger] after[j]).peer_id@,
    ) && map[after[j].peer_id@] == after[j].messages@.to_set() by {
        if j < before.len() {
            lemma_record(before, j);
            assert(before[j].peer_id@ != last.peer_id@);
        }
    }
    assert forall|peer: Seq<u8>| #[trigger] map.contains_key(peer) implies exists|j: int| #[trigger]
        record_of(after, peer, j) by {
        if peer == last.peer_id@ {
            assert(record_of(after, peer, before.len() as int));
        } else {
            let j = choose|j: int| #[trigger] record_of(before, peer, j);
            assert(record_of(after, peer, j));
        }
    }
    lemma_same_entries(after, map);
}

proof fn lemma_removed(before: Seq<PeerRecord>, after: Seq<PeerRecord>, i: int)
    requires
        distinct_peers(before),
        0 <= i < before.len(),
        after == before.remove(i),
    ensures
        distinct_peers(after),
        received_from(after) == received_from(before).remove(before[i].peer_id@),
{
    let map = received_from(before).remove(before[i].peer_id@);
    assert forall|a: int, b: int| 0 <= a < b < after.len() implies (#[trigger] after[a]).peer_id@
        != (#[trigger] after[b]).peer_id@ by {
        let x = if a < i { a } else { a + 1 };
        let y = if b < i { b } else { b + 1 };
        assert(before[x].peer_id@ != before[y].peer_id@);
    }
    assert forall|j: int| 0 <= j < after.len() implies map.contains_key(
        (#[trigger] after[j]).peer_id@,
    ) && map[after[j].peer_id@] == after[j].messages@.to_set() by {
        let x = if j < i { j } else { j + 1 };
        assert(after[j] == before[x]);
        lemma_record(before, x);
        if x < i {
            assert(before[x].peer_id@ != before[i].peer_id@);
        } else {
            assert(before[i].peer_id@ != before[x].peer_id@);
        }
    }
    assert forall|peer: Seq<u8>| #[trigger] map.contains_key(peer) implies exists|j: int| #[trigger]
        record_of(after, peer, j) by {
        let j = choose|j: int| #[trigger] record_of(before, peer, j);
        assert(j != i);
        if j < i {
            assert(record_of(after, peer, j));
        } else {
            assert(after[j - 1] == before[j]);
            assert(record_of(after, peer, j - 1));
        }
    }
    lemma_same_entries(after, map);
}

/// Once a message is marked as sent by a peer it stays so until the peer is
/// forgotten, and what other peers have sent plays no part in it.
pub proof fn seen_until_forgotten(
    cache: CacheView,
    peer: Seq<u8>,
    other: Seq<u8>,
    message: MessageIdentifier,
    other_message: MessageIdentifier,
)
    requires
        peer != other,
    ensures
        ({
            let marked = CacheView {
                received: cache.received.insert(other, sent_by(cache, other).insert(other_message)),
                ..cache
            };
            let forgotten = CacheView { received: cache.received.remove(other), ..cache };
            let gone = CacheView { received: cache.received.remove(peer), ..cache };
            &&& seen(marked, other, other_message)
            &&& seen(marked, peer, message) == seen(cache, peer, message)
            &&& seen(forgotten, peer, message) == seen(cache, peer, message)
            &&& !seen(gone, peer, message)
        }),
{
}

} // verus!
