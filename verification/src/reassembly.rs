//! Reassembly: the receiver collects the chunks of each bulk message by
//! sequence number, in whatever order they arrive, and hands the payload
//! out once every chunk is there.

use std::collections::HashMap;
use vstd::prelude::*;
use vstd::set_lib::{lemma_int_range, lemma_subset_equality, set_int_range};
use crate::bytes::append;
use crate::packets::{Response, ResponseView};

verus! {

/// The chunks received so far of one bulk message, as plain values.
pub struct ChunkSetView {
    /// How many chunks the message has.
    pub expected_count: int,
    /// The payloads received, by sequence number.
    pub received: Map<int, Seq<u8>>,
}

/// The payloads at sequence numbers `0..n`, joined in ascending order.
pub open spec fn assembled(received: Map<int, Seq<u8>>, n: int) -> Seq<u8>
    decreases n,
{
    if n <= 0 {
        Seq::empty()
    } else {
        assembled(received, n - 1) + received[n - 1]
    }
}

/// Whether every sequence number `0..n` has been received.
pub open spec fn complete(received: Map<int, Seq<u8>>, n: int) -> bool {
    forall|i: int| 0 <= i < n ==> received.contains_key(i)
}

impl ChunkSetView {
    /// A pending set: at least two chunks are expected, what has been
    /// received lies in range, and something is still missing.
    pub open spec fn valid(self) -> bool {
        &&& 2 <= self.expected_count <= u16::MAX
        &&& forall|i: int| self.received.contains_key(i) ==> 0 <= i < self.expected_count
        &&& !complete(self.received, self.expected_count)
    }
}

/// Whether every pending set of `table` is valid.
pub open spec fn valid_table(table: Map<u64, ChunkSetView>) -> bool {
    forall|id: u64| table.contains_key(id) ==> (#[trigger] table[id]).valid()
}

/// Whether `chunk` is taken in: its sequence number lies below its count,
/// and, where a set is pending under its bulk id, the counts agree and the
/// sequence number has not been received yet.
pub open spec fn accepts(table: Map<u64, ChunkSetView>, chunk: ResponseView) -> bool {
    &&& chunk.packet_number < chunk.out_of
    &&& chunk.out_of > 1 && table.contains_key(chunk.packet_id) ==> {
        &&& table[chunk.packet_id].expected_count == chunk.out_of
        &&& !table[chunk.packet_id].received.contains_key(chunk.packet_number as int)
    }
}

/// What has been received of the chunk's bulk message once `chunk` is in.
pub open spec fn received_with(table: Map<u64, ChunkSetView>, chunk: ResponseView) -> Map<
    int,
    Seq<u8>,
> {
    if table.contains_key(chunk.packet_id) {
        table[chunk.packet_id].received.insert(chunk.packet_number as int, chunk.data)
    } else {
        Map::empty().insert(chunk.packet_number as int, chunk.data)
    }
}

/// The table after `chunk` has arrived. A chunk that is not accepted, and a
/// message of one packet, leave it as it was. An accepted chunk joins its
/// set, which leaves the table when it is complete.
pub open spec fn table_after(table: Map<u64, ChunkSetView>, chunk: ResponseView) -> Map<
    u64,
    ChunkSetView,
> {
    if !accepts(table, chunk) || chunk.out_of == 1 {
        table
    } else if complete(received_with(table, chunk), chunk.out_of as int) {
        table.remove(chunk.packet_id)
    } else {
        table.insert(
            chunk.packet_id,
            ChunkSetView {
                expected_count: chunk.out_of as int,
                received: received_with(table, chunk),
            },
        )
    }
}

/// The payload that the arrival of `chunk` completes, if it completes one:
/// a message of one packet at once, a bulk message when its last missing
/// chunk arrives.
pub open spec fn delivered(table: Map<u64, ChunkSetView>, chunk: ResponseView) -> Option<Seq<u8>> {
    if !accepts(table, chunk) {
        None
    } else if chunk.out_of == 1 {
        Some(chunk.data)
    } else if complete(received_with(table, chunk), chunk.out_of as int) {
        Some(assembled(received_with(table, chunk), chunk.out_of as int))
    } else {
        None
    }
}

/// What the slots hold, by sequence number.
pub open spec fn received_of(slots: Seq<Option<Vec<u8>>>) -> Map<int, Seq<u8>> {
    Map::new(|i: int| 0 <= i < slots.len() && slots[i] is Some, |i: int| slots[i]->0@)
}

/// The chunks received so far of one bulk message: one slot per sequence
/// number.
pub struct ChunkSet {
    expected_count: u16,
    slots: Vec<Option<Vec<u8>>>,
    filled: usize,
}

impl View for ChunkSet {
    type V = ChunkSetView;

    closed spec fn view(&self) -> ChunkSetView {
        ChunkSetView {
            expected_count: self.expected_count as int,
            received: received_of(self.slots@),
        }
    }
}

impl ChunkSet {
    /// One slot per expected chunk, and a count of the slots that are full.
    closed spec fn wf(&self) -> bool {
        &&& self.slots.len() == self.expected_count
        &&& received_of(self.slots@).dom().finite()
        &&& self.filled == received_of(self.slots@).dom().len()
    }

    /// A set of `expected_count` empty slots.
    fn new(expected_count: u16) -> (set: ChunkSet)
        ensures
            set.wf(),
            set@.expected_count == expected_count,
            set@.received == Map::<int, Seq<u8>>::empty(),
            set.filled == 0,
    {
        let mut slots: Vec<Option<Vec<u8>>> = Vec::new();
        let mut i: u16 = 0;
        while i < expected_count
            invariant
                i <= expected_count,
                slots.len() == i,
                forall|k: int| 0 <= k < i ==> slots@[k] is None,
            decreases expected_count - i,
        {
            slots.push(None);
            i += 1;
        }
        assert(received_of(slots@) =~= Map::<int, Seq<u8>>::empty());
        assert(received_of(slots@).dom() =~= Set::<int>::empty());
        ChunkSet { expected_count, slots, filled: 0 }
    }

    /// Puts `data` into the empty slot `number`.
    fn put(&mut self, number: u16, data: Vec<u8>)
        requires
            old(self).wf(),
            number < old(self)@.expected_count,
            !old(self)@.received.contains_key(number as int),
        ensures
            final(self).wf(),
            final(self)@.expected_count == old(self)@.expected_count,
            final(self)@.received == old(self)@.received.insert(number as int, data@),
            final(self).filled == old(self).filled + 1,
            final(self).filled <= final(self)@.expected_count,
    {
        proof {
            lemma_int_range(0, self.expected_count as int);
            assert(received_of(self.slots@).dom().subset_of(
                set_int_range(0, self.expected_count as int).remove(number as int),
            ));
            vstd::set_lib::lemma_len_subset(
                received_of(self.slots@).dom(),
                set_int_range(0, self.expected_count as int).remove(number as int),
            );
        }
        let ghost before = self.slots@;
        self.slots[number as usize] = Some(data);
        proof {
            assert(received_of(self.slots@) =~= received_of(before).insert(number as int, data@));
            assert(received_of(self.slots@).dom() =~= received_of(before).dom().insert(
                number as int,
            ));
        }
        self.filled = self.filled + 1;
    }

    /// The payloads of all slots, joined in ascending order.
    fn assemble(&self) -> (payload: Vec<u8>)
        requires
            self.wf(),
            complete(self@.received, self@.expected_count),
        ensures
            payload@ == assembled(self@.received, self@.expected_count),
    {
        let mut payload: Vec<u8> = Vec::new();
        let mut i: usize = 0;
        while i < self.slots.len()
            invariant
                i <= self.slots.len(),
                self.wf(),
                complete(self@.received, self@.expected_count),
                payload@ == assembled(self@.received, i as int),
            decreases self.slots.len() - i,
        {
            assert(self@.received.contains_key(i as int));
            match &self.slots[i] {
                Some(data) => {
                    append(&mut payload, data.as_slice());
                },
                None => {
                    proof {
                        assert(false);
                    }
                },
            }
            i += 1;
        }
        payload
    }

    /// In a set with a slot per chunk, all slots are full exactly when the
    /// count of full slots is the number of slots.
    proof fn lemma_filled(&self)
        requires
            self.wf(),
        ensures
            complete(self@.received, self@.expected_count) <==> self.filled
                == self@.expected_count,
            forall|i: int| self@.received.contains_key(i) ==> 0 <= i < self@.expected_count,
    {
        let n = self.expected_count as int;
        let dom = received_of(self.slots@).dom();
        lemma_int_range(0, n);
        assert(dom.subset_of(set_int_range(0, n)));
        if self.filled == n {
            lemma_subset_equality(dom, set_int_range(0, n));
            assert forall|i: int| 0 <= i < n implies self@.received.contains_key(i) by {
                assert(set_int_range(0, n).contains(i));
            }
        }
        if complete(self@.received, n) {
            assert(dom =~= set_int_range(0, n));
        }
    }
}

/// The receiver's pending bulk messages, by bulk id.
pub struct ChunkTable {
    sets: HashMap<u64, ChunkSet>,
}

impl View for ChunkTable {
    type V = Map<u64, ChunkSetView>;

    closed spec fn view(&self) -> Map<u64, ChunkSetView> {
        Map::new(|id: u64| self.sets@.contains_key(id), |id: u64| self.sets@[id]@)
    }
}

impl ChunkTable {
    /// Every pending set is sound and still misses a chunk.
    pub closed spec fn wf(&self) -> bool {
        forall|id: u64|
            self.sets@.contains_key(id) ==> {
                &&& (#[trigger] self.sets@[id]).wf()
                &&& self.sets@[id]@.valid()
            }
    }

    /// A table with nothing pending.
    pub fn new() -> (table: ChunkTable)
        ensures
            table.wf(),
            table@ == Map::<u64, ChunkSetView>::empty(),
    {
        let table = ChunkTable { sets: HashMap::new() };
        assert(table@ =~= Map::<u64, ChunkSetView>::empty());
        table
    }

    /// A sound table is a valid one.
    pub proof fn lemma_valid(&self)
        requires
            self.wf(),
        ensures
            valid_table(self@),
    {
        assert forall|id: u64| self@.contains_key(id) implies (#[trigger] self@[id]).valid() by {
            assert(self.sets@[id].wf());
        }
    }

    /// Whether chunks of the bulk message `bulk_id` are pending.
    pub fn is_pending(&self, bulk_id: u64) -> (b: bool)
        ensures
            b <==> self@.contains_key(bulk_id),
    {
        broadcast use vstd::std_specs::hash::group_hash_axioms;

        self.sets.contains_key(&bulk_id)
    }

    /// Whether `packet` would be taken in now.
    pub fn takes(&self, packet: &Response) -> (b: bool)
        requires
            self.wf(),
        ensures
            b == accepts(self@, packet@),
    {
        broadcast use vstd::std_specs::hash::group_hash_axioms;

        if packet.packet_number >= packet.out_of {
            return false;
        }
        if packet.out_of == 1 {
            return true;
        }
        match self.sets.get(&packet.packet_id) {
            None => true,
            Some(set) => {
                assert(self.sets@[packet.packet_id].wf());
                set.expected_count == packet.out_of && set.slots[packet.packet_number as usize].is_none()
            },
        }
    }

    /// How many chunks of the bulk message `bulk_id` have been received;
    /// zero when none is pending.
    pub fn received_count(&self, bulk_id: u64) -> (n: usize)
        requires
            self.wf(),
        ensures
            self@.contains_key(bulk_id) ==> n == self@[bulk_id].received.dom().len(),
            !self@.contains_key(bulk_id) ==> n == 0,
    {
        broadcast use vstd::std_specs::hash::group_hash_axioms;

        match self.sets.get(&bulk_id) {
            Some(set) => set.filled,
            None => 0,
        }
    }
}

/// Takes in one opened chunk. Returns the payload that it completes, if it
/// completes one.
///
/// A chunk whose sequence number is out of range, whose count contradicts
/// the pending set, or which has been received before is rejected: nothing
/// is returned and the table stays as it was.
pub fn reassemble(packet: Response, state: &mut ChunkTable) -> (r: Option<Vec<u8>>)
    requires
        old(state).wf(),
    ensures
        final(state).wf(),
        final(state)@ == table_after(old(state)@, packet@),
        match delivered(old(state)@, packet@) {
            Some(payload) => r matches Some(bytes) && bytes@ == payload,
            None => r is None,
        },
{
    broadcast use vstd::std_specs::hash::group_hash_axioms;

    if packet.packet_number >= packet.out_of {
        return None;
    }
    if packet.out_of == 1 {
        return Some(packet.data);
    }
    let id: u64 = packet.packet_id;
    let number: u16 = packet.packet_number;
    let out_of: u16 = packet.out_of;
    let ghost before = state.sets@;
    let ghost chunk = packet@;
    match state.sets.remove(&id) {
        None => {
            let mut set = ChunkSet::new(out_of);
            set.put(number, packet.data);
            proof {
                set.lemma_filled();
                assert(received_with(old(state)@, chunk) =~= set@.received);
            }
            state.sets.insert(id, set);
            assert(state@ =~= table_after(old(state)@, chunk));
            None
        },
        Some(mut set) => {
            assert(set == before[id]);
            proof {
                set.lemma_filled();
            }
            let taken: bool = set.expected_count == out_of && set.slots[number as usize].is_none();
            if !taken {
                state.sets.insert(id, set);
                assert(state.sets@ =~= before);
                assert(state@ =~= old(state)@);
                return None;
            }
            set.put(number, packet.data);
            proof {
                set.lemma_filled();
                assert(received_with(old(state)@, chunk) =~= set@.received);
            }
            if set.filled == set.expected_count as usize {
                let payload = set.assemble();
                assert(state@ =~= table_after(old(state)@, chunk));
                Some(payload)
            } else {
                state.sets.insert(id, set);
                assert(state@ =~= table_after(old(state)@, chunk));
                None
            }
        },
    }
}

} // verus!
