//! Delivery: what a receiver hands out is what the sender framed, in
//! whatever order the chunks of a bulk message arrive.

use vstd::prelude::*;
use vstd::set_lib::{lemma_int_range, lemma_subset_equality, set_int_range};
use crate::framer::{
    can_split, chunk_count, chunk_of, chunks_joined, lemma_chunks_cover,
    lemma_chunks_join_to_payload,
};
use crate::packets::ResponseView;
use crate::reassembly::{
    accepts, assembled, complete, delivered, received_with, table_after, valid_table, ChunkSetView,
};

verus! {

/// The chunks of `payload` at the sequence numbers in `numbers`.
pub open spec fn chunks_at(payload: Seq<u8>, max: int, numbers: Set<int>) -> Map<int, Seq<u8>> {
    Map::new(|i: int| numbers.contains(i), |i: int| chunk_of(payload, max, i))
}

/// The sequence numbers of the first `k` arrivals.
pub open spec fn numbers_seen(arrivals: Seq<ResponseView>, k: int) -> Set<int>
    decreases k,
{
    if k <= 0 {
        Set::empty()
    } else {
        numbers_seen(arrivals, k - 1).insert(arrivals[k - 1].packet_number as int)
    }
}

/// The table after the first `k` arrivals.
pub open spec fn table_at(
    table: Map<u64, ChunkSetView>,
    arrivals: Seq<ResponseView>,
    k: int,
) -> Map<u64, ChunkSetView>
    decreases k,
{
    if k <= 0 {
        table
    } else {
        table_after(table_at(table, arrivals, k - 1), arrivals[k - 1])
    }
}

/// Whether `arrivals` are the opened chunks of `payload`, sent under
/// `bulk_id` with a budget of `max`, each exactly once, in any order.
pub open spec fn arrivals_of(
    arrivals: Seq<ResponseView>,
    payload: Seq<u8>,
    max: int,
    bulk_id: u64,
) -> bool {
    let n = chunk_count(payload.len() as int, max);
    &&& arrivals.len() == n
    &&& forall|k: int|
        0 <= k < n ==> {
            &&& (#[trigger] arrivals[k]).packet_id == bulk_id
            &&& arrivals[k].out_of == n
            &&& arrivals[k].packet_number < n
            &&& arrivals[k].data == chunk_of(payload, max, arrivals[k].packet_number as int)
        }
    &&& forall|k: int, l: int|
        0 <= k < l < n ==> (#[trigger] arrivals[k]).packet_number != (
        #[trigger] arrivals[l]).packet_number
}

/// A set of chunks that holds every chunk of a payload assembles to it.
pub proof fn lemma_assembled_chunks(
    received: Map<int, Seq<u8>>,
    payload: Seq<u8>,
    max: int,
    n: int,
)
    requires
        0 <= n,
        forall|i: int| 0 <= i < n ==> received[i] == chunk_of(payload, max, i),
    ensures
        assembled(received, n) == chunks_joined(payload, max, n),
    decreases n,
{
    if n > 0 {
        lemma_assembled_chunks(received, payload, max, n - 1);
    }
}

/// A chunk that is not accepted changes nothing and delivers nothing: a
/// duplicate, or one out of range, does not disturb the pending set.
pub proof fn lemma_rejected_leaves_table(table: Map<u64, ChunkSetView>, chunk: ResponseView)
    requires
        !accepts(table, chunk),
    ensures
        table_after(table, chunk) == table,
        delivered(table, chunk) is None,
{
}

/// A chunk that was received before is not accepted a second time.
pub proof fn lemma_duplicate_rejected(table: Map<u64, ChunkSetView>, chunk: ResponseView)
    requires
        chunk.out_of > 1,
        table.contains_key(chunk.packet_id),
        table[chunk.packet_id].received.contains_key(chunk.packet_number as int),
    ensures
        !accepts(table, chunk),
        table_after(table, chunk) == table,
        delivered(table, chunk) is None,
{
}

/// The arrival of any chunk keeps a valid table valid.
pub proof fn lemma_table_stays_valid(table: Map<u64, ChunkSetView>, chunk: ResponseView)
    requires
        valid_table(table),
    ensures
        valid_table(table_after(table, chunk)),
{
    let after = table_after(table, chunk);
    assert forall|id: u64| after.contains_key(id) implies (#[trigger] after[id]).valid() by {
        if id == chunk.packet_id && accepts(table, chunk) && chunk.out_of != 1 {
            assert(after[id].received == received_with(table, chunk));
            if table.contains_key(id) {
                assert(table[id].valid());
            }
        } else {
            assert(table.contains_key(id));
            assert(table[id].valid());
        }
    }
}

/// What the first `k` arrivals have in common with the sequence numbers
/// seen: they are `k` numbers below the count, and no later arrival is
/// among them.
proof fn lemma_numbers_seen(
    arrivals: Seq<ResponseView>,
    payload: Seq<u8>,
    max: int,
    bulk_id: u64,
    k: int,
)
    requires
        arrivals_of(arrivals, payload, max, bulk_id),
        0 <= k <= arrivals.len(),
    ensures
        numbers_seen(arrivals, k).finite(),
        numbers_seen(arrivals, k).len() == k,
        numbers_seen(arrivals, k).subset_of(set_int_range(0, arrivals.len() as int)),
        forall|m: int|
            k <= m < arrivals.len() ==> !numbers_seen(arrivals, k).contains(
                (#[trigger] arrivals[m]).packet_number as int,
            ),
    decreases k,
{
    if k > 0 {
        lemma_numbers_seen(arrivals, payload, max, bulk_id, k - 1);
        assert(!numbers_seen(arrivals, k - 1).contains(arrivals[k - 1].packet_number as int));
        assert forall|m: int| k <= m < arrivals.len() implies !numbers_seen(arrivals, k).contains(
            (#[trigger] arrivals[m]).packet_number as int,
        ) by {
            assert(arrivals[k - 1].packet_number != arrivals[m].packet_number);
        }
    }
}

/// A set of `m` numbers below `n` holds all of them exactly when `m` is `n`.
proof fn lemma_full_when_counted(numbers: Set<int>, n: int)
    requires
        0 <= n,
        numbers.finite(),
        numbers.subset_of(set_int_range(0, n)),
    ensures
        (forall|i: int| 0 <= i < n ==> numbers.contains(i)) <==> numbers.len() == n,
{
    lemma_int_range(0, n);
    if numbers.len() == n {
        lemma_subset_equality(numbers, set_int_range(0, n));
        assert forall|i: int| 0 <= i < n implies numbers.contains(i) by {
            assert(set_int_range(0, n).contains(i));
        }
    }
    if forall|i: int| 0 <= i < n ==> numbers.contains(i) {
        assert(numbers =~= set_int_range(0, n));
    }
}

/// While chunks of a bulk message are missing, the table holds exactly the
/// chunks that have arrived, and nothing has been delivered.
proof fn lemma_pending(
    table: Map<u64, ChunkSetView>,
    arrivals: Seq<ResponseView>,
    payload: Seq<u8>,
    max: int,
    bulk_id: u64,
    k: int,
)
    requires
        0 <= max,
        can_split(payload.len() as int, max),
        valid_table(table),
        !table.contains_key(bulk_id),
        arrivals_of(arrivals, payload, max, bulk_id),
        2 <= arrivals.len(),
        0 <= k < arrivals.len(),
    ensures
        table_at(table, arrivals, k) == if k == 0 {
            table
        } else {
            table.insert(
                bulk_id,
                ChunkSetView {
                    expected_count: arrivals.len() as int,
                    received: chunks_at(payload, max, numbers_seen(arrivals, k)),
                },
            )
        },
        forall|j: int|
            0 <= j < k ==> {
                &&& accepts(table_at(table, arrivals, j), #[trigger] arrivals[j])
                &&& delivered(table_at(table, arrivals, j), arrivals[j]) is None
            },
    decreases k,
{
    if k > 0 {
        let n = arrivals.len() as int;
        lemma_pending(table, arrivals, payload, max, bulk_id, k - 1);
        lemma_numbers_seen(arrivals, payload, max, bulk_id, k - 1);
        lemma_numbers_seen(arrivals, payload, max, bulk_id, k);
        let before = table_at(table, arrivals, k - 1);
        let chunk = arrivals[k - 1];
        let seen_before = numbers_seen(arrivals, k - 1);
        let seen = numbers_seen(arrivals, k);
        assert(!seen_before.contains(chunk.packet_number as int));
        assert(accepts(before, chunk));
        assert(received_with(before, chunk) =~= chunks_at(payload, max, seen));
        lemma_full_when_counted(seen, n);
        assert(!complete(chunks_at(payload, max, seen), n)) by {
            if complete(chunks_at(payload, max, seen), n) {
                assert forall|i: int| 0 <= i < n implies seen.contains(i) by {
                    assert(chunks_at(payload, max, seen).contains_key(i));
                }
            }
        }
        assert(table_at(table, arrivals, k) =~= table.insert(
            bulk_id,
            ChunkSetView { expected_count: n, received: chunks_at(payload, max, seen) },
        ));
        assert forall|j: int| 0 <= j < k implies {
            &&& accepts(table_at(table, arrivals, j), #[trigger] arrivals[j])
            &&& delivered(table_at(table, arrivals, j), arrivals[j]) is None
        } by {
            if j == k - 1 {
                assert(delivered(before, chunk) is None);
            }
        }
    }
}

/// The chunks of a payload may arrive in any order: as long as each arrives
/// exactly once, every one is accepted, nothing is delivered before the
/// last one, the last one delivers the payload, and the table is then as it
/// was before the first.
pub proof fn lemma_any_order_delivers(
    table: Map<u64, ChunkSetView>,
    arrivals: Seq<ResponseView>,
    payload: Seq<u8>,
    max: int,
    bulk_id: u64,
)
    requires
        0 <= max,
        can_split(payload.len() as int, max),
        valid_table(table),
        arrivals.len() >= 2 ==> !table.contains_key(bulk_id),
        arrivals_of(arrivals, payload, max, bulk_id),
    ensures
        forall|j: int|
            0 <= j < arrivals.len() ==> accepts(
                table_at(table, arrivals, j),
                #[trigger] arrivals[j],
            ),
        forall|j: int|
            0 <= j < arrivals.len() - 1 ==> delivered(
                table_at(table, arrivals, j),
                #[trigger] arrivals[j],
            ) is None,
        delivered(table_at(table, arrivals, arrivals.len() - 1), arrivals[arrivals.len() - 1])
            == Some(payload),
        table_at(table, arrivals, arrivals.len() as int) == table,
{
    let n = arrivals.len() as int;
    let len = payload.len() as int;
    lemma_chunks_cover(len, max);
    lemma_chunks_join_to_payload(payload, max);
    let last = arrivals[n - 1];
    if n == 1 {
        assert(table_at(table, arrivals, 0) == table);
        assert(last.packet_number == 0);
        assert(chunks_joined(payload, max, 1) =~= chunk_of(payload, max, 0)) by {
            assert(chunks_joined(payload, max, 0) =~= Seq::<u8>::empty());
        }
        assert(table_at(table, arrivals, 1) == table_after(table_at(table, arrivals, 0), last));
    } else {
        lemma_pending(table, arrivals, payload, max, bulk_id, n - 1);
        lemma_numbers_seen(arrivals, payload, max, bulk_id, n - 1);
        lemma_numbers_seen(arrivals, payload, max, bulk_id, n);
        let before = table_at(table, arrivals, n - 1);
        let seen = numbers_seen(arrivals, n);
        assert(!numbers_seen(arrivals, n - 1).contains(last.packet_number as int));
        assert(accepts(before, last));
        assert(received_with(before, last) =~= chunks_at(payload, max, seen));
        lemma_full_when_counted(seen, n);
        assert(complete(chunks_at(payload, max, seen), n));
        lemma_assembled_chunks(chunks_at(payload, max, seen), payload, max, n);
        assert(table_after(before, last) =~= table);
    }
}

} // verus!
