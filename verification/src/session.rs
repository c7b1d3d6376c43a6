//! A session: the channel and the reassembly table of one connection, after
//! the handshake. Sending turns a payload into the bytes of its packets;
//! receiving takes the bytes of one packet, checks its digest, opens it, and
//! hands out the payload that it completes.

use vstd::prelude::*;
use crate::channel::{opening, Role, SecureChannel};
use crate::delivery::{arrivals_of, lemma_any_order_delivers, table_at};
use crate::errors::{ErrorReceivingData, ErrorSendingData};
use crate::framer::{
    can_frame, can_split, chunk_count, chunk_of, frame, frame_file, framed_as, framed_file,
    framed_packet, MAX_FILE_PAYLOAD,
};
use crate::hash::{sha3_256_digest, verify};
use crate::kdf::SessionKey;
use crate::packets::{
    decoded, header_len, lemma_decode_encode, Packet, PacketView, Response, ResponseView,
};
use crate::reassembly::{
    accepts, delivered, reassemble, table_after, valid_table, ChunkSetView, ChunkTable,
};

verus! {

/// The opened form of packet `p`, whose payload opened to `plaintext`.
pub open spec fn chunk_response(p: PacketView, plaintext: Seq<u8>) -> ResponseView {
    ResponseView {
        length: p.length,
        req_type: p.req_type,
        keep_alive: p.keep_alive,
        packet_id: p.packet_id,
        packet_number: p.packet_number,
        out_of: p.out_of,
        data: plaintext,
        hash: p.hash,
    }
}

/// What the receiver makes of packet `p` under `key`. The sequence number
/// must lie below the count; then the digest must be that of the sealed
/// payload; only then is the payload opened.
pub open spec fn opened(key: Seq<u8>, p: PacketView) -> Result<ResponseView, ErrorReceivingData> {
    if p.packet_number >= p.out_of {
        Err(ErrorReceivingData::MalformedPacket)
    } else if p.hash != sha3_256_digest(p.data) {
        Err(ErrorReceivingData::IntegrityFailure)
    } else {
        match opening(key, p.nonce, p.data) {
            Some(plaintext) => Ok(chunk_response(p, plaintext)),
            None => Err(ErrorReceivingData::AuthenticationFailure),
        }
    }
}

/// What receiving `wire` yields under `key` with `table` pending: an error,
/// nothing yet, or a payload.
pub open spec fn received(key: Seq<u8>, table: Map<u64, ChunkSetView>, wire: Seq<u8>) -> Result<
    Option<Seq<u8>>,
    ErrorReceivingData,
> {
    match decoded(wire) {
        None => Err(ErrorReceivingData::MalformedPacket),
        Some(p) => match opened(key, p) {
            Err(e) => Err(e),
            Ok(chunk) => if accepts(table, chunk) {
                Ok(delivered(table, chunk))
            } else {
                Err(ErrorReceivingData::MalformedPacket)
            },
        },
    }
}

/// What is pending once `wire` has been received. A packet that is refused
/// changes nothing.
pub open spec fn pending_after(key: Seq<u8>, table: Map<u64, ChunkSetView>, wire: Seq<u8>) -> Map<
    u64,
    ChunkSetView,
> {
    match decoded(wire) {
        None => table,
        Some(p) => match opened(key, p) {
            Err(e) => table,
            Ok(chunk) => table_after(table, chunk),
        },
    }
}

/// Whether `wires` are the packets of `payload` as `send` writes them:
/// packet by packet the encoding of its framed packet, which decodes again,
/// passes the digest check and opens to its chunk.
pub open spec fn sent_as(
    wires: Seq<Vec<u8>>,
    key: Seq<u8>,
    role: Role,
    first: u64,
    payload: Seq<u8>,
    max: int,
    bulk_id: u64,
    keep_alive: bool,
) -> bool {
    &&& wires.len() == chunk_count(payload.len() as int, max)
    &&& forall|i: int|
        0 <= i < wires.len() ==> {
            &&& (#[trigger] wires[i])@ == framed_packet(
                key,
                role,
                first,
                payload,
                max,
                bulk_id,
                keep_alive,
                i,
            ).encoded()
            &&& decoded(wires[i]@) == Some(
                framed_packet(key, role, first, payload, max, bulk_id, keep_alive, i),
            )
            &&& opened(key, decoded(wires[i]@)->0) == Ok::<ResponseView, ErrorReceivingData>(
                chunk_response(decoded(wires[i]@)->0, chunk_of(payload, max, i)),
            )
        }
}

/// Checks the digest of `packet`, then opens its payload.
pub fn accept(channel: &SecureChannel, packet: &Packet) -> (r: Result<
    Response,
    ErrorReceivingData,
>)
    ensures
        match opened(channel.key(), packet@) {
            Ok(chunk) => r matches Ok(response) && response@ == chunk,
            Err(e) => r == Err::<Response, ErrorReceivingData>(e),
        },
{
    let packet_number: u16 = packet.sequence_number();
    let out_of: u16 = packet.sequence_count();
    if packet_number >= out_of {
        return Err(ErrorReceivingData::MalformedPacket);
    }
    let (length, req_type, keep_alive, nonce, hash): (u64, u8, bool, [u8; 12], [u8; 32]) =
        match packet {
        Packet::SingleMessage(p) => (p.length, p.req_type, p.keep_alive, p.nonce, p.hash),
        Packet::FileMessage(p) => (p.length, p.req_type, p.keep_alive, p.nonce, p.hash),
        Packet::BulkChunk(p) => (p.length, p.req_type, p.keep_alive, p.nonce, p.hash),
    };
    if !verify(packet.data().as_slice(), hash.as_slice()) {
        return Err(ErrorReceivingData::IntegrityFailure);
    }
    match channel.open(&nonce, packet.data().as_slice()) {
        Ok(data) => Ok(
            Response {
                length,
                req_type,
                keep_alive,
                packet_id: packet.bulk_id(),
                packet_number,
                out_of,
                data,
                hash,
            },
        ),
        Err(_) => Err(ErrorReceivingData::AuthenticationFailure),
    }
}

/// Whether the session goes on after `error` on a packet with the given
/// keep-alive flag. A malformed packet is dropped and the session goes on;
/// a packet that fails its digest is dropped and the session goes on if the
/// flag is set; a failed authentication or a failed transport ends it.
pub fn survives(error: ErrorReceivingData, keep_alive: bool) -> (b: bool)
    ensures
        b == match error {
            ErrorReceivingData::MalformedPacket => true,
            ErrorReceivingData::IntegrityFailure => keep_alive,
            ErrorReceivingData::AuthenticationFailure => false,
            ErrorReceivingData::ErrorReceivingData => false,
        },
{
    match error {
        ErrorReceivingData::MalformedPacket => true,
        ErrorReceivingData::IntegrityFailure => keep_alive,
        ErrorReceivingData::AuthenticationFailure => false,
        ErrorReceivingData::ErrorReceivingData => false,
    }
}

/// One connection after the handshake. It owns its key, its nonce counter
/// and its reassembly table, and shares none of them.
pub struct Session {
    channel: SecureChannel,
    table: ChunkTable,
    max_packet_payload: usize,
}

impl Session {
    /// The session key.
    pub closed spec fn key(&self) -> Seq<u8> {
        self.channel.key()
    }

    /// The role of this end.
    pub closed spec fn role(&self) -> Role {
        self.channel.role()
    }

    /// How many packets this end has sealed.
    pub closed spec fn sealed_count(&self) -> u64 {
        self.channel.sealed_count()
    }

    /// The payload budget of one packet.
    pub closed spec fn budget(&self) -> int {
        self.max_packet_payload as int
    }

    /// The bulk messages of which chunks are still missing.
    pub closed spec fn pending(&self) -> Map<u64, ChunkSetView> {
        self.table@
    }

    /// The table is sound.
    pub closed spec fn wf(&self) -> bool {
        self.table.wf()
    }

    /// Whether a payload of `len` bytes can be sent now.
    pub open spec fn can_send(&self, len: int) -> bool {
        can_frame(self.sealed_count(), len, self.budget())
    }

    /// A session over `key` for the end `role`, with nothing sealed and
    /// nothing pending.
    pub fn new(key: SessionKey, role: Role, max_packet_payload: usize) -> (session: Session)
        ensures
            session.wf(),
            session.key() == key@,
            session.role() == role,
            session.sealed_count() == 0,
            session.budget() == max_packet_payload,
            session.pending() == Map::<u64, ChunkSetView>::empty(),
    {
        Session { channel: SecureChannel::new(key, role), table: ChunkTable::new(), max_packet_payload }
    }

    /// A sound session has a valid table.
    pub proof fn lemma_valid(&self)
        requires
            self.wf(),
        ensures
            valid_table(self.pending()),
    {
        self.table.lemma_valid();
    }

    /// Frames `payload` and returns the bytes of its packets, in the order
    /// in which they are to be written.
    ///
    /// On failure nothing has been sealed.
    pub fn send(&mut self, payload: &[u8], keep_alive: bool) -> (r: Result<
        Vec<Vec<u8>>,
        ErrorSendingData,
    >)
        requires
            old(self).wf(),
        ensures
            final(self).wf(),
            final(self).key() == old(self).key(),
            final(self).role() == old(self).role(),
            final(self).budget() == old(self).budget(),
            final(self).pending() == old(self).pending(),
            r is Ok <==> old(self).can_send(payload.len() as int),
            r matches Ok(wires) ==> {
                &&& final(self).sealed_count() == old(self).sealed_count() + wires.len()
                &&& exists|bulk_id: u64|
                    #[trigger] sent_as(
                        wires@,
                        old(self).key(),
                        old(self).role(),
                        old(self).sealed_count(),
                        payload@,
                        old(self).budget(),
                        bulk_id,
                        keep_alive,
                    )
            },
            r matches Err(e) ==> {
                &&& final(self).sealed_count() == old(self).sealed_count()
                &&& e == if can_split(payload.len() as int, old(self).budget()) {
                    ErrorSendingData::SealFailure
                } else {
                    ErrorSendingData::ErrorSendingData
                }
            },
    {
        let packets = match frame(&mut self.channel, payload, self.max_packet_payload, keep_alive) {
            Ok(packets) => packets,
            Err(e) => {
                return Err(e);
            },
        };
        let ghost key = old(self).key();
        let ghost role = old(self).role();
        let ghost first = old(self).sealed_count();
        let ghost max = old(self).budget();
        let ghost bulk_id = choose|bulk_id: u64|
            #[trigger] framed_as(packets@, key, role, first, payload@, max, bulk_id, keep_alive);
        let mut wires: Vec<Vec<u8>> = Vec::with_capacity(packets.len());
        let mut i: usize = 0;
        while i < packets.len()
            invariant
                i <= packets.len(),
                wires.len() == i,
                framed_as(packets@, key, role, first, payload@, max, bulk_id, keep_alive),
                forall|k: int|
                    0 <= k < i ==> {
                        &&& (#[trigger] wires[k])@ == framed_packet(
                            key,
                            role,
                            first,
                            payload@,
                            max,
                            bulk_id,
                            keep_alive,
                            k,
                        ).encoded()
                        &&& decoded(wires[k]@) == Some(
                            framed_packet(key, role, first, payload@, max, bulk_id, keep_alive, k),
                        )
                        &&& opened(key, decoded(wires[k]@)->0) == Ok::<
                            ResponseView,
                            ErrorReceivingData,
                        >(chunk_response(decoded(wires[k]@)->0, chunk_of(payload@, max, k)))
                    },
            decreases packets.len() - i,
        {
            let wire = packets[i].encode();
            proof {
                let p = packets[i as int]@;
                lemma_decode_encode(p);
                lemma_framed_opens(key, role, first, payload@, max, bulk_id, keep_alive, i as int, p);
            }
            wires.push(wire);
            i += 1;
        }
        assert(sent_as(wires@, key, role, first, payload@, max, bulk_id, keep_alive));
        Ok(wires)
    }

    /// Frames a file as one packet under its name and returns the bytes of
    /// the packet. The receiver gets `payload` from them at once.
    ///
    /// On failure nothing has been sealed.
    pub fn send_file(&mut self, filename: [u8; 256], payload: &[u8], keep_alive: bool) -> (r:
        Result<Vec<u8>, ErrorSendingData>)
        requires
            old(self).wf(),
        ensures
            final(self).wf(),
            final(self).key() == old(self).key(),
            final(self).role() == old(self).role(),
            final(self).budget() == old(self).budget(),
            final(self).pending() == old(self).pending(),
            r is Ok <==> payload.len() <= old(self).budget() && payload.len() <= MAX_FILE_PAYLOAD
                && old(self).sealed_count() < u64::MAX,
            r matches Ok(wire) ==> {
                &&& final(self).sealed_count() == old(self).sealed_count() + 1
                &&& wire@ == framed_file(
                    old(self).key(),
                    old(self).role(),
                    old(self).sealed_count(),
                    filename@,
                    payload@,
                    keep_alive,
                ).encoded()
                &&& decoded(wire@) == Some(
                    framed_file(
                        old(self).key(),
                        old(self).role(),
                        old(self).sealed_count(),
                        filename@,
                        payload@,
                        keep_alive,
                    ),
                )
                &&& opened(old(self).key(), decoded(wire@)->0) == Ok::<
                    ResponseView,
                    ErrorReceivingData,
                >(chunk_response(decoded(wire@)->0, payload@))
                &&& forall|table: Map<u64, ChunkSetView>|
                    received(old(self).key(), table, wire@) == Ok::<
                        Option<Seq<u8>>,
                        ErrorReceivingData,
                    >(Some(payload@))
            },
            r matches Err(e) ==> {
                &&& final(self).sealed_count() == old(self).sealed_count()
                &&& e == if payload.len() <= old(self).budget() {
                    ErrorSendingData::SealFailure
                } else {
                    ErrorSendingData::ErrorSendingData
                }
            },
    {
        let packet = match frame_file(
            &mut self.channel,
            filename,
            payload,
            self.max_packet_payload,
            keep_alive,
        ) {
            Ok(packet) => packet,
            Err(e) => {
                return Err(e);
            },
        };
        let wire = packet.encode();
        proof {
            lemma_decode_encode(packet@);
        }
        Ok(wire)
    }

    /// Takes the bytes of one packet. Returns the payload that it completes,
    /// or nothing where chunks of its bulk message are still missing.
    ///
    /// A packet that is refused leaves the session as it was. The checks
    /// come in this order: bytes that do not parse are malformed; then the
    /// digest is checked, and only a packet that passed it is opened; last,
    /// a chunk that was received before, or whose count contradicts the
    /// pending set, is malformed.
    pub fn receive(&mut self, wire: &[u8]) -> (r: Result<Option<Vec<u8>>, ErrorReceivingData>)
        requires
            old(self).wf(),
        ensures
            final(self).wf(),
            final(self).key() == old(self).key(),
            final(self).role() == old(self).role(),
            final(self).budget() == old(self).budget(),
            final(self).sealed_count() == old(self).sealed_count(),
            final(self).pending() == pending_after(old(self).key(), old(self).pending(), wire@),
            match received(old(self).key(), old(self).pending(), wire@) {
                Ok(Some(payload)) => r matches Ok(Some(bytes)) && bytes@ == payload,
                Ok(None) => r matches Ok(None),
                Err(e) => r == Err::<Option<Vec<u8>>, ErrorReceivingData>(e),
            },
    {
        let packet = match Packet::decode(wire) {
            Ok(packet) => packet,
            Err(e) => {
                return Err(e);
            },
        };
        let response = match accept(&self.channel, &packet) {
            Ok(response) => response,
            Err(e) => {
                return Err(e);
            },
        };
        if !self.table.takes(&response) {
            return Err(ErrorReceivingData::MalformedPacket);
        }
        Ok(reassemble(response, &mut self.table))
    }
}

/// A framed packet passes the receiver's checks and opens to its chunk.
proof fn lemma_framed_opens(
    key: Seq<u8>,
    role: Role,
    first: u64,
    payload: Seq<u8>,
    max: int,
    bulk_id: u64,
    keep_alive: bool,
    i: int,
    p: PacketView,
)
    requires
        p == framed_packet(key, role, first, payload, max, bulk_id, keep_alive, i),
        p.well_formed(),
        opening(key, p.nonce, p.data) == Some(chunk_of(payload, max, i)),
    ensures
        opened(key, p) == Ok::<ResponseView, ErrorReceivingData>(
            chunk_response(p, chunk_of(payload, max, i)),
        ),
{
}

/// A packet whose content hash was altered is refused with an integrity
/// failure, before its payload is opened: whatever the cipher would make of
/// the payload, the answer is the same.
pub proof fn lemma_altered_hash_detected(key: Seq<u8>, p: PacketView, altered: PacketView)
    requires
        p.packet_number < p.out_of,
        p.hash == sha3_256_digest(p.data),
        altered.hash != p.hash,
        altered.data == p.data,
        altered.packet_number == p.packet_number,
        altered.out_of == p.out_of,
    ensures
        opened(key, altered) == Err::<ResponseView, ErrorReceivingData>(
            ErrorReceivingData::IntegrityFailure,
        ),
{
}

/// Where the content hash of a packet of `kind` stands on the wire.
pub open spec fn hash_offset(kind: u8) -> int {
    header_len(kind) - 32
}

/// Corruption of the content hash on the wire is detected: where a packet
/// that passes the digest check is altered in its hash field and nowhere
/// else, receiving it fails with an integrity failure, whatever the key and
/// whatever is pending.
pub proof fn lemma_altered_hash_on_wire(
    key: Seq<u8>,
    table: Map<u64, ChunkSetView>,
    wire: Seq<u8>,
    altered: Seq<u8>,
)
    requires
        decoded(wire) is Some,
        decoded(wire)->0.hash == sha3_256_digest(decoded(wire)->0.data),
        altered.len() == wire.len(),
        altered != wire,
        forall|i: int|
            0 <= i < wire.len() && !(hash_offset(wire[8]) <= i < hash_offset(wire[8]) + 32)
                ==> altered[i] == wire[i],
    ensures
        received(key, table, altered) == Err::<Option<Seq<u8>>, ErrorReceivingData>(
            ErrorReceivingData::IntegrityFailure,
        ),
{
    let p = decoded(wire)->0;
    let h = hash_offset(wire[8]);
    let n = wire.len() as int;
    assert(altered.subrange(0, 8) =~= wire.subrange(0, 8));
    assert(altered[8] == wire[8]);
    assert(altered[9] == wire[9]);
    assert(altered.subrange(10, 18) =~= wire.subrange(10, 18));
    assert(altered.subrange(18, 20) =~= wire.subrange(18, 20));
    assert(altered.subrange(20, 22) =~= wire.subrange(20, 22));
    assert(altered.subrange(h + 32, n) =~= wire.subrange(h + 32, n));
    let q = decoded(altered)->0;
    assert(decoded(altered) is Some);
    assert(q.data == p.data);
    assert(q.hash == altered.subrange(h, h + 32));
    assert(p.hash == wire.subrange(h, h + 32));
    if q.hash == p.hash {
        assert forall|i: int| 0 <= i < n implies altered[i] == wire[i] by {
            if h <= i < h + 32 {
                assert(altered[i] == altered.subrange(h, h + 32)[i - h]);
                assert(wire[i] == wire.subrange(h, h + 32)[i - h]);
            }
        }
        assert(altered =~= wire);
    }
}

/// Nothing is delivered unchecked: where receiving does not fail, the bytes
/// parsed as a packet, the packet's hash is the digest of its sealed
/// payload, and the cipher released the payload under the key. So altered
/// bytes come out as a payload only if they pass both checks.
pub proof fn lemma_received_passed_both_checks(
    key: Seq<u8>,
    table: Map<u64, ChunkSetView>,
    wire: Seq<u8>,
)
    requires
        received(key, table, wire) is Ok,
    ensures
        decoded(wire) is Some,
        decoded(wire)->0.hash == sha3_256_digest(decoded(wire)->0.data),
        opening(key, decoded(wire)->0.nonce, decoded(wire)->0.data) is Some,
        accepts(
            table,
            chunk_response(
                decoded(wire)->0,
                opening(key, decoded(wire)->0.nonce, decoded(wire)->0.data)->0,
            ),
        ),
{
}

/// Receiving fails with an integrity failure exactly when the bytes parse
/// as a packet whose hash is not the digest of its sealed payload.
pub proof fn lemma_integrity_failure_means_digest_mismatch(
    key: Seq<u8>,
    table: Map<u64, ChunkSetView>,
    wire: Seq<u8>,
)
    ensures
        received(key, table, wire) == Err::<Option<Seq<u8>>, ErrorReceivingData>(
            ErrorReceivingData::IntegrityFailure,
        ) <==> decoded(wire) is Some && decoded(wire)->0.hash != sha3_256_digest(
            decoded(wire)->0.data,
        ),
{
    if decoded(wire) is Some {
        crate::packets::lemma_decoded_is_canonical(wire);
    }
}

/// The digest is checked before anything is opened: a packet whose hash is
/// not the digest of its payload fails with an integrity failure under
/// every key.
pub proof fn lemma_digest_checked_first(key: Seq<u8>, p: PacketView)
    requires
        p.packet_number < p.out_of,
        p.hash != sha3_256_digest(p.data),
    ensures
        opened(key, p) == Err::<ResponseView, ErrorReceivingData>(
            ErrorReceivingData::IntegrityFailure,
        ),
{
}

/// What is pending once the first `k` of `wires` have been received.
pub open spec fn pending_at(
    key: Seq<u8>,
    table: Map<u64, ChunkSetView>,
    wires: Seq<Vec<u8>>,
    k: int,
) -> Map<u64, ChunkSetView>
    decreases k,
{
    if k <= 0 {
        table
    } else {
        pending_after(key, pending_at(key, table, wires, k - 1), wires[k - 1]@)
    }
}

/// Whether `order` names each of `n` packets exactly once.
pub open spec fn is_arrival_order(order: Seq<int>, n: int) -> bool {
    &&& order.len() == n
    &&& forall|k: int| 0 <= k < n ==> 0 <= #[trigger] order[k] < n
    &&& forall|k: int, l: int| 0 <= k < l < n ==> #[trigger] order[k] != #[trigger] order[l]
}

/// The packets `wires` in the order in which they arrive.
pub open spec fn in_order(wires: Seq<Vec<u8>>, order: Seq<int>) -> Seq<Vec<u8>> {
    Seq::new(order.len(), |k: int| wires[order[k]])
}

/// Receiving packets one by one leaves pending what the arrival of their
/// chunks leaves pending, where every packet decodes and opens to its chunk.
proof fn lemma_pending_at(
    key: Seq<u8>,
    table: Map<u64, ChunkSetView>,
    wires: Seq<Vec<u8>>,
    arrivals: Seq<ResponseView>,
    k: int,
)
    requires
        arrivals.len() == wires.len(),
        forall|i: int|
            0 <= i < wires.len() ==> decoded((#[trigger] wires[i])@) is Some && opened(
                key,
                decoded(wires[i]@)->0,
            ) == Ok::<ResponseView, ErrorReceivingData>(arrivals[i]),
        0 <= k <= wires.len(),
    ensures
        pending_at(key, table, wires, k) == table_at(table, arrivals, k),
    decreases k,
{
    if k > 0 {
        lemma_pending_at(key, table, wires, arrivals, k - 1);
        let w = wires[k - 1];
        assert(decoded(w@) is Some);
    }
}

/// Delivery in any order: whatever payload was sent, and in whatever order
/// its packets arrive, as long as each arrives once the receiver gets
/// nothing, and no error, before the last one, gets exactly the payload
/// with the last one, and has then pending what was pending before.
pub proof fn lemma_delivery_in_any_order(
    wires: Seq<Vec<u8>>,
    key: Seq<u8>,
    role: Role,
    first: u64,
    payload: Seq<u8>,
    max: int,
    bulk_id: u64,
    keep_alive: bool,
    table: Map<u64, ChunkSetView>,
    order: Seq<int>,
)
    requires
        0 <= max,
        can_split(payload.len() as int, max),
        sent_as(wires, key, role, first, payload, max, bulk_id, keep_alive),
        valid_table(table),
        wires.len() >= 2 ==> !table.contains_key(bulk_id),
        is_arrival_order(order, wires.len() as int),
    ensures
        forall|j: int|
            0 <= j < wires.len() - 1 ==> received(
                key,
                pending_at(key, table, in_order(wires, order), j),
                (#[trigger] in_order(wires, order)[j])@,
            ) == Ok::<Option<Seq<u8>>, ErrorReceivingData>(None),
        received(
            key,
            pending_at(key, table, in_order(wires, order), wires.len() - 1),
            in_order(wires, order)[wires.len() - 1]@,
        ) == Ok::<Option<Seq<u8>>, ErrorReceivingData>(Some(payload)),
        pending_at(key, table, in_order(wires, order), wires.len() as int) == table,
{
    let arrived = in_order(wires, order);
    let n = chunk_count(payload.len() as int, max);
    let arrivals = Seq::new(
        n as nat,
        |k: int| chunk_response(decoded(arrived[k]@)->0, chunk_of(payload, max, order[k])),
    );
    crate::framer::lemma_chunks_cover(payload.len() as int, max);
    let id: u64 = if n == 1 {
        0
    } else {
        bulk_id
    };
    assert forall|k: int| 0 <= k < n implies {
        &&& decoded((#[trigger] arrived[k])@) is Some
        &&& opened(key, decoded(arrived[k]@)->0) == Ok::<ResponseView, ErrorReceivingData>(
            arrivals[k],
        )
        &&& arrivals[k].packet_id == id
        &&& arrivals[k].out_of == n
        &&& arrivals[k].packet_number == order[k]
        &&& arrivals[k].data == chunk_of(payload, max, order[k])
    } by {
        let w = wires[order[k]];
        assert(arrived[k] == w);
        assert(decoded(w@) == Some(
            framed_packet(key, role, first, payload, max, bulk_id, keep_alive, order[k]),
        ));
    }
    assert forall|k: int, l: int| 0 <= k < l < n implies (#[trigger] arrivals[k]).packet_number != (
    #[trigger] arrivals[l]).packet_number by {
        assert(order[k] != order[l]);
    }
    assert(arrivals_of(arrivals, payload, max, id));
    lemma_any_order_delivers(table, arrivals, payload, max, id);
    assert forall|j: int| 0 <= j < n implies received(
        key,
        pending_at(key, table, arrived, j),
        (#[trigger] arrived[j])@,
    ) == Ok::<Option<Seq<u8>>, ErrorReceivingData>(
        delivered(table_at(table, arrivals, j), arrivals[j]),
    ) by {
        lemma_pending_at(key, table, arrived, arrivals, j);
        assert(decoded(arrived[j]@) is Some);
        assert(accepts(table_at(table, arrivals, j), arrivals[j]));
    }
    lemma_pending_at(key, table, arrived, arrivals, n);
}

/// Round trip: whatever payload was sent, the receiver that takes the
/// packets in the order in which they were written gets nothing, and no
/// error, before the last one, gets exactly the payload with the last one,
/// and has then pending what was pending before.
pub proof fn lemma_round_trip(
    wires: Seq<Vec<u8>>,
    key: Seq<u8>,
    role: Role,
    first: u64,
    payload: Seq<u8>,
    max: int,
    bulk_id: u64,
    keep_alive: bool,
    table: Map<u64, ChunkSetView>,
)
    requires
        0 <= max,
        can_split(payload.len() as int, max),
        sent_as(wires, key, role, first, payload, max, bulk_id, keep_alive),
        valid_table(table),
        wires.len() >= 2 ==> !table.contains_key(bulk_id),
    ensures
        forall|j: int|
            0 <= j < wires.len() - 1 ==> received(
                key,
                pending_at(key, table, wires, j),
                (#[trigger] wires[j])@,
            ) == Ok::<Option<Seq<u8>>, ErrorReceivingData>(None),
        received(key, pending_at(key, table, wires, wires.len() - 1), wires[wires.len() - 1]@)
            == Ok::<Option<Seq<u8>>, ErrorReceivingData>(Some(payload)),
        pending_at(key, table, wires, wires.len() as int) == table,
{
    let order = Seq::new(wires.len(), |k: int| k);
    assert(in_order(wires, order) =~= wires);
    lemma_delivery_in_any_order(
        wires,
        key,
        role,
        first,
        payload,
        max,
        bulk_id,
        keep_alive,
        table,
        order,
    );
}

} // verus!
