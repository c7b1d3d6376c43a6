//! Framing: an application payload becomes one packet, or, where it exceeds
//! the payload budget of a packet, a run of chunks that share a bulk id.
//! Each chunk is sealed and hashed on its own.

use rand::Rng;
use vstd::prelude::*;
use crate::bytes::copy_range;
use crate::channel::{aes256_gcm_seal, nonce_for, opening, Role, SecureChannel, TAG_LEN};
use crate::errors::ErrorSendingData;
use crate::hash::{digest, sha3_256_digest};
use crate::packets::{
    FileStream, Packet, PacketView, Request, Stream, CHUNK_HEADER_LEN, FILE_STREAM_HEADER_LEN,
    REQUEST_BULK_CHUNK, REQUEST_FILE_STREAM, REQUEST_STREAM, STREAM_HEADER_LEN,
};

verus! {

/// The largest payload of one packet of a message: with its tag and the
/// header of a chunk it fills a packet up to the ceiling.
pub const MAX_PACKET_PAYLOAD: usize = 1073740718;

/// The largest payload of a file packet.
pub const MAX_FILE_PAYLOAD: usize = 1073740474;

/// The most chunks that one bulk message can have.
pub const MAX_CHUNKS: usize = 65535;

/// A bulk id from `rand::thread_rng`.
///
/// Trusted: nothing; the id differs from call to call.
#[verifier::external_body]
fn generate_random_id() -> (id: u64) {
    let mut rng = rand::thread_rng();
    let random_u64: u64 = rng.gen();
    random_u64
}

/// How many packets carry a payload of `len` bytes under a budget of `max`
/// bytes each: one where it fits, else as many as it takes, the last one
/// possibly short.
pub open spec fn chunk_count(len: int, max: int) -> int {
    if len <= max {
        1
    } else if len % max == 0 {
        len / max
    } else {
        len / max + 1
    }
}

/// Where chunk `i` starts in a payload of `len` bytes.
pub open spec fn chunk_start(len: int, max: int, i: int) -> int {
    if i * max <= len {
        i * max
    } else {
        len
    }
}

/// Chunk `i` of `payload`.
pub open spec fn chunk_of(payload: Seq<u8>, max: int, i: int) -> Seq<u8> {
    payload.subrange(
        chunk_start(payload.len() as int, max, i),
        chunk_start(payload.len() as int, max, i + 1),
    )
}

/// The first `n` chunks of `payload`, one after the other.
pub open spec fn chunks_joined(payload: Seq<u8>, max: int, n: int) -> Seq<u8>
    decreases n,
{
    if n <= 0 {
        Seq::empty()
    } else {
        chunks_joined(payload, max, n - 1) + chunk_of(payload, max, n - 1)
    }
}

/// Whether a payload of `len` bytes can be split under a budget of `max`:
/// it fits one packet, or the budget is positive and the chunks can be
/// numbered.
pub open spec fn can_split(len: int, max: int) -> bool {
    len <= max || (max > 0 && chunk_count(len, max) <= MAX_CHUNKS)
}

/// Whether a channel that has sealed `sealed` messages can frame a payload
/// of `len` bytes under a budget of `max`: the payload can be split, a nonce
/// is left for every chunk, and the largest chunk keeps its packet under
/// the ceiling.
pub open spec fn can_frame(sealed: u64, len: int, max: int) -> bool {
    &&& can_split(len, max)
    &&& sealed + chunk_count(len, max) <= u64::MAX
    &&& (if len <= max {
        len
    } else {
        max
    }) <= MAX_PACKET_PAYLOAD
}

/// Packet `i` of the framing of `payload`: its chunk sealed under the nonce
/// at count `first + i`, with the digest of the sealed chunk. Every chunk
/// but the last keeps the connection alive; the last one carries
/// `keep_alive`.
pub open spec fn framed_packet(
    key: Seq<u8>,
    role: Role,
    first: u64,
    payload: Seq<u8>,
    max: int,
    bulk_id: u64,
    keep_alive: bool,
    i: int,
) -> PacketView {
    let n = chunk_count(payload.len() as int, max);
    let chunk = chunk_of(payload, max, i);
    let nonce = nonce_for(role, (first + i) as u64);
    let data = aes256_gcm_seal(key, nonce, chunk);
    if n == 1 {
        PacketView {
            kind: REQUEST_STREAM,
            length: (STREAM_HEADER_LEN + chunk.len() + TAG_LEN) as u64,
            req_type: REQUEST_STREAM,
            keep_alive,
            packet_id: 0,
            packet_number: 0,
            out_of: 1,
            filename: Seq::empty(),
            nonce,
            data,
            hash: sha3_256_digest(data),
        }
    } else {
        PacketView {
            kind: REQUEST_BULK_CHUNK,
            length: (CHUNK_HEADER_LEN + chunk.len() + TAG_LEN) as u64,
            req_type: REQUEST_BULK_CHUNK,
            keep_alive: keep_alive || i + 1 < n,
            packet_id: bulk_id,
            packet_number: i as u16,
            out_of: n as u16,
            filename: Seq::empty(),
            nonce,
            data,
            hash: sha3_256_digest(data),
        }
    }
}

/// Whether `packets` are the framing of `payload` under `bulk_id`: packet
/// by packet what `framed_packet` says, each well formed, and each opening
/// under `key` to its chunk.
pub open spec fn framed_as(
    packets: Seq<Packet>,
    key: Seq<u8>,
    role: Role,
    first: u64,
    payload: Seq<u8>,
    max: int,
    bulk_id: u64,
    keep_alive: bool,
) -> bool {
    &&& packets.len() == chunk_count(payload.len() as int, max)
    &&& forall|i: int|
        0 <= i < packets.len() ==> {
            &&& (#[trigger] packets[i])@ == framed_packet(
                key,
                role,
                first,
                payload,
                max,
                bulk_id,
                keep_alive,
                i,
            )
            &&& packets[i]@.well_formed()
            &&& opening(key, packets[i]@.nonce, packets[i]@.data) == Some(
                chunk_of(payload, max, i),
            )
        }
}

/// No two packets of one framing share a nonce.
pub proof fn lemma_framed_nonces_distinct(
    key: Seq<u8>,
    role: Role,
    first: u64,
    payload: Seq<u8>,
    max: int,
    bulk_id: u64,
    keep_alive: bool,
    i: int,
    j: int,
)
    requires
        0 <= i < j,
        first + j <= u64::MAX,
    ensures
        framed_packet(key, role, first, payload, max, bulk_id, keep_alive, i).nonce
            != framed_packet(key, role, first, payload, max, bulk_id, keep_alive, j).nonce,
{
    crate::channel::lemma_nonces_distinct(role, (first + i) as u64, (first + j) as u64);
}

/// The chunks cover the payload: the last one ends where the payload ends.
pub proof fn lemma_chunks_cover(len: int, max: int)
    requires
        0 <= len,
        0 <= max,
        can_split(len, max),
    ensures
        1 <= chunk_count(len, max),
        chunk_start(len, max, 0) == 0,
        chunk_start(len, max, chunk_count(len, max)) == len,
{
    if len > max {
        vstd::arithmetic::div_mod::lemma_fundamental_div_mod(len, max);
        let q = len / max;
        assert(q >= 1) by (nonlinear_arith)
            requires
                len == max * q + len % max,
                0 <= len % max < max,
                len > max,
        ;
        assert((q + 1) * max == max * q + max) by (nonlinear_arith);
        assert(q * max == max * q) by (nonlinear_arith);
    }
}

/// Chunk starts never go backwards, and never pass the payload's end.
pub proof fn lemma_chunk_start_step(len: int, max: int, i: int)
    requires
        0 <= len,
        0 <= max,
        0 <= i,
    ensures
        0 <= chunk_start(len, max, i) <= chunk_start(len, max, i + 1) <= len,
        chunk_start(len, max, i + 1) == if chunk_start(len, max, i) + max <= len {
            chunk_start(len, max, i) + max
        } else {
            len
        },
{
    assert((i + 1) * max == i * max + max) by (nonlinear_arith);
    assert(0 <= i * max) by (nonlinear_arith)
        requires
            0 <= i,
            0 <= max,
    ;
}

/// Every chunk but the last is exactly `max` bytes long. The last chunk
/// holds what is left: no more than `max` bytes, and in a bulk message at
/// least one.
pub proof fn lemma_chunk_lengths(payload: Seq<u8>, max: int, i: int)
    requires
        0 <= max,
        can_split(payload.len() as int, max),
        0 <= i < chunk_count(payload.len() as int, max),
    ensures
        chunk_of(payload, max, i).len() <= max,
        i + 1 < chunk_count(payload.len() as int, max) ==> chunk_of(payload, max, i).len() == max,
        chunk_count(payload.len() as int, max) >= 2 ==> chunk_of(payload, max, i).len() >= 1,
{
    let len = payload.len() as int;
    let n = chunk_count(len, max);
    lemma_chunks_cover(len, max);
    lemma_chunk_start_step(len, max, i);
    if n == 1 {
        assert(0 * max == 0) by (nonlinear_arith);
    } else {
        vstd::arithmetic::div_mod::lemma_fundamental_div_mod(len, max);
        let q = len / max;
        assert(i * max <= q * max) by (nonlinear_arith)
            requires
                0 <= i <= q,
                0 <= max,
        ;
        assert(q * max == max * q) by (nonlinear_arith);
        assert((i + 1) * max == i * max + max) by (nonlinear_arith);
        if i + 1 < n {
            assert((i + 1) * max <= q * max) by (nonlinear_arith)
                requires
                    0 <= i + 1 <= q,
                    0 <= max,
            ;
        } else {
            assert(i * max == n * max - max) by (nonlinear_arith)
                requires
                    i == n - 1,
            ;
            assert((q + 1) * max == q * max + max) by (nonlinear_arith);
        }
    }
}

/// Joined in order, the first `n` chunks are the payload up to where chunk
/// `n` starts.
pub proof fn lemma_chunks_joined_prefix(payload: Seq<u8>, max: int, n: int)
    requires
        0 <= max,
        0 <= n,
    ensures
        chunks_joined(payload, max, n) == payload.take(chunk_start(payload.len() as int, max, n)),
    decreases n,
{
    let len = payload.len() as int;
    if n == 0 {
        assert(0 * max == 0) by (nonlinear_arith);
        assert(chunks_joined(payload, max, 0) =~= payload.take(0));
    } else {
        lemma_chunks_joined_prefix(payload, max, n - 1);
        lemma_chunk_start_step(len, max, n - 1);
        let a = chunk_start(len, max, n - 1);
        let b = chunk_start(len, max, n);
        assert(payload.take(a) + payload.subrange(a, b) =~= payload.take(b));
    }
}

/// Splitting loses nothing: all chunks of a payload, joined in order, are
/// the payload.
pub proof fn lemma_chunks_join_to_payload(payload: Seq<u8>, max: int)
    requires
        0 <= max,
        can_split(payload.len() as int, max),
    ensures
        chunks_joined(payload, max, chunk_count(payload.len() as int, max)) == payload,
{
    let len = payload.len() as int;
    lemma_chunks_cover(len, max);
    lemma_chunks_joined_prefix(payload, max, chunk_count(len, max));
    assert(payload.take(len) =~= payload);
}

/// The number of packets that a payload of `len` bytes takes, if it can be
/// split under a budget of `max_packet_payload`.
pub fn count_chunks(len: usize, max_packet_payload: usize) -> (r: Option<usize>)
    ensures
        r is Some <==> can_split(len as int, max_packet_payload as int),
        r matches Some(n) ==> n == chunk_count(len as int, max_packet_payload as int) && 1 <= n
            <= MAX_CHUNKS,
{
    if len <= max_packet_payload {
        return Some(1);
    }
    if max_packet_payload == 0 {
        return None;
    }
    let whole: usize = len / max_packet_payload;
    let n: usize = if len % max_packet_payload == 0 {
        whole
    } else {
        if whole >= MAX_CHUNKS {
            return None;
        }
        whole + 1
    };
    if n > MAX_CHUNKS {
        None
    } else {
        proof {
            vstd::arithmetic::div_mod::lemma_fundamental_div_mod(
                len as int,
                max_packet_payload as int,
            );
            let q = len as int / max_packet_payload as int;
            assert(q >= 1) by (nonlinear_arith)
                requires
                    len == max_packet_payload * q + len % max_packet_payload,
                    0 <= len % max_packet_payload < max_packet_payload,
                    len > max_packet_payload,
            ;
        }
        Some(n)
    }
}

/// Frames `payload` under the given bulk id.
///
/// On success the channel has sealed one message per packet, in order, and
/// every packet opens under the channel's key to its chunk. On failure the
/// channel is as it was and nothing has been sealed.
pub fn frame_with_id(
    channel: &mut SecureChannel,
    payload: &[u8],
    max_packet_payload: usize,
    bulk_id: u64,
    keep_alive: bool,
) -> (r: Result<Vec<Packet>, ErrorSendingData>)
    ensures
        final(channel).key() == old(channel).key(),
        final(channel).role() == old(channel).role(),
        r is Ok <==> can_frame(
            old(channel).sealed_count(),
            payload.len() as int,
            max_packet_payload as int,
        ),
        r matches Ok(packets) ==> {
            &&& final(channel).sealed_count() == old(channel).sealed_count() + packets.len()
            &&& framed_as(
                packets@,
                old(channel).key(),
                old(channel).role(),
                old(channel).sealed_count(),
                payload@,
                max_packet_payload as int,
                bulk_id,
                keep_alive,
            )
        },
        r matches Err(e) ==> {
            &&& final(channel).sealed_count() == old(channel).sealed_count()
            &&& e == if can_split(payload.len() as int, max_packet_payload as int) {
                ErrorSendingData::SealFailure
            } else {
                ErrorSendingData::ErrorSendingData
            }
        },
{
    let len: usize = payload.len();
    let n: usize = match count_chunks(len, max_packet_payload) {
        Some(n) => n,
        None => {
            return Err(ErrorSendingData::ErrorSendingData);
        },
    };
    let largest: usize = if len <= max_packet_payload {
        len
    } else {
        max_packet_payload
    };
    let sealed_before: u64 = channel.messages_sealed();
    if n as u64 > u64::MAX - sealed_before || largest > MAX_PACKET_PAYLOAD {
        return Err(ErrorSendingData::SealFailure);
    }
    let mut packets: Vec<Packet> = Vec::with_capacity(n);
    let mut i: usize = 0;
    let mut at: usize = 0;
    proof {
        lemma_chunks_cover(len as int, max_packet_payload as int);
    }
    while i < n
        invariant
            i <= n,
            len == payload.len(),
            1 <= n <= MAX_CHUNKS,
            n == chunk_count(len as int, max_packet_payload as int),
            at == chunk_start(len as int, max_packet_payload as int, i as int),
            at <= len,
            largest == if len <= max_packet_payload {
                len
            } else {
                max_packet_payload
            },
            largest <= MAX_PACKET_PAYLOAD,
            sealed_before == old(channel).sealed_count(),
            sealed_before + n <= u64::MAX,
            channel.key() == old(channel).key(),
            channel.role() == old(channel).role(),
            channel.sealed_count() == sealed_before + i,
            packets.len() == i,
            forall|k: int|
                0 <= k < i ==> {
                    &&& (#[trigger] packets[k])@ == framed_packet(
                        old(channel).key(),
                        old(channel).role(),
                        sealed_before,
                        payload@,
                        max_packet_payload as int,
                        bulk_id,
                        keep_alive,
                        k,
                    )
                    &&& packets[k]@.well_formed()
                    &&& opening(old(channel).key(), packets[k]@.nonce, packets[k]@.data)
                        == Some(chunk_of(payload@, max_packet_payload as int, k))
                },
        decreases n - i,
    {
        proof {
            lemma_chunk_start_step(len as int, max_packet_payload as int, i as int);
        }
        let end: usize = if len - at > max_packet_payload {
            at + max_packet_payload
        } else {
            len
        };
        let chunk: Vec<u8> = copy_range(payload, at, end);
        assert(chunk@ == chunk_of(payload@, max_packet_payload as int, i as int));
        let sealed = match channel.seal(chunk.as_slice()) {
            Ok(sealed) => sealed,
            Err(_) => {
                return Err(ErrorSendingData::SealFailure);
            },
        };
        let hash: [u8; 32] = digest(sealed.ciphertext.as_slice());
        let packet: Option<Packet> = if n == 1 {
            match Stream::new(keep_alive, sealed.nonce, sealed.ciphertext, hash) {
                Some(p) => Some(Packet::SingleMessage(p)),
                None => None,
            }
        } else {
            match Request::new(
                keep_alive || i + 1 < n,
                bulk_id,
                i as u16,
                n as u16,
                sealed.nonce,
                sealed.ciphertext,
                hash,
            ) {
                Some(p) => Some(Packet::BulkChunk(p)),
                None => None,
            }
        };
        match packet {
            Some(packet) => {
                packets.push(packet);
            },
            None => {
                return Err(ErrorSendingData::SealFailure);
            },
        }
        at = end;
        i += 1;
    }
    Ok(packets)
}

/// Frames `payload` under a bulk id drawn at random.
///
/// The contract is that of `frame_with_id` for some bulk id: which one is
/// not known before the call.
pub fn frame(
    channel: &mut SecureChannel,
    payload: &[u8],
    max_packet_payload: usize,
    keep_alive: bool,
) -> (r: Result<Vec<Packet>, ErrorSendingData>)
    ensures
        final(channel).key() == old(channel).key(),
        final(channel).role() == old(channel).role(),
        r is Ok <==> can_frame(
            old(channel).sealed_count(),
            payload.len() as int,
            max_packet_payload as int,
        ),
        r matches Ok(packets) ==> {
            &&& final(channel).sealed_count() == old(channel).sealed_count() + packets.len()
            &&& exists|bulk_id: u64|
                #[trigger] framed_as(
                    packets@,
                    old(channel).key(),
                    old(channel).role(),
                    old(channel).sealed_count(),
                    payload@,
                    max_packet_payload as int,
                    bulk_id,
                    keep_alive,
                )
        },
        r matches Err(e) ==> {
            &&& final(channel).sealed_count() == old(channel).sealed_count()
            &&& e == if can_split(payload.len() as int, max_packet_payload as int) {
                ErrorSendingData::SealFailure
            } else {
                ErrorSendingData::ErrorSendingData
            }
        },
{
    let bulk_id: u64 = generate_random_id();
    frame_with_id(channel, payload, max_packet_payload, bulk_id, keep_alive)
}

/// The file packet for `payload`: the whole payload sealed under the nonce
/// at count `count`, with the digest of the sealed payload and the file
/// name field.
pub open spec fn framed_file(
    key: Seq<u8>,
    role: Role,
    count: u64,
    filename: Seq<u8>,
    payload: Seq<u8>,
    keep_alive: bool,
) -> PacketView {
    let nonce = nonce_for(role, count);
    let data = aes256_gcm_seal(key, nonce, payload);
    PacketView {
        kind: REQUEST_FILE_STREAM,
        length: (FILE_STREAM_HEADER_LEN + payload.len() + TAG_LEN) as u64,
        req_type: REQUEST_FILE_STREAM,
        keep_alive,
        packet_id: 0,
        packet_number: 0,
        out_of: 1,
        filename,
        nonce,
        data,
        hash: sha3_256_digest(data),
    }
}

/// Frames a file as one packet under its name. A file is never split: one
/// that exceeds the budget is refused.
///
/// On failure the channel is as it was and nothing has been sealed.
pub fn frame_file(
    channel: &mut SecureChannel,
    filename: [u8; 256],
    payload: &[u8],
    max_packet_payload: usize,
    keep_alive: bool,
) -> (r: Result<Packet, ErrorSendingData>)
    ensures
        final(channel).key() == old(channel).key(),
        final(channel).role() == old(channel).role(),
        r is Ok <==> payload.len() <= max_packet_payload && payload.len() <= MAX_FILE_PAYLOAD
            && old(channel).sealed_count() < u64::MAX,
        r matches Ok(packet) ==> {
            &&& final(channel).sealed_count() == old(channel).sealed_count() + 1
            &&& packet@ == framed_file(
                old(channel).key(),
                old(channel).role(),
                old(channel).sealed_count(),
                filename@,
                payload@,
                keep_alive,
            )
            &&& packet@.well_formed()
            &&& opening(old(channel).key(), packet@.nonce, packet@.data) == Some(payload@)
        },
        r matches Err(e) ==> {
            &&& final(channel).sealed_count() == old(channel).sealed_count()
            &&& e == if payload.len() <= max_packet_payload {
                ErrorSendingData::SealFailure
            } else {
                ErrorSendingData::ErrorSendingData
            }
        },
{
    if payload.len() > max_packet_payload {
        return Err(ErrorSendingData::ErrorSendingData);
    }
    if payload.len() > MAX_FILE_PAYLOAD {
        return Err(ErrorSendingData::SealFailure);
    }
    let sealed = match channel.seal(payload) {
        Ok(sealed) => sealed,
        Err(_) => {
            return Err(ErrorSendingData::SealFailure);
        },
    };
    let hash: [u8; 32] = digest(sealed.ciphertext.as_slice());
    match FileStream::new(keep_alive, filename, sealed.nonce, sealed.ciphertext, hash) {
        Some(p) => Ok(Packet::FileMessage(p)),
        None => Err(ErrorSendingData::SealFailure),
    }
}

} // verus!
