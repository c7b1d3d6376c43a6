//! The wire packets and their byte layout.
//!
//! Every packet starts with its total length (eight bytes, most significant
//! first), its request type and its keep-alive flag. A chunk of a bulk
//! message then carries the bulk id, its sequence number and the sequence
//! count; a file message carries a file name of fixed width. Nonce, content
//! hash and the sealed payload end every packet.

use vstd::prelude::*;
use crate::bytes::{
    append, copy_range, get_u16, get_u64, lemma_u16_round_trip, lemma_u64_round_trip, put_u16,
    put_u64, take_array, u16_be, u16_from_be, u64_be, u64_from_be,
};
use crate::errors::ErrorReceivingData;

verus! {

/// Request type of a message that fits one packet.
pub const REQUEST_STREAM: u8 = 1;

/// Request type of a file message.
pub const REQUEST_FILE_STREAM: u8 = 2;

/// Request type of one chunk of a bulk message.
pub const REQUEST_BULK_CHUNK: u8 = 4;

/// Width in bytes of the file name field, padded with zero bytes.
pub const FILENAME_LEN: usize = 256;

/// Bytes of a `Stream` packet before its sealed payload.
pub const STREAM_HEADER_LEN: usize = 54;

/// Bytes of a `FileStream` packet before its sealed payload.
pub const FILE_STREAM_HEADER_LEN: usize = 310;

/// Bytes of a bulk chunk before its sealed payload.
pub const CHUNK_HEADER_LEN: usize = 66;

/// Ceiling on the size of one packet on the wire: one gibibyte less 1024
/// bytes. No receiver takes a length field beyond it on trust.
pub const MAX_PACKET_SIZE: usize = 1073740800;

/// A message that fits one packet.
pub struct Stream {
    /// Length of the whole packet on the wire.
    pub length: u64,
    /// How to parse this packet.
    pub req_type: u8,
    /// Whether the connection stays open after this packet.
    pub keep_alive: bool,
    pub nonce: [u8; 12],
    /// The sealed payload.
    pub data: Vec<u8>,
    /// Digest of the sealed payload.
    pub hash: [u8; 32],
}

/// A file in one packet.
pub struct FileStream {
    /// Length of the whole packet on the wire.
    pub length: u64,
    /// How to parse this packet.
    pub req_type: u8,
    /// Whether the connection stays open after this packet.
    pub keep_alive: bool,
    /// The file's name, padded with zero bytes.
    pub filename: [u8; 256],
    pub nonce: [u8; 12],
    /// The sealed payload.
    pub data: Vec<u8>,
    /// Digest of the sealed payload.
    pub hash: [u8; 32],
}

/// One chunk of a bulk message, as it travels.
pub struct Request {
    /// Length of the whole packet on the wire.
    pub length: u64,
    /// How to parse this packet.
    pub req_type: u8,
    /// Whether the connection stays open after this packet.
    pub keep_alive: bool,
    /// Identifies the bulk message that this chunk belongs to.
    pub packet_id: u64,
    /// Position of this chunk in the bulk message, from zero.
    pub packet_number: u16,
    /// Number of chunks in the bulk message.
    pub out_of: u16,
    pub nonce: [u8; 12],
    /// The sealed payload.
    pub data: Vec<u8>,
    /// Digest of the sealed payload.
    pub hash: [u8; 32],
}

/// What the receiver holds of one packet once its digest has been checked
/// and its payload opened. A message that came in one packet is chunk zero
/// of one.
pub struct Response {
    /// Length of the whole packet on the wire.
    pub length: u64,
    /// The request type the packet came with.
    pub req_type: u8,
    /// Whether the connection stays open after this packet.
    pub keep_alive: bool,
    /// Identifies the bulk message that this chunk belongs to.
    pub packet_id: u64,
    /// Position of this chunk in the bulk message, from zero.
    pub packet_number: u16,
    /// Number of chunks in the bulk message.
    pub out_of: u16,
    /// The opened payload.
    pub data: Vec<u8>,
    /// The digest that the sealed payload was checked against.
    pub hash: [u8; 32],
}

/// A wire packet of any of the three kinds.
pub enum Packet {
    SingleMessage(Stream),
    FileMessage(FileStream),
    BulkChunk(Request),
}

/// A packet as plain values. `kind` is the request type that fixes the
/// layout; fields that a kind lacks hold zero, or nothing, and a packet that
/// is no chunk counts as chunk zero of one.
pub struct PacketView {
    pub kind: u8,
    pub length: u64,
    pub req_type: u8,
    pub keep_alive: bool,
    pub packet_id: u64,
    pub packet_number: u16,
    pub out_of: u16,
    pub filename: Seq<u8>,
    pub nonce: Seq<u8>,
    pub data: Seq<u8>,
    pub hash: Seq<u8>,
}

/// An opened chunk as plain values.
pub struct ResponseView {
    pub length: u64,
    pub req_type: u8,
    pub keep_alive: bool,
    pub packet_id: u64,
    pub packet_number: u16,
    pub out_of: u16,
    pub data: Seq<u8>,
    pub hash: Seq<u8>,
}

impl View for Stream {
    type V = PacketView;

    open spec fn view(&self) -> PacketView {
        PacketView {
            kind: REQUEST_STREAM,
            length: self.length,
            req_type: self.req_type,
            keep_alive: self.keep_alive,
            packet_id: 0,
            packet_number: 0,
            out_of: 1,
            filename: Seq::empty(),
            nonce: self.nonce@,
            data: self.data@,
            hash: self.hash@,
        }
    }
}

impl View for FileStream {
    type V = PacketView;

    open spec fn view(&self) -> PacketView {
        PacketView {
            kind: REQUEST_FILE_STREAM,
            length: self.length,
            req_type: self.req_type,
            keep_alive: self.keep_alive,
            packet_id: 0,
            packet_number: 0,
            out_of: 1,
            filename: self.filename@,
            nonce: self.nonce@,
            data: self.data@,
            hash: self.hash@,
        }
    }
}

impl View for Request {
    type V = PacketView;

    open spec fn view(&self) -> PacketView {
        PacketView {
            kind: REQUEST_BULK_CHUNK,
            length: self.length,
            req_type: self.req_type,
            keep_alive: self.keep_alive,
            packet_id: self.packet_id,
            packet_number: self.packet_number,
            out_of: self.out_of,
            filename: Seq::empty(),
            nonce: self.nonce@,
            data: self.data@,
            hash: self.hash@,
        }
    }
}

impl View for Response {
    type V = ResponseView;

    open spec fn view(&self) -> ResponseView {
        ResponseView {
            length: self.length,
            req_type: self.req_type,
            keep_alive: self.keep_alive,
            packet_id: self.packet_id,
            packet_number: self.packet_number,
            out_of: self.out_of,
            data: self.data@,
            hash: self.hash@,
        }
    }
}

impl View for Packet {
    type V = PacketView;

    open spec fn view(&self) -> PacketView {
        match self {
            Packet::SingleMessage(p) => p@,
            Packet::FileMessage(p) => p@,
            Packet::BulkChunk(p) => p@,
        }
    }
}

/// Bytes that a packet of `kind` has before its sealed payload.
pub open spec fn header_len(kind: u8) -> int {
    if kind == REQUEST_FILE_STREAM {
        FILE_STREAM_HEADER_LEN as int
    } else if kind == REQUEST_BULK_CHUNK {
        CHUNK_HEADER_LEN as int
    } else {
        STREAM_HEADER_LEN as int
    }
}

/// The byte that stands for the keep-alive flag.
pub open spec fn flag_byte(keep_alive: bool) -> u8 {
    if keep_alive {
        1
    } else {
        0
    }
}

impl PacketView {
    /// Length of the packet on the wire.
    pub open spec fn wire_len(self) -> int {
        header_len(self.kind) + self.data.len()
    }

    /// The fields that only some kinds carry, as they stand on the wire
    /// between the keep-alive flag and the nonce.
    pub open spec fn kind_fields(self) -> Seq<u8> {
        if self.kind == REQUEST_BULK_CHUNK {
            u64_be(self.packet_id) + u16_be(self.packet_number) + u16_be(self.out_of)
        } else if self.kind == REQUEST_FILE_STREAM {
            self.filename
        } else {
            Seq::empty()
        }
    }

    /// The packet on the wire.
    pub open spec fn encoded(self) -> Seq<u8> {
        u64_be(self.length) + seq![self.req_type, flag_byte(self.keep_alive)] + self.kind_fields()
            + self.nonce + self.hash + self.data
    }

    /// Whether the fields agree with each other: a known kind, the request
    /// type and total length that belong to it, a size under the ceiling,
    /// fields of the right widths, and a sequence number below the sequence
    /// count.
    pub open spec fn well_formed(self) -> bool {
        &&& self.kind == REQUEST_STREAM || self.kind == REQUEST_FILE_STREAM || self.kind
            == REQUEST_BULK_CHUNK
        &&& self.req_type == self.kind
        &&& self.length == self.wire_len()
        &&& self.wire_len() <= MAX_PACKET_SIZE
        &&& self.nonce.len() == 12
        &&& self.hash.len() == 32
        &&& self.filename.len() == if self.kind == REQUEST_FILE_STREAM {
            FILENAME_LEN as int
        } else {
            0
        }
        &&& self.packet_number < self.out_of
        &&& self.kind != REQUEST_BULK_CHUNK ==> self.packet_id == 0 && self.packet_number == 0
            && self.out_of == 1
    }
}

/// The packet that `bytes` spell, if they spell one: they must not exceed
/// the ceiling, the length field must equal the number of bytes, the
/// request type must be known, the flag must be zero or one, the header
/// must be complete, and a chunk's sequence number must lie below its
/// sequence count.
pub open spec fn decoded(bytes: Seq<u8>) -> Option<PacketView> {
    if bytes.len() < STREAM_HEADER_LEN || bytes.len() > MAX_PACKET_SIZE {
        None
    } else {
        let length = u64_from_be(bytes.subrange(0, 8));
        let kind = bytes[8];
        let flag = bytes[9];
        if length != bytes.len() || flag > 1 {
            None
        } else if kind == REQUEST_STREAM {
            Some(
                PacketView {
                    kind,
                    length,
                    req_type: kind,
                    keep_alive: flag == 1,
                    packet_id: 0,
                    packet_number: 0,
                    out_of: 1,
                    filename: Seq::empty(),
                    nonce: bytes.subrange(10, 22),
                    hash: bytes.subrange(22, 54),
                    data: bytes.subrange(54, bytes.len() as int),
                },
            )
        } else if kind == REQUEST_FILE_STREAM {
            if bytes.len() < FILE_STREAM_HEADER_LEN {
                None
            } else {
                Some(
                    PacketView {
                        kind,
                        length,
                        req_type: kind,
                        keep_alive: flag == 1,
                        packet_id: 0,
                        packet_number: 0,
                        out_of: 1,
                        filename: bytes.subrange(10, 266),
                        nonce: bytes.subrange(266, 278),
                        hash: bytes.subrange(278, 310),
                        data: bytes.subrange(310, bytes.len() as int),
                    },
                )
            }
        } else if kind == REQUEST_BULK_CHUNK {
            if bytes.len() < CHUNK_HEADER_LEN {
                None
            } else if u16_from_be(bytes.subrange(18, 20)) >= u16_from_be(bytes.subrange(20, 22)) {
                None
            } else {
                Some(
                    PacketView {
                        kind,
                        length,
                        req_type: kind,
                        keep_alive: flag == 1,
                        packet_id: u64_from_be(bytes.subrange(10, 18)),
                        packet_number: u16_from_be(bytes.subrange(18, 20)),
                        out_of: u16_from_be(bytes.subrange(20, 22)),
                        filename: Seq::empty(),
                        nonce: bytes.subrange(22, 34),
                        hash: bytes.subrange(34, 66),
                        data: bytes.subrange(66, bytes.len() as int),
                    },
                )
            }
        } else {
            None
        }
    }
}

/// The file name field for `name`: the name, then zero bytes up to the
/// field's width.
pub open spec fn filename_padded(name: Seq<u8>) -> Seq<u8> {
    name + Seq::new((FILENAME_LEN - name.len()) as nat, |i: int| 0u8)
}

/// Lays `name` into a file name field. `None` when it is longer than the
/// field.
pub fn filename_field(name: &[u8]) -> (r: Option<[u8; 256]>)
    ensures
        r is Some <==> name.len() <= FILENAME_LEN,
        r matches Some(field) ==> field@ == filename_padded(name@),
{
    if name.len() > FILENAME_LEN {
        return None;
    }
    let mut field: [u8; 256] = [0u8; 256];
    let mut i: usize = 0;
    while i < name.len()
        invariant
            i <= name.len() <= FILENAME_LEN,
            field@.len() == 256,
            forall|k: int| 0 <= k < i ==> field@[k] == name@[k],
            forall|k: int| i <= k < 256 ==> field@[k] == 0u8,
        decreases name.len() - i,
    {
        field[i] = name[i];
        i += 1;
    }
    assert(field@ =~= filename_padded(name@));
    Some(field)
}

impl Stream {
    /// A packet for `data` with the request type and total length that
    /// belong to it. `None` when the packet would exceed the ceiling.
    pub fn new(keep_alive: bool, nonce: [u8; 12], data: Vec<u8>, hash: [u8; 32]) -> (r: Option<
        Stream,
    >)
        ensures
            r is Some <==> STREAM_HEADER_LEN + data.len() <= MAX_PACKET_SIZE,
            r matches Some(p) ==> {
                &&& p@.well_formed()
                &&& p.keep_alive == keep_alive
                &&& p.nonce == nonce
                &&& p.data == data
                &&& p.hash == hash
            },
    {
        if data.len() > MAX_PACKET_SIZE - STREAM_HEADER_LEN {
            return None;
        }
        let length: u64 = data.len() as u64 + STREAM_HEADER_LEN as u64;
        Some(Stream { length, req_type: REQUEST_STREAM, keep_alive, nonce, data, hash })
    }
}

impl FileStream {
    /// A packet for `data` with the request type and total length that
    /// belong to it. `None` when the packet would exceed the ceiling.
    pub fn new(
        keep_alive: bool,
        filename: [u8; 256],
        nonce: [u8; 12],
        data: Vec<u8>,
        hash: [u8; 32],
    ) -> (r: Option<FileStream>)
        ensures
            r is Some <==> FILE_STREAM_HEADER_LEN + data.len() <= MAX_PACKET_SIZE,
            r matches Some(p) ==> {
                &&& p@.well_formed()
                &&& p.keep_alive == keep_alive
                &&& p.filename == filename
                &&& p.nonce == nonce
                &&& p.data == data
                &&& p.hash == hash
            },
    {
        if data.len() > MAX_PACKET_SIZE - FILE_STREAM_HEADER_LEN {
            return None;
        }
        let length: u64 = data.len() as u64 + FILE_STREAM_HEADER_LEN as u64;
        Some(
            FileStream {
                length,
                req_type: REQUEST_FILE_STREAM,
                keep_alive,
                filename,
                nonce,
                data,
                hash,
            },
        )
    }
}

impl Request {
    /// A chunk packet for `data` with the request type and total length
    /// that belong to it. `None` when the packet would exceed the ceiling,
    /// or the sequence number does not lie below the count.
    pub fn new(
        keep_alive: bool,
        packet_id: u64,
        packet_number: u16,
        out_of: u16,
        nonce: [u8; 12],
        data: Vec<u8>,
        hash: [u8; 32],
    ) -> (r: Option<Request>)
        ensures
            r is Some <==> CHUNK_HEADER_LEN + data.len() <= MAX_PACKET_SIZE && packet_number < out_of,
            r matches Some(p) ==> {
                &&& p@.well_formed()
                &&& p.keep_alive == keep_alive
                &&& p.packet_id == packet_id
                &&& p.packet_number == packet_number
                &&& p.out_of == out_of
                &&& p.nonce == nonce
                &&& p.data == data
                &&& p.hash == hash
            },
    {
        if data.len() > MAX_PACKET_SIZE - CHUNK_HEADER_LEN || packet_number >= out_of {
            return None;
        }
        let length: u64 = data.len() as u64 + CHUNK_HEADER_LEN as u64;
        Some(
            Request {
                length,
                req_type: REQUEST_BULK_CHUNK,
                keep_alive,
                packet_id,
                packet_number,
                out_of,
                nonce,
                data,
                hash,
            },
        )
    }
}

impl Packet {
    /// The sealed payload.
    pub fn data(&self) -> (d: &Vec<u8>)
        ensures
            d@ == self@.data,
    {
        match self {
            Packet::SingleMessage(p) => &p.data,
            Packet::FileMessage(p) => &p.data,
            Packet::BulkChunk(p) => &p.data,
        }
    }

    /// The number of packets that make up the message this one belongs to.
    pub fn sequence_count(&self) -> (n: u16)
        ensures
            n == self@.out_of,
    {
        match self {
            Packet::SingleMessage(_) => 1,
            Packet::FileMessage(_) => 1,
            Packet::BulkChunk(p) => p.out_of,
        }
    }

    /// The position of this packet in its message, from zero.
    pub fn sequence_number(&self) -> (n: u16)
        ensures
            n == self@.packet_number,
    {
        match self {
            Packet::SingleMessage(_) => 0,
            Packet::FileMessage(_) => 0,
            Packet::BulkChunk(p) => p.packet_number,
        }
    }

    /// The bulk id; zero for a packet that is no chunk.
    pub fn bulk_id(&self) -> (id: u64)
        ensures
            id == self@.packet_id,
    {
        match self {
            Packet::SingleMessage(_) => 0,
            Packet::FileMessage(_) => 0,
            Packet::BulkChunk(p) => p.packet_id,
        }
    }

    /// The packet as it goes on the wire.
    pub fn encode(&self) -> (bytes: Vec<u8>)
        ensures
            bytes@ == self@.encoded(),
    {
        let mut bytes: Vec<u8> = Vec::new();
        match self {
            Packet::SingleMessage(p) => {
                put_u64(&mut bytes, p.length);
                bytes.push(p.req_type);
                bytes.push(if p.keep_alive { 1 } else { 0 });
                assert(bytes@ == u64_be(p.length) + seq![p.req_type, flag_byte(p.keep_alive)]);
                append(&mut bytes, p.nonce.as_slice());
                append(&mut bytes, p.hash.as_slice());
                append(&mut bytes, p.data.as_slice());
                assert(bytes@ == self@.encoded());
            },
            Packet::FileMessage(p) => {
                put_u64(&mut bytes, p.length);
                bytes.push(p.req_type);
                bytes.push(if p.keep_alive { 1 } else { 0 });
                assert(bytes@ == u64_be(p.length) + seq![p.req_type, flag_byte(p.keep_alive)]);
                append(&mut bytes, p.filename.as_slice());
                append(&mut bytes, p.nonce.as_slice());
                append(&mut bytes, p.hash.as_slice());
                append(&mut bytes, p.data.as_slice());
                assert(bytes@ == self@.encoded());
            },
            Packet::BulkChunk(p) => {
                put_u64(&mut bytes, p.length);
                bytes.push(p.req_type);
                bytes.push(if p.keep_alive { 1 } else { 0 });
                assert(bytes@ == u64_be(p.length) + seq![p.req_type, flag_byte(p.keep_alive)]);
                put_u64(&mut bytes, p.packet_id);
                put_u16(&mut bytes, p.packet_number);
                put_u16(&mut bytes, p.out_of);
                assert(bytes@ == u64_be(p.length) + seq![p.req_type, flag_byte(p.keep_alive)]
                    + self@.kind_fields());
                append(&mut bytes, p.nonce.as_slice());
                append(&mut bytes, p.hash.as_slice());
                append(&mut bytes, p.data.as_slice());
                assert(bytes@ == self@.encoded());
            },
        }
        bytes
    }

    /// Reads one packet from `bytes`, which must hold exactly that packet.
    pub fn decode(bytes: &[u8]) -> (r: Result<Packet, ErrorReceivingData>)
        ensures
            match decoded(bytes@) {
                Some(view) => r matches Ok(packet) && packet@ == view,
                None => r == Err::<Packet, ErrorReceivingData>(ErrorReceivingData::MalformedPacket),
            },
    {
        let len: usize = bytes.len();
        if len < STREAM_HEADER_LEN || len > MAX_PACKET_SIZE {
            return Err(ErrorReceivingData::MalformedPacket);
        }
        let length: u64 = get_u64(bytes, 0);
        let kind: u8 = bytes[8];
        let flag: u8 = bytes[9];
        if length != len as u64 || flag > 1 {
            return Err(ErrorReceivingData::MalformedPacket);
        }
        let keep_alive: bool = flag == 1;
        if kind == REQUEST_STREAM {
            let nonce: [u8; 12] = take_array::<12>(bytes, 10);
            let hash: [u8; 32] = take_array::<32>(bytes, 22);
            let data: Vec<u8> = copy_range(bytes, 54, len);
            Ok(Packet::SingleMessage(Stream { length, req_type: kind, keep_alive, nonce, data, hash }))
        } else if kind == REQUEST_FILE_STREAM {
            if len < FILE_STREAM_HEADER_LEN {
                return Err(ErrorReceivingData::MalformedPacket);
            }
            let filename: [u8; 256] = take_array::<256>(bytes, 10);
            let nonce: [u8; 12] = take_array::<12>(bytes, 266);
            let hash: [u8; 32] = take_array::<32>(bytes, 278);
            let data: Vec<u8> = copy_range(bytes, 310, len);
            Ok(
                Packet::FileMessage(
                    FileStream { length, req_type: kind, keep_alive, filename, nonce, data, hash },
                ),
            )
        } else if kind == REQUEST_BULK_CHUNK {
            if len < CHUNK_HEADER_LEN {
                return Err(ErrorReceivingData::MalformedPacket);
            }
            let packet_id: u64 = get_u64(bytes, 10);
            let packet_number: u16 = get_u16(bytes, 18);
            let out_of: u16 = get_u16(bytes, 20);
            if packet_number >= out_of {
                return Err(ErrorReceivingData::MalformedPacket);
            }
            let nonce: [u8; 12] = take_array::<12>(bytes, 22);
            let hash: [u8; 32] = take_array::<32>(bytes, 34);
            let data: Vec<u8> = copy_range(bytes, 66, len);
            Ok(
                Packet::BulkChunk(
                    Request {
                        length,
                        req_type: kind,
                        keep_alive,
                        packet_id,
                        packet_number,
                        out_of,
                        nonce,
                        data,
                        hash,
                    },
                ),
            )
        } else {
            Err(ErrorReceivingData::MalformedPacket)
        }
    }
}

/// The total length that the first eight bytes of a packet announce, for a
/// reader that has to know how many bytes to wait for. A length below the
/// smallest header or above the ceiling is refused.
pub fn announced_length(head: &[u8]) -> (r: Result<usize, ErrorReceivingData>)
    requires
        head.len() >= 8,
    ensures
        r is Ok <==> STREAM_HEADER_LEN <= u64_from_be(head@.subrange(0, 8)) <= MAX_PACKET_SIZE,
        r matches Ok(total) ==> total == u64_from_be(head@.subrange(0, 8)),
        r matches Err(e) ==> e == ErrorReceivingData::MalformedPacket,
{
    let total: u64 = get_u64(head, 0);
    if total < STREAM_HEADER_LEN as u64 || total > MAX_PACKET_SIZE as u64 {
        return Err(ErrorReceivingData::MalformedPacket);
    }
    Ok(total as usize)
}

/// The keep-alive flag in the header of a packet, for a reader that has to
/// decide whether to go on after the packet was refused. Bytes too short to
/// hold a flag hold none.
pub fn keep_alive_flag(wire: &[u8]) -> (flag: bool)
    ensures
        flag <==> wire.len() >= 10 && wire@[9] == 1,
        decoded(wire@) matches Some(packet) ==> flag == packet.keep_alive,
{
    wire.len() >= 10 && wire[9] == 1
}

/// Whatever decodes is well formed, and encodes to the very bytes it was
/// read from.
pub proof fn lemma_decoded_is_canonical(bytes: Seq<u8>)
    requires
        decoded(bytes) is Some,
    ensures
        decoded(bytes)->0.well_formed(),
        decoded(bytes)->0.encoded() == bytes,
{
    let p = decoded(bytes)->0;
    let head = bytes.subrange(0, 8);
    lemma_bytes_of_u64(head);
    assert(u64_be(p.length) == head);
    assert(seq![p.req_type, flag_byte(p.keep_alive)] == bytes.subrange(8, 10));
    if p.kind == REQUEST_BULK_CHUNK {
        lemma_bytes_of_u64(bytes.subrange(10, 18));
        lemma_bytes_of_u16(bytes.subrange(18, 20));
        lemma_bytes_of_u16(bytes.subrange(20, 22));
        assert(p.kind_fields() == bytes.subrange(10, 22));
    } else if p.kind == REQUEST_FILE_STREAM {
        assert(p.kind_fields() == bytes.subrange(10, 266));
    } else {
        assert(p.kind_fields() == bytes.subrange(10, 10));
    }
    assert(p.encoded() =~= bytes);
}

/// A well-formed packet decodes from its own encoding.
pub proof fn lemma_decode_encode(p: PacketView)
    requires
        p.well_formed(),
    ensures
        decoded(p.encoded()) == Some(p),
{
    let bytes = p.encoded();
    lemma_u64_round_trip(p.length);
    lemma_u64_round_trip(p.packet_id);
    lemma_u16_round_trip(p.packet_number);
    lemma_u16_round_trip(p.out_of);
    assert(bytes.subrange(0, 8) =~= u64_be(p.length));
    assert(bytes[8] == p.req_type);
    assert(bytes[9] == flag_byte(p.keep_alive));
    if p.kind == REQUEST_BULK_CHUNK {
        assert(bytes.subrange(10, 18) =~= u64_be(p.packet_id));
        assert(bytes.subrange(18, 20) =~= u16_be(p.packet_number));
        assert(bytes.subrange(20, 22) =~= u16_be(p.out_of));
        assert(bytes.subrange(22, 34) =~= p.nonce);
        assert(bytes.subrange(34, 66) =~= p.hash);
        assert(bytes.subrange(66, bytes.len() as int) =~= p.data);
    } else if p.kind == REQUEST_FILE_STREAM {
        assert(bytes.subrange(10, 266) =~= p.filename);
        assert(bytes.subrange(266, 278) =~= p.nonce);
        assert(bytes.subrange(278, 310) =~= p.hash);
        assert(bytes.subrange(310, bytes.len() as int) =~= p.data);
    } else {
        assert(p.filename =~= Seq::<u8>::empty());
        assert(bytes.subrange(10, 22) =~= p.nonce);
        assert(bytes.subrange(22, 54) =~= p.hash);
        assert(bytes.subrange(54, bytes.len() as int) =~= p.data);
    }
    assert(bytes.len() == p.wire_len());
    let q = decoded(bytes)->0;
    assert(q.filename == p.filename && q.nonce == p.nonce && q.hash == p.hash && q.data == p.data);
}

/// Eight bytes are the eight bytes of the number they spell.
proof fn lemma_bytes_of_u64(b: Seq<u8>)
    requires
        b.len() == 8,
    ensures
        u64_be(u64_from_be(b)) == b,
{
    let v = u64_from_be(b);
    let (b0, b1, b2, b3, b4, b5, b6, b7) = (
        b[0] as u64,
        b[1] as u64,
        b[2] as u64,
        b[3] as u64,
        b[4] as u64,
        b[5] as u64,
        b[6] as u64,
        b[7] as u64,
    );
    assert(v == b0 * 0x100_0000_0000_0000 + b1 * 0x1_0000_0000_0000 + b2 * 0x100_0000_0000 + b3
        * 0x1_0000_0000 + b4 * 0x100_0000 + b5 * 0x1_0000 + b6 * 0x100 + b7);
    assert(v / 0x100_0000_0000_0000 == b0 && v / 0x1_0000_0000_0000 % 0x100 == b1 && v
        / 0x100_0000_0000 % 0x100 == b2 && v / 0x1_0000_0000 % 0x100 == b3 && v / 0x100_0000
        % 0x100 == b4 && v / 0x1_0000 % 0x100 == b5 && v / 0x100 % 0x100 == b6 && v % 0x100 == b7)
        by (bit_vector)
        requires
            b0 < 0x100,
            b1 < 0x100,
            b2 < 0x100,
            b3 < 0x100,
            b4 < 0x100,
            b5 < 0x100,
            b6 < 0x100,
            b7 < 0x100,
            v == b0 * 0x100_0000_0000_0000 + b1 * 0x1_0000_0000_0000 + b2 * 0x100_0000_0000 + b3
                * 0x1_0000_0000 + b4 * 0x100_0000 + b5 * 0x1_0000 + b6 * 0x100 + b7,
    ;
    assert(u64_be(v) =~= b);
}

/// Two bytes are the two bytes of the number they spell.
proof fn lemma_bytes_of_u16(b: Seq<u8>)
    requires
        b.len() == 2,
    ensures
        u16_be(u16_from_be(b)) == b,
{
    assert(u16_be(u16_from_be(b)) =~= b);
}

} // verus!
