use pq_channel::bytes::take_array;
use pq_channel::errors::ErrorReceivingData;
use pq_channel::packets::{
    announced_length, keep_alive_flag, FileStream, Packet, Request, Stream, CHUNK_HEADER_LEN,
    FILENAME_LEN, FILE_STREAM_HEADER_LEN, MAX_PACKET_SIZE, REQUEST_BULK_CHUNK,
    REQUEST_FILE_STREAM, REQUEST_STREAM, STREAM_HEADER_LEN,
};

fn sample_stream() -> Stream {
    Stream::new(true, [0xA1; 12], vec![1, 2, 3], [0xB2; 32]).unwrap()
}

fn sample_chunk() -> Request {
    Request::new(false, 0x0102_0304_0506_0708, 2, 4, [0xA1; 12], vec![9, 8], [0xB2; 32]).unwrap()
}

fn sample_file() -> FileStream {
    let mut name = [0u8; 256];
    name[..9].copy_from_slice(b"notes.txt");
    FileStream::new(true, name, [0xA1; 12], vec![7; 5], [0xB2; 32]).unwrap()
}

fn is_malformed(bytes: &[u8]) -> bool {
    matches!(Packet::decode(bytes), Err(ErrorReceivingData::MalformedPacket))
}

#[test]
fn stream_has_its_type_and_total_length() {
    let p = sample_stream();
    assert_eq!(p.req_type, REQUEST_STREAM);
    assert_eq!(p.length, (STREAM_HEADER_LEN + 3) as u64);
    assert_eq!(p.length, 57);
    assert!(p.keep_alive);
}

#[test]
fn stream_is_laid_out_field_by_field() {
    let bytes = Packet::SingleMessage(sample_stream()).encode();
    let mut expected = vec![0u8, 0, 0, 0, 0, 0, 0, 57, 1, 1];
    expected.extend([0xA1u8; 12]);
    expected.extend([0xB2u8; 32]);
    expected.extend([1u8, 2, 3]);
    assert_eq!(bytes, expected);
}

#[test]
fn chunk_is_laid_out_field_by_field() {
    let p = sample_chunk();
    assert_eq!(p.req_type, REQUEST_BULK_CHUNK);
    assert_eq!(p.length, (CHUNK_HEADER_LEN + 2) as u64);
    let bytes = Packet::BulkChunk(p).encode();
    let mut expected = vec![0u8, 0, 0, 0, 0, 0, 0, 68, 4, 0];
    expected.extend([1u8, 2, 3, 4, 5, 6, 7, 8]);
    expected.extend([0u8, 2, 0, 4]);
    expected.extend([0xA1u8; 12]);
    expected.extend([0xB2u8; 32]);
    expected.extend([9u8, 8]);
    assert_eq!(bytes, expected);
}

#[test]
fn file_stream_is_laid_out_field_by_field() {
    let p = sample_file();
    assert_eq!(p.req_type, REQUEST_FILE_STREAM);
    assert_eq!(p.length, (FILE_STREAM_HEADER_LEN + 5) as u64);
    let bytes = Packet::FileMessage(p).encode();
    assert_eq!(bytes.len(), 315);
    assert_eq!(&bytes[..10], &[0u8, 0, 0, 0, 0, 0, 1, 59, 2, 1][..]);
    assert_eq!(&bytes[10..19], b"notes.txt");
    assert_eq!(&bytes[19..10 + FILENAME_LEN], &[0u8; 247][..]);
    assert_eq!(&bytes[266..278], &[0xA1u8; 12][..]);
    assert_eq!(&bytes[278..310], &[0xB2u8; 32][..]);
    assert_eq!(&bytes[310..], &[7u8; 5][..]);
}

#[test]
fn stream_decodes_from_its_encoding() {
    let bytes = Packet::SingleMessage(sample_stream()).encode();
    match Packet::decode(&bytes).unwrap() {
        Packet::SingleMessage(p) => {
            assert_eq!(p.length, 57);
            assert_eq!(p.req_type, 1);
            assert!(p.keep_alive);
            assert_eq!(p.nonce, [0xA1; 12]);
            assert_eq!(p.hash, [0xB2; 32]);
            assert_eq!(p.data, vec![1u8, 2, 3]);
        },
        _ => panic!("not a single message"),
    }
}

#[test]
fn chunk_decodes_from_its_encoding() {
    let packet = Packet::BulkChunk(sample_chunk());
    assert_eq!(packet.bulk_id(), 0x0102_0304_0506_0708);
    assert_eq!(packet.sequence_number(), 2);
    assert_eq!(packet.sequence_count(), 4);
    let bytes = packet.encode();
    let decoded = Packet::decode(&bytes).unwrap();
    assert_eq!(decoded.bulk_id(), 0x0102_0304_0506_0708);
    assert_eq!(decoded.sequence_number(), 2);
    assert_eq!(decoded.sequence_count(), 4);
    assert_eq!(decoded.data(), &vec![9u8, 8]);
    assert_eq!(decoded.encode(), bytes);
    match decoded {
        Packet::BulkChunk(p) => assert!(!p.keep_alive),
        _ => panic!("not a chunk"),
    }
}

#[test]
fn file_stream_decodes_from_its_encoding() {
    let bytes = Packet::FileMessage(sample_file()).encode();
    match Packet::decode(&bytes).unwrap() {
        Packet::FileMessage(p) => {
            assert_eq!(&p.filename[..9], b"notes.txt");
            assert_eq!(&p.filename[9..], &[0u8; 247][..]);
            assert_eq!(p.data, vec![7u8; 5]);
            assert_eq!(Packet::FileMessage(p).encode(), bytes);
        },
        _ => panic!("not a file message"),
    }
}

#[test]
fn a_packet_that_is_no_chunk_counts_as_one_of_one() {
    let packet = Packet::SingleMessage(sample_stream());
    assert_eq!(packet.sequence_count(), 1);
    assert_eq!(packet.sequence_number(), 0);
    assert_eq!(packet.bulk_id(), 0);
    let packet = Packet::FileMessage(sample_file());
    assert_eq!(packet.sequence_count(), 1);
    assert_eq!(packet.sequence_number(), 0);
}

#[test]
fn empty_payload_is_a_packet_of_header_only() {
    let p = Stream::new(false, [0; 12], Vec::new(), [0; 32]).unwrap();
    assert_eq!(p.length, 54);
    let bytes = Packet::SingleMessage(p).encode();
    assert_eq!(bytes.len(), 54);
    assert!(Packet::decode(&bytes).is_ok());
}

#[test]
fn truncated_packets_are_malformed() {
    let bytes = Packet::SingleMessage(sample_stream()).encode();
    for len in 0..bytes.len() {
        assert!(is_malformed(&bytes[..len]));
    }
    let bytes = Packet::BulkChunk(sample_chunk()).encode();
    for len in 0..bytes.len() {
        assert!(is_malformed(&bytes[..len]));
    }
}

#[test]
fn a_length_field_that_disagrees_is_malformed() {
    let mut bytes = Packet::SingleMessage(sample_stream()).encode();
    bytes.push(0);
    assert!(is_malformed(&bytes));
    let mut bytes = Packet::SingleMessage(sample_stream()).encode();
    bytes[7] = 56;
    assert!(is_malformed(&bytes));
    bytes[7] = 57;
    bytes[0] = 1;
    assert!(is_malformed(&bytes));
}

#[test]
fn an_unknown_request_type_is_malformed() {
    for kind in [0u8, 3, 5, 8, 255] {
        let mut bytes = Packet::SingleMessage(sample_stream()).encode();
        bytes[8] = kind;
        assert!(is_malformed(&bytes));
    }
}

#[test]
fn a_flag_that_is_no_flag_is_malformed() {
    let mut bytes = Packet::SingleMessage(sample_stream()).encode();
    bytes[9] = 2;
    assert!(is_malformed(&bytes));
}

#[test]
fn a_sequence_number_out_of_range_is_malformed() {
    let mut bytes = Packet::BulkChunk(sample_chunk()).encode();
    bytes[19] = 4;
    assert!(is_malformed(&bytes));
    bytes[19] = 5;
    assert!(is_malformed(&bytes));
    bytes[19] = 3;
    assert!(Packet::decode(&bytes).is_ok());
    bytes[21] = 0;
    bytes[19] = 0;
    assert!(is_malformed(&bytes));
}

#[test]
fn a_header_too_short_for_its_kind_is_malformed() {
    // A stream of 60 bytes, relabelled as a chunk, lacks 6 bytes of header.
    let p = Stream::new(true, [0; 12], vec![0; 6], [0; 32]).unwrap();
    let mut bytes = Packet::SingleMessage(p).encode();
    bytes[8] = REQUEST_BULK_CHUNK;
    assert!(is_malformed(&bytes));
    bytes[8] = REQUEST_FILE_STREAM;
    assert!(is_malformed(&bytes));
}

#[test]
fn a_chunk_needs_a_number_below_its_count() {
    assert!(Request::new(true, 1, 0, 0, [0; 12], Vec::new(), [0; 32]).is_none());
    assert!(Request::new(true, 1, 4, 4, [0; 12], Vec::new(), [0; 32]).is_none());
    assert!(Request::new(true, 1, 3, 4, [0; 12], Vec::new(), [0; 32]).is_some());
}

#[test]
fn arrays_are_cut_from_buffers() {
    let src: Vec<u8> = (0..40u8).collect();
    let a: [u8; 4] = take_array::<4>(&src, 3);
    assert_eq!(a, [3, 4, 5, 6]);
    let whole: [u8; 40] = take_array::<40>(&src, 0);
    assert_eq!(whole.to_vec(), src);
    let none: [u8; 0] = take_array::<0>(&src, 40);
    assert_eq!(none.len(), 0);
}

#[test]
fn the_announced_length_is_bounded_before_it_is_believed() {
    let bytes = Packet::SingleMessage(sample_stream()).encode();
    assert_eq!(announced_length(&bytes[..8]), Ok(57));
    assert_eq!(announced_length(&bytes), Ok(57));
    assert_eq!(announced_length(&[0, 0, 0, 0, 0, 0, 0, 54]), Ok(54));
    assert_eq!(
        announced_length(&[0, 0, 0, 0, 0, 0, 0, 53]),
        Err(ErrorReceivingData::MalformedPacket)
    );
    assert_eq!(announced_length(&[0; 8]), Err(ErrorReceivingData::MalformedPacket));
    let ceiling = (MAX_PACKET_SIZE as u64).to_be_bytes();
    assert_eq!(ceiling, [0, 0, 0, 0, 0x3f, 0xff, 0xfc, 0x00]);
    assert_eq!(announced_length(&ceiling), Ok(MAX_PACKET_SIZE));
    let above = (MAX_PACKET_SIZE as u64 + 1).to_be_bytes();
    assert_eq!(announced_length(&above), Err(ErrorReceivingData::MalformedPacket));
    assert_eq!(announced_length(&[0xFF; 8]), Err(ErrorReceivingData::MalformedPacket));
}

#[test]
fn a_packet_over_the_ceiling_is_not_built() {
    assert!(Stream::new(true, [0; 12], vec![0; 100], [0; 32]).is_some());
    let too_long = vec![0u8; MAX_PACKET_SIZE - STREAM_HEADER_LEN + 1];
    assert!(Stream::new(true, [0; 12], too_long, [0; 32]).is_none());
}

#[test]
fn the_keep_alive_flag_is_read_from_the_header() {
    assert!(keep_alive_flag(&Packet::SingleMessage(sample_stream()).encode()));
    assert!(!keep_alive_flag(&Packet::BulkChunk(sample_chunk()).encode()));
    assert!(keep_alive_flag(&Packet::FileMessage(sample_file()).encode()));
    assert!(keep_alive_flag(&[0, 0, 0, 0, 0, 0, 0, 0, 9, 1]));
    assert!(!keep_alive_flag(&[0, 0, 0, 0, 0, 0, 0, 0, 9, 2]));
    assert!(!keep_alive_flag(&[1, 1, 1, 1, 1, 1, 1, 1, 1]));
    assert!(!keep_alive_flag(&[]));
}
