use blitzguard::envelope::{decode, encode, FormatError, FrameReader, MAX_PAYLOAD, MTU};

#[test]
fn encode_writes_length_prefix_then_payload() {
    let e = encode(&[0xde, 0xad, 0xbe]).unwrap();
    assert_eq!(e, vec![3, 0, 0, 0, 0, 0, 0, 0, 0xde, 0xad, 0xbe]);
}

#[test]
fn encode_two_byte_length() {
    let p = vec![7u8; 300];
    let e = encode(&p).unwrap();
    assert_eq!(&e[..8], &[44, 1, 0, 0, 0, 0, 0, 0]);
    assert_eq!(&e[8..], &p[..]);
}

#[test]
fn encode_empty_payload() {
    assert_eq!(encode(&[]).unwrap(), vec![0u8; 8]);
    assert_eq!(decode(&[0u8; 8]).unwrap(), Vec::<u8>::new());
}

#[test]
fn encode_refuses_oversized_payload() {
    let p = vec![1u8; MAX_PAYLOAD + 1];
    assert_eq!(encode(&p), Err(FormatError::Oversized));
    let q = vec![1u8; MAX_PAYLOAD];
    assert_eq!(decode(&encode(&q).unwrap()).unwrap(), q);
}

#[test]
fn encoding_matches_bincode_byte_vector() {
    let p: Vec<u8> = (0..=255u8).collect();
    assert_eq!(encode(&p).unwrap(), bincode::serialize(&p).unwrap());
}

#[test]
fn round_trip_up_to_mtu() {
    for len in [0usize, 1, 2, 255, 256, 1000, MTU] {
        let p: Vec<u8> = (0..len).map(|i| (i * 31 % 251) as u8).collect();
        assert_eq!(decode(&encode(&p).unwrap()).unwrap(), p);
    }
}

#[test]
fn decode_truncated_header() {
    assert_eq!(decode(&[5, 0, 0]), Err(FormatError::Truncated));
    assert_eq!(decode(&[]), Err(FormatError::Truncated));
}

#[test]
fn decode_truncated_payload() {
    assert_eq!(decode(&[4, 0, 0, 0, 0, 0, 0, 0, 1, 2]), Err(FormatError::Truncated));
}

#[test]
fn decode_oversized_header() {
    assert_eq!(decode(&[0, 0, 1, 0, 0, 0, 0, 0]), Err(FormatError::Oversized));
    assert_eq!(decode(&[0, 0, 0, 0, 0, 0, 0, 0x80, 1]), Err(FormatError::Oversized));
}

#[test]
fn decode_trailing_bytes() {
    assert_eq!(decode(&[1, 0, 0, 0, 0, 0, 0, 0, 9, 9]), Err(FormatError::TrailingBytes));
}

#[test]
fn reader_reassembles_split_and_coalesced_reads() {
    let mut stream = encode(&[1, 2, 3]).unwrap();
    stream.extend(encode(&[4, 5]).unwrap());
    let mut r = FrameReader::new();
    r.push(&stream[..5]);
    assert_eq!(r.next_envelope(), Ok(None));
    r.push(&stream[5..]);
    assert_eq!(r.next_envelope(), Ok(Some(vec![1, 2, 3])));
    assert_eq!(r.next_envelope(), Ok(Some(vec![4, 5])));
    assert_eq!(r.next_envelope(), Ok(None));
    assert_eq!(r.pending_len(), 0);
    assert_eq!(r.finish(), Ok(()));
}

#[test]
fn reader_reports_oversized_header() {
    let mut r = FrameReader::new();
    r.push(&[0, 0, 0, 1, 0, 0, 0, 0]);
    assert_eq!(r.next_envelope(), Err(FormatError::Oversized));
    assert_eq!(r.pending_len(), 8);
}

#[test]
fn reader_finish_with_fragment_is_truncated() {
    let mut r = FrameReader::new();
    r.push(&encode(&[1, 2, 3]).unwrap()[..3]);
    assert_eq!(r.finish(), Err(FormatError::Truncated));
}
