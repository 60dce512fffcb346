use latency_probe::codec::{decode, encode, DecodeError};

#[test]
fn encode_lays_out_sequence_then_timestamp_then_zeros() {
    let payload = encode(0x0102030405060708, 0x1112131415161718191a1b1c1d1e1f20, 28);
    let expected: Vec<u8> = vec![
        0x01, 0x02, 0x03, 0x04, 0x05, 0x06, 0x07, 0x08, 0x11, 0x12, 0x13, 0x14, 0x15, 0x16, 0x17,
        0x18, 0x19, 0x1a, 0x1b, 0x1c, 0x1d, 0x1e, 0x1f, 0x20, 0, 0, 0, 0,
    ];
    assert_eq!(payload, expected);
}

#[test]
fn encode_never_cuts_the_fixed_part() {
    assert_eq!(encode(7, 9, 0).len(), 24);
    assert_eq!(encode(7, 9, 23).len(), 24);
    assert_eq!(encode(7, 9, 24).len(), 24);
    assert_eq!(encode(7, 9, 25).len(), 25);
    assert_eq!(encode(7, 9, 1472).len(), 1472);
}

#[test]
fn decode_gives_back_what_encode_took() {
    let cases: Vec<(u64, u128, usize)> = vec![
        (0, 0, 24),
        (1, 1_700_000_000_000_000, 128),
        (u64::MAX, u128::MAX, 24),
        (42, 1 << 100, 1500),
        (0x0102030405060708, 0x1112131415161718191a1b1c1d1e1f20, 10),
    ];
    for (sequence, sent_at, size) in cases {
        assert_eq!(decode(&encode(sequence, sent_at, size)), Ok((sequence, sent_at)));
    }
}

#[test]
fn decode_reads_big_endian() {
    let mut bytes: Vec<u8> = vec![0; 24];
    bytes[7] = 1;
    bytes[6] = 2;
    bytes[23] = 3;
    bytes[8] = 0x80;
    assert_eq!(decode(&bytes), Ok((0x0201, (0x80u128 << 120) | 3)));
}

#[test]
fn decode_ignores_padding() {
    let mut bytes = encode(5, 6, 24);
    bytes.extend_from_slice(&[0xff, 0xee, 0xdd]);
    assert_eq!(decode(&bytes), Ok((5, 6)));
}

#[test]
fn decode_rejects_short_datagrams() {
    assert_eq!(decode(&[]), Err(DecodeError::MalformedPayload));
    assert_eq!(decode(&[0u8; 8]), Err(DecodeError::MalformedPayload));
    assert_eq!(decode(&[0u8; 23]), Err(DecodeError::MalformedPayload));
    assert!(decode(&[0u8; 24]).is_ok());
}
