use blobidx::varint::{decode_varint, encode_varint};

#[test]
fn encode_small_values() {
    assert_eq!(encode_varint(0), vec![0x00]);
    assert_eq!(encode_varint(1), vec![0x01]);
    assert_eq!(encode_varint(127), vec![0x7f]);
    assert_eq!(encode_varint(128), vec![0x80, 0x01]);
    assert_eq!(encode_varint(300), vec![0xac, 0x02]);
}

#[test]
fn encode_max_value() {
    let e = encode_varint(u64::MAX);
    assert_eq!(e.len(), 10);
    assert_eq!(e[9], 0x01);
}

#[test]
fn decode_inverts_encode() {
    let samples: Vec<u64> = vec![
        0,
        1,
        127,
        128,
        129,
        255,
        256,
        300,
        16383,
        16384,
        u32::MAX as u64,
        u64::MAX - 1,
        u64::MAX,
    ];
    for n in samples {
        let e = encode_varint(n);
        assert_eq!(decode_varint(&e, 0), Some((n, e.len())));
        // with trailing bytes the value and count stay the same
        let mut padded = e.clone();
        padded.push(0xff);
        padded.push(0x00);
        assert_eq!(decode_varint(&padded, 0), Some((n, e.len())));
    }
}

#[test]
fn decode_at_offset() {
    let mut buf = vec![0xaa, 0xbb];
    buf.extend(encode_varint(300));
    assert_eq!(decode_varint(&buf, 2), Some((300, 2)));
}

#[test]
fn decode_rejects_empty_and_truncated() {
    assert_eq!(decode_varint(&[], 0), None);
    assert_eq!(decode_varint(&[0x80], 0), None);
    assert_eq!(decode_varint(&[0xff, 0xff], 0), None);
}

#[test]
fn decode_rejects_non_minimal() {
    // 0x80 0x00 would decode to 0, but ends in a zero continuation byte
    assert_eq!(decode_varint(&[0x80, 0x00], 0), None);
    assert_eq!(decode_varint(&[0xff, 0x00], 0), None);
}

#[test]
fn decode_rejects_overflow() {
    // ten continuation bytes: the varint does not end within 64 bits
    assert_eq!(decode_varint(&[0xff; 10], 0), None);
    // tenth byte may only hold the single remaining bit
    let mut too_big = vec![0xff; 9];
    too_big.push(0x02);
    assert_eq!(decode_varint(&too_big, 0), None);
}

#[test]
fn encoding_matches_reference_codec() {
    let samples: Vec<u64> = vec![0, 1, 127, 128, 300, 16384, 123456789, u64::MAX];
    for n in samples {
        let mut buf = unsigned_varint::encode::u64_buffer();
        let reference = unsigned_varint::encode::u64(n, &mut buf);
        let encoded = encode_varint(n);
        assert_eq!(encoded.as_slice(), reference);
        let (back, rest) = unsigned_varint::decode::u64(&encoded).unwrap();
        assert_eq!(back, n);
        assert!(rest.is_empty());
    }
}
