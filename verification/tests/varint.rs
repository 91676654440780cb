use moq_relay::{decode_u64, encode_u64, DecodeError, EncodeError};

#[test]
fn decode_one_byte() {
    assert_eq!(decode_u64(&vec![0x25]), Ok((37, 1)));
}

#[test]
fn decode_zero() {
    assert_eq!(decode_u64(&vec![0x00]), Ok((0, 1)));
}

#[test]
fn decode_two_byte() {
    // RFC 9000 example: 0x7bbd carries 15293.
    assert_eq!(decode_u64(&vec![0x7b, 0xbd]), Ok((15293, 2)));
}

#[test]
fn decode_four_byte() {
    // RFC 9000 example: 0x9d7f3e7d carries 494878333.
    assert_eq!(decode_u64(&vec![0x9d, 0x7f, 0x3e, 0x7d]), Ok((494_878_333, 4)));
}

#[test]
fn decode_eight_byte() {
    // RFC 9000 example: 0xc2197c5eff14e88c carries 151288809941952652.
    assert_eq!(
        decode_u64(&vec![0xc2, 0x19, 0x7c, 0x5e, 0xff, 0x14, 0xe8, 0x8c]),
        Ok((151_288_809_941_952_652, 8))
    );
}

#[test]
fn decode_non_minimal() {
    // A two-byte encoding of a value that would fit one byte still decodes.
    assert_eq!(decode_u64(&vec![0x40, 0x25]), Ok((37, 2)));
}

#[test]
fn decode_leaves_trailing_bytes() {
    assert_eq!(decode_u64(&vec![0x00, 0xaa, 0xbb]), Ok((0, 1)));
    assert_eq!(decode_u64(&vec![0x43, 0xe8, 0x01]), Ok((1000, 2)));
}

#[test]
fn decode_empty_is_short() {
    assert_eq!(decode_u64(&vec![]), Err(DecodeError::Short));
}

#[test]
fn decode_truncated_two_byte_is_short() {
    assert_eq!(decode_u64(&vec![0x40]), Err(DecodeError::Short));
}

#[test]
fn decode_truncated_four_byte_is_short() {
    assert_eq!(decode_u64(&vec![0x80, 0x01, 0x02]), Err(DecodeError::Short));
}

#[test]
fn decode_truncated_eight_byte_is_short() {
    assert_eq!(
        decode_u64(&vec![0xc0, 0x01, 0x02, 0x03, 0x04, 0x05, 0x06]),
        Err(DecodeError::Short)
    );
}

#[test]
fn encode_uses_minimal_widths() {
    assert_eq!(encode_u64(0), Ok(vec![0x00]));
    assert_eq!(encode_u64(37), Ok(vec![0x25]));
    assert_eq!(encode_u64(63), Ok(vec![0x3f]));
    assert_eq!(encode_u64(64), Ok(vec![0x40, 0x40]));
    assert_eq!(encode_u64(15293), Ok(vec![0x7b, 0xbd]));
    assert_eq!(encode_u64(16383), Ok(vec![0x7f, 0xff]));
    assert_eq!(encode_u64(16384), Ok(vec![0x80, 0x00, 0x40, 0x00]));
    assert_eq!(encode_u64(494_878_333), Ok(vec![0x9d, 0x7f, 0x3e, 0x7d]));
    assert_eq!(
        encode_u64(1 << 30),
        Ok(vec![0xc0, 0x00, 0x00, 0x00, 0x40, 0x00, 0x00, 0x00])
    );
    assert_eq!(
        encode_u64(151_288_809_941_952_652),
        Ok(vec![0xc2, 0x19, 0x7c, 0x5e, 0xff, 0x14, 0xe8, 0x8c])
    );
}

#[test]
fn encode_round_trips_through_decode() {
    let values: [u64; 12] = [
        0,
        1,
        63,
        64,
        300,
        16383,
        16384,
        1_000_000,
        1073741823,
        1073741824,
        151_288_809_941_952_652,
        (1 << 62) - 1,
    ];
    for v in values {
        let b = encode_u64(v).expect("value fits");
        assert_eq!(decode_u64(&b), Ok((v, b.len())));
    }
}

#[test]
fn encode_rejects_oversized_values() {
    assert_eq!(encode_u64(1 << 62), Err(EncodeError::BoundsExceeded));
    assert_eq!(encode_u64(u64::MAX), Err(EncodeError::BoundsExceeded));
}
