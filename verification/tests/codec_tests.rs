use fixed_index::codec::{decode_entry, encode_entry, ENTRY_SIZE};

#[test]
fn entry_size_is_eight() {
    assert_eq!(ENTRY_SIZE, 8);
}

#[test]
fn encode_is_big_endian() {
    assert_eq!(
        encode_entry(0x0102030405060708),
        vec![1, 2, 3, 4, 5, 6, 7, 8]
    );
}

#[test]
fn encode_zero() {
    assert_eq!(encode_entry(0), vec![0u8; 8]);
}

#[test]
fn encode_max() {
    assert_eq!(encode_entry(u64::MAX), vec![0xff; 8]);
}

#[test]
fn encode_small_value_pads_high_bytes() {
    assert_eq!(encode_entry(42), vec![0, 0, 0, 0, 0, 0, 0, 42]);
}

#[test]
fn decode_known_bytes() {
    assert_eq!(decode_entry(&[0, 0, 0, 0, 0, 0, 0, 42]), 42);
    assert_eq!(decode_entry(&[1, 2, 3, 4, 5, 6, 7, 8]), 0x0102030405060708);
    assert_eq!(decode_entry(&[0xff; 8]), u64::MAX);
}

#[test]
fn decode_encode_round_trip() {
    for v in [0u64, 1, 42, 255, 256, 999999999999, u64::MAX - 1, u64::MAX] {
        assert_eq!(decode_entry(&encode_entry(v)), v);
    }
}
